pub mod types;
pub mod addr;
pub mod wire;
pub mod name;
pub mod header;
pub mod question;
pub mod record;
pub mod edns;
pub mod message;
pub mod presentation;
