//! digg: DNS wire-format encoding and decoding, record rendering and the
//! decision logic of a dig-like lookup tool, with Verus-checked contracts.
pub mod text;
pub mod error;
pub mod protocol;
pub mod batch;
pub mod doh;
pub mod dot;
pub mod transport;
pub mod idn;
pub mod output;
pub mod trace;
pub mod compare;
pub mod propagation;
pub mod axfr;
pub mod watch;
pub mod ip_text;
pub mod cli;
pub mod resolver;
