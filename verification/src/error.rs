//! The error type shared by every fallible operation, and the process exit
//! code each kind of error maps to.
use vstd::prelude::*;

verus! {

/// An error, classified by what went wrong; the payload is the message shown
/// to the user.
#[derive(Debug, Clone)]
pub enum DnsError {
    Usage(String),
    Protocol(String),
    Network(String),
    Timeout(String),
}

/// The process exit status for an error of each kind.
pub open spec fn spec_exit_code(e: DnsError) -> i32 {
    match e {
        DnsError::Usage(_) => 1,
        DnsError::Protocol(_) => 2,
        DnsError::Network(_) => 9,
        DnsError::Timeout(_) => 9,
    }
}

/// The message carried by an error.
pub open spec fn spec_message(e: DnsError) -> Seq<char> {
    match e {
        DnsError::Usage(m) => m@,
        DnsError::Protocol(m) => m@,
        DnsError::Network(m) => m@,
        DnsError::Timeout(m) => m@,
    }
}

impl DnsError {
    /// Exit status: usage errors 1, protocol errors 2, network and timeout
    /// errors 9.
    pub fn exit_code(&self) -> (r: i32)
        ensures
            r == spec_exit_code(*self),
    {
        match self {
            DnsError::Usage(_) => 1,
            DnsError::Protocol(_) => 2,
            DnsError::Network(_) => 9,
            DnsError::Timeout(_) => 9,
        }
    }

    /// The message text of the error (what `Display` shows).
    pub fn to_string(&self) -> (r: String)
        ensures
            r@ == spec_message(*self),
    {
        match self {
            DnsError::Usage(m) => m.clone(),
            DnsError::Protocol(m) => m.clone(),
            DnsError::Network(m) => m.clone(),
            DnsError::Timeout(m) => m.clone(),
        }
    }
}

/// A protocol error with the given message.
pub fn protocol_error(msg: &str) -> (r: DnsError)
    ensures
        r matches DnsError::Protocol(m) && m@ == msg@,
{
    DnsError::Protocol(msg.to_owned())
}

/// A usage error with the given message.
pub fn usage_error(msg: &str) -> (r: DnsError)
    ensures
        r matches DnsError::Usage(m) && m@ == msg@,
{
    DnsError::Usage(msg.to_owned())
}

#[verifier::external_type_specification]
#[verifier::external_body]
pub struct ExIoError(std::io::Error);

/// The text of an I/O error. Wraps `<std::io::Error as ToString>::to_string`;
/// nothing is stated of the text, which the platform supplies.
#[verifier::external_body]
fn io_error_text(e: &std::io::Error) -> String {
    e.to_string()
}

impl From<std::io::Error> for DnsError {
    /// An I/O failure is a network error carrying the I/O error's text (the
    /// text itself comes from the platform and is not stated).
    fn from(e: std::io::Error) -> (r: DnsError)
        ensures
            r matches DnsError::Network(_),
            spec_exit_code(r) == 9,
    {
        DnsError::Network(io_error_text(&e))
    }
}

impl vstd::std_specs::convert::FromSpecImpl<std::io::Error> for DnsError {
    open spec fn obeys_from_spec() -> bool {
        false
    }

    open spec fn from_spec(e: std::io::Error) -> DnsError {
        arbitrary()
    }
}

} // verus!
