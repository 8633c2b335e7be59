//! Comparing one query across several servers.
use vstd::prelude::*;
use crate::error::DnsError;
use crate::transport::QueryResult;

verus! {

/// What one server answered.
#[derive(Debug)]
pub struct ComparisonResult {
    pub server: String,
    pub result: Result<QueryResult, DnsError>,
}

} // verus!
