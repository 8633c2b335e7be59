//! Checking a record across well-known public resolvers.
use vstd::prelude::*;
use crate::error::DnsError;
use crate::text::{push_str, strings_view};
use crate::transport::QueryResult;

verus! {

/// A public resolver: its display name and address.
#[derive(Debug, Clone)]
pub struct PropagationResolver {
    pub name: String,
    pub ip: String,
}

/// The public resolvers asked, in order: names and addresses.
pub open spec fn resolver_table() -> Seq<(Seq<char>, Seq<char>)> {
    seq![
        ("Google"@, "8.8.8.8"@),
        ("Cloudflare"@, "1.1.1.1"@),
        ("Quad9"@, "9.9.9.9"@),
        ("OpenDNS"@, "208.67.222.222"@),
        ("Level3"@, "4.2.2.1"@),
        ("CleanBrowsing"@, "185.228.168.9"@),
        ("AdGuard"@, "94.140.14.14"@),
        ("Comodo"@, "8.26.56.26"@),
        ("Verisign"@, "64.6.64.6"@),
        ("Yandex"@, "77.88.8.8"@),
    ]
}

/// A resolver entry.
fn resolver(name: &str, ip: &str) -> (r: PropagationResolver)
    ensures
        r.name@ == name@,
        r.ip@ == ip@,
{
    let mut n = String::new();
    push_str(&mut n, name);
    let mut i = String::new();
    push_str(&mut i, ip);
    PropagationResolver { name: n, ip: i }
}

/// The public resolvers.
pub fn public_resolvers() -> (r: Vec<PropagationResolver>)
    ensures
        r@.map_values(|p: PropagationResolver| (p.name@, p.ip@)) == resolver_table(),
{
    let mut v: Vec<PropagationResolver> = Vec::new();
    v.push(resolver("Google", "8.8.8.8"));
    v.push(resolver("Cloudflare", "1.1.1.1"));
    v.push(resolver("Quad9", "9.9.9.9"));
    v.push(resolver("OpenDNS", "208.67.222.222"));
    v.push(resolver("Level3", "4.2.2.1"));
    v.push(resolver("CleanBrowsing", "185.228.168.9"));
    v.push(resolver("AdGuard", "94.140.14.14"));
    v.push(resolver("Comodo", "8.26.56.26"));
    v.push(resolver("Verisign", "64.6.64.6"));
    v.push(resolver("Yandex", "77.88.8.8"));
    assert(v@.map_values(|p: PropagationResolver| (p.name@, p.ip@)) =~= resolver_table());
    v
}

/// What one public resolver answered.
#[derive(Debug)]
pub struct PropagationResult {
    pub resolver_name: String,
    pub resolver_ip: String,
    pub result: Result<QueryResult, DnsError>,
}

} // verus!
