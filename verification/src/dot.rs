//! DNS over TLS (RFC 7858): the TLS server name to present for well-known
//! resolver addresses, and the length-prefixed framing on the stream.
use vstd::prelude::*;
use crate::error::DnsError;
use crate::protocol::wire::be16;
use crate::transport::{framed, frame_message};
use crate::text::{push_lit, push_str, str_is};
use crate::protocol::wire::{copy_range, extend_bytes};

verus! {

/// The name a resolver's certificate is issued for, for the well-known
/// public resolver addresses; any other server is its own name.
pub open spec fn dot_hostname(server: Seq<char>) -> Seq<char> {
    if server == seq!['1', '.', '1', '.', '1', '.', '1'] || server == seq![
        '1',
        '.',
        '0',
        '.',
        '0',
        '.',
        '1',
    ] {
        seq!['c', 'l', 'o', 'u', 'd', 'f', 'l', 'a', 'r', 'e', '-', 'd', 'n', 's', '.', 'c', 'o', 'm']
    } else if server == seq!['8', '.', '8', '.', '8', '.', '8'] || server == seq![
        '8',
        '.',
        '8',
        '.',
        '4',
        '.',
        '4',
    ] {
        seq!['d', 'n', 's', '.', 'g', 'o', 'o', 'g', 'l', 'e']
    } else if server == seq!['9', '.', '9', '.', '9', '.', '9'] || server == seq![
        '1',
        '4',
        '9',
        '.',
        '1',
        '1',
        '2',
        '.',
        '1',
        '1',
        '2',
        '.',
        '1',
        '1',
        '2',
    ] {
        seq!['d', 'n', 's', '.', 'q', 'u', 'a', 'd', '9', '.', 'n', 'e', 't']
    } else {
        server
    }
}

/// The TLS server name for a DoT server.
pub fn resolve_dot_hostname(server: &str) -> (r: String)
    ensures
        r@ == dot_hostname(server@),
{
    let mut s = String::new();
    if str_is(server, vec!['1', '.', '1', '.', '1', '.', '1']) || str_is(
        server,
        vec!['1', '.', '0', '.', '0', '.', '1'],
    ) {
        push_lit(
            &mut s,
            vec!['c', 'l', 'o', 'u', 'd', 'f', 'l', 'a', 'r', 'e', '-', 'd', 'n', 's', '.', 'c', 'o', 'm'],
        );
    } else if str_is(server, vec!['8', '.', '8', '.', '8', '.', '8']) || str_is(
        server,
        vec!['8', '.', '8', '.', '4', '.', '4'],
    ) {
        push_lit(&mut s, vec!['d', 'n', 's', '.', 'g', 'o', 'o', 'g', 'l', 'e']);
    } else if str_is(server, vec!['9', '.', '9', '.', '9', '.', '9']) || str_is(
        server,
        vec!['1', '4', '9', '.', '1', '1', '2', '.', '1', '1', '2', '.', '1', '1', '2'],
    ) {
        push_lit(&mut s, vec!['d', 'n', 's', '.', 'q', 'u', 'a', 'd', '9', '.', 'n', 'e', 't']);
    } else {
        push_str(&mut s, server);
    }
    assert(s@ =~= dot_hostname(server@));
    s
}

/// Appends a framed query to what will be written on the stream.
pub fn write_framed_query(out: &mut Vec<u8>, query: &[u8]) -> (r: Result<(), DnsError>)
    ensures
        r is Ok,
        final(out)@ == old(out)@ + framed(query@),
{
    let f = frame_message(query);
    extend_bytes(out, f.as_slice());
    Ok(())
}

/// Reads one framed response from the bytes received: the two-byte length,
/// then that many bytes. Fewer bytes than announced is a network error.
pub fn read_framed_response(input: &[u8]) -> (r: Result<Vec<u8>, DnsError>)
    ensures
        match r {
            Ok(body) => input@.len() >= 2 && input@.len() - 2 >= be16(input@[0], input@[1])
                && body@ == input@.subrange(2, 2 + be16(input@[0], input@[1])),
            Err(e) => (input@.len() < 2 || input@.len() - 2 < be16(input@[0], input@[1]))
                && e is Network,
        },
{
    let n = input.len();
    if n < 2 {
        return Err(DnsError::Network(read_failed_text()));
    }
    let body_len = (input[0] as usize) * 256 + (input[1] as usize);
    if n - 2 < body_len {
        return Err(DnsError::Network(read_failed_text()));
    }
    Ok(copy_range(input, 2, 2 + body_len))
}

/// The message for a stream that ends early.
fn read_failed_text() -> (r: String)
    ensures
        r@ == seq!['D', 'o', 'T', ' ', 'r', 'e', 'a', 'd', ' ', 'f', 'a', 'i', 'l', 'e', 'd', ':', ' ']
            + seq!['f', 'a', 'i', 'l', 'e', 'd', ' ', 't', 'o', ' ', 'f', 'i', 'l', 'l', ' ']
            + seq!['w', 'h', 'o', 'l', 'e', ' ', 'b', 'u', 'f', 'f', 'e', 'r'],
{
    let mut s = String::new();
    push_lit(&mut s, vec!['D', 'o', 'T', ' ', 'r', 'e', 'a', 'd', ' ', 'f', 'a', 'i', 'l', 'e', 'd', ':', ' ']);
    push_lit(&mut s, vec!['f', 'a', 'i', 'l', 'e', 'd', ' ', 't', 'o', ' ', 'f', 'i', 'l', 'l', ' ']);
    push_lit(&mut s, vec!['w', 'h', 'o', 'l', 'e', ' ', 'b', 'u', 'f', 'f', 'e', 'r']);
    s
}

} // verus!
