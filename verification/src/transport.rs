//! What the transports share: the result of a query, the text form of a
//! server address, length-prefixed framing for TCP-based transports, and the
//! checks made on a response.
use vstd::prelude::*;
use crate::error::DnsError;
use crate::protocol::header::Header;
use crate::protocol::message::DnsMessage;
use crate::protocol::wire::{be16, u16_bytes, push_u16, extend_bytes, read_u16, copy_range};
use crate::text::{decimal, push_char, push_decimal, push_lit, push_str};

verus! {

/// How a query travelled.
#[derive(Debug, Clone, Copy, PartialEq, Eq, Structural)]
pub enum TransportProtocol {
    Udp,
    Tcp,
    DoT,
    DoH,
}

/// The name of a transport.
pub open spec fn transport_text(p: TransportProtocol) -> Seq<char> {
    match p {
        TransportProtocol::Udp => seq!['U', 'D', 'P'],
        TransportProtocol::Tcp => seq!['T', 'C', 'P'],
        TransportProtocol::DoT => seq!['D', 'o', 'T'],
        TransportProtocol::DoH => seq!['D', 'o', 'H'],
    }
}

impl TransportProtocol {
    /// The name of the transport (what `Display` shows).
    pub fn to_string(&self) -> (r: String)
        ensures
            r@ == transport_text(*self),
    {
        let mut s = String::new();
        match self {
            TransportProtocol::Udp => push_lit(&mut s, vec!['U', 'D', 'P']),
            TransportProtocol::Tcp => push_lit(&mut s, vec!['T', 'C', 'P']),
            TransportProtocol::DoT => push_lit(&mut s, vec!['D', 'o', 'T']),
            TransportProtocol::DoH => push_lit(&mut s, vec!['D', 'o', 'H']),
        }
        assert(s@ =~= transport_text(*self));
        s
    }
}

/// A response with what was measured while getting it.
#[derive(Debug)]
pub struct QueryResult {
    pub message: DnsMessage,
    /// Time from sending the query to receiving the answer, in milliseconds.
    pub elapsed_ms: u64,
    /// Size of the response in bytes.
    pub bytes: usize,
    pub protocol: TransportProtocol,
}

/// `host:port`, with an IPv6 host (one containing `:`) in brackets.
pub open spec fn addr_text(server: Seq<char>, port: u16) -> Seq<char> {
    if server.contains(':') {
        seq!['['] + server + seq![']', ':'] + decimal(port as nat)
    } else {
        server + seq![':'] + decimal(port as nat)
    }
}

/// The socket address text for a server and port.
pub fn format_addr(server: &str, port: u16) -> (r: String)
    ensures
        r@ == addr_text(server@, port),
{
    let cs = crate::text::chars_of(server);
    let mut colon = false;
    let mut i: usize = 0;
    while i < cs.len()
        invariant
            cs@ == server@,
            i <= cs@.len(),
            colon == exists|k: int| 0 <= k < i && cs@[k] == ':',
        decreases cs@.len() - i,
    {
        if cs[i] == ':' {
            colon = true;
        }
        i = i + 1;
    }
    assert(colon == server@.contains(':'));
    let mut s = String::new();
    if colon {
        push_char(&mut s, '[');
        push_str(&mut s, server);
        push_char(&mut s, ']');
    } else {
        push_str(&mut s, server);
    }
    push_char(&mut s, ':');
    push_decimal(&mut s, port as u64);
    assert(s@ =~= addr_text(server@, port));
    s
}

/// The message that a response whose ID does not match the query's gets.
pub open spec fn id_mismatch_text(got: u16, expected: u16) -> Seq<char> {
    seq!['r', 'e', 's', 'p', 'o', 'n', 's', 'e', ' ', 'I', 'D', ' '] + decimal(got as nat) + seq![
        ' ',
        'd',
        'o',
        'e',
        's',
        ' ',
        'n',
        'o',
        't',
        ' ',
        'm',
        'a',
        't',
        'c',
        'h',
        ' ',
        'q',
        'u',
        'e',
        'r',
        'y',
        ' ',
        'I',
        'D',
        ' ',
    ] + decimal(expected as nat)
}

/// Checks that a response answers the query with the given ID.
pub fn verify_id(response: &Header, expected_id: u16) -> (r: Result<(), DnsError>)
    ensures
        r is Ok <==> response.id == expected_id,
        r matches Err(DnsError::Protocol(m)) ==> m@ == id_mismatch_text(response.id, expected_id),
        r is Err ==> r->Err_0 is Protocol,
{
    if response.id != expected_id {
        let mut m = String::new();
        push_lit(&mut m, vec!['r', 'e', 's', 'p', 'o', 'n', 's', 'e', ' ', 'I', 'D', ' ']);
        push_decimal(&mut m, response.id as u64);
        push_lit(
            &mut m,
            vec![
                ' ',
                'd',
                'o',
                'e',
                's',
                ' ',
                'n',
                'o',
                't',
                ' ',
                'm',
                'a',
                't',
                'c',
                'h',
                ' ',
                'q',
                'u',
                'e',
                'r',
                'y',
                ' ',
                'I',
                'D',
                ' ',
            ],
        );
        push_decimal(&mut m, expected_id as u64);
        assert(m@ =~= id_mismatch_text(response.id, expected_id));
        return Err(DnsError::Protocol(m));
    }
    Ok(())
}

impl QueryResult {
    /// The result itself when its message answers the query with the given
    /// ID, else the mismatch error.
    pub fn verify_id(self, expected_id: u16) -> (r: Result<QueryResult, DnsError>)
        ensures
            r is Ok <==> self.message.header.id == expected_id,
            r matches Ok(q) ==> q.message@ == self.message@ && q.elapsed_ms == self.elapsed_ms
                && q.bytes == self.bytes && q.protocol == self.protocol,
            r is Err ==> r->Err_0 is Protocol,
    {
        match verify_id(&self.message.header, expected_id) {
            Ok(()) => Ok(self),
            Err(e) => Err(e),
        }
    }

    /// Whether a UDP answer was truncated and must be asked again over TCP.
    pub fn needs_tcp_retry(&self) -> (r: bool)
        ensures
            r == self.message.header.tc,
    {
        self.message.header.tc
    }
}

/// A message framed for a TCP stream: its length as 16 bits, then the
/// message (RFC 1035 §4.2.2, RFC 7858).
pub open spec fn framed(query: Seq<u8>) -> Seq<u8> {
    u16_bytes(query.len() as u16) + query
}

/// Frames a message for a TCP-based transport.
pub fn frame_message(query: &[u8]) -> (r: Vec<u8>)
    ensures
        r@ == framed(query@),
{
    let mut out: Vec<u8> = Vec::new();
    push_u16(&mut out, query.len() as u16);
    extend_bytes(&mut out, query);
    out
}

/// The body length announced by a frame's two-byte prefix.
pub fn frame_length(prefix: [u8; 2]) -> (r: usize)
    ensures
        r == be16(prefix@[0], prefix@[1]),
{
    (prefix[0] as usize) * 256 + (prefix[1] as usize)
}


/// Reading a frame gives back the framed message: its prefix announces
/// exactly the bytes that follow, for every message of at most 65535 bytes.
pub proof fn lemma_framing_roundtrip(query: Seq<u8>)
    requires
        query.len() <= 65535,
    ensures
        ({
            let w = framed(query);
            &&& w.len() >= 2
            &&& w.len() - 2 == be16(w[0], w[1])
            &&& w.subrange(2, 2 + be16(w[0], w[1])) == query
        }),
{
    let w = framed(query);
    crate::protocol::header::lemma_u16_bytes_roundtrip(query.len() as u16);
    assert(w.subrange(2, w.len() as int) =~= query);
}

} // verus!
