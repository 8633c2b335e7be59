use digg::dot::{read_framed_response, resolve_dot_hostname, write_framed_query};

#[test]
fn dot_hostname_maps_known_resolver_ips_to_sni() {
    assert_eq!(resolve_dot_hostname("1.1.1.1"), "cloudflare-dns.com");
    assert_eq!(resolve_dot_hostname("8.8.4.4"), "dns.google");
    assert_eq!(resolve_dot_hostname("9.9.9.9"), "dns.quad9.net");
    // Unknown servers pass through unchanged (used verbatim as the SNI).
    assert_eq!(resolve_dot_hostname("dns.example.net"), "dns.example.net");
}

#[test]
fn framing_round_trips_through_an_in_memory_stream() {
    let query = b"\x12\x34hello-dns-payload";
    let mut wire = Vec::new();
    write_framed_query(&mut wire, query).unwrap();
    // 2-byte big-endian length prefix, then the payload.
    assert_eq!(&wire[..2], &(query.len() as u16).to_be_bytes());
    assert_eq!(&wire[2..], query);

    // The reader frames the *response*; feed our framed bytes back as if
    // they were a response and confirm we recover the payload exactly.
    let got = read_framed_response(&wire).unwrap();
    assert_eq!(got, query);
}

#[test]
fn read_framed_response_errors_on_truncated_prefix() {
    let input = vec![0x00]; // only 1 of 2 length bytes
    assert!(read_framed_response(&input).is_err());
}

#[test]
fn read_framed_response_errors_when_body_shorter_than_prefix() {
    // Prefix claims 10 bytes, only 3 follow.
    let input = vec![0x00, 0x0A, 1, 2, 3];
    assert!(read_framed_response(&input).is_err());
}

#[test]
fn read_framed_response_handles_zero_length_body() {
    let input = vec![0x00, 0x00];
    assert_eq!(read_framed_response(&input).unwrap(), Vec::<u8>::new());
}
