use digg::protocol::addr::{IpAddress, Ipv4Addr, Ipv6Addr};
use digg::protocol::edns::{
    client_subnet_option, decode_opt_record, encode_opt_record, EdnsOption, EdnsOptions,
    OPTION_CLIENT_SUBNET, OPTION_NSID,
};

#[test]
fn client_subnet_option_encodes_rfc7871_wire_format() {
    let opt = client_subnet_option(IpAddress::V4(Ipv4Addr::new(96, 112, 0, 0)), 16);
    assert_eq!(opt.code, OPTION_CLIENT_SUBNET);
    // family=1, source=16, scope=0, 2 address bytes
    assert_eq!(opt.data, vec![0x00, 0x01, 16, 0, 96, 112]);
}

#[test]
fn client_subnet_zeroes_bits_beyond_the_prefix() {
    // /20 keeps 3 bytes; the third byte keeps only its top 4 bits.
    let opt = client_subnet_option(IpAddress::V4(Ipv4Addr::new(1, 2, 255, 255)), 20);
    assert_eq!(&opt.data[4..], &[1, 2, 0xF0]);
}

#[test]
fn client_subnet_zero_prefix_sends_no_address_bytes() {
    // RFC 7871 §7.1.2 privacy opt-out: family present, no address.
    let opt = client_subnet_option(IpAddress::V4(Ipv4Addr::new(0, 0, 0, 0)), 0);
    assert_eq!(opt.data, vec![0x00, 0x01, 0, 0]);
}

#[test]
fn client_subnet_ipv6_uses_family_two() {
    let opt = client_subnet_option(IpAddress::V6(Ipv6Addr::from_octets([0x20, 0x01, 0x0d, 0xb8, 0, 0, 0, 0, 0, 0, 0, 0, 0, 0, 0, 0])), 48);
    assert_eq!(&opt.data[..4], &[0x00, 0x02, 48, 0]);
    assert_eq!(&opt.data[4..], &[0x20, 0x01, 0x0d, 0xb8, 0, 0]);
}

#[test]
fn opt_record_rdlength_covers_options() {
    let opts = EdnsOptions {
        options: vec![client_subnet_option(IpAddress::V4(Ipv4Addr::new(192, 0, 2, 0)), 24)],
        ..EdnsOptions::default()
    };
    let encoded = encode_opt_record(&opts);
    // name(1) + type(2) + class(2) + ttl(4) = 9 bytes, then rdlength.
    let rdlength = u16::from_be_bytes([encoded[9], encoded[10]]) as usize;
    assert_eq!(rdlength, 4 + 7); // option header + family/source/scope/3 addr bytes
    assert_eq!(encoded.len(), 11 + rdlength);
}

#[test]
fn response_ecs_option_round_trips_through_decode() {
    // family=1, source=24, scope=18, addr 96.112.0
    let rdata = [0x00, 0x08, 0x00, 0x07, 0x00, 0x01, 24, 18, 96, 112, 0];
    let info = decode_opt_record(1232, 0, &rdata);
    let subnet = info.subnet.expect("subnet parsed");
    assert_eq!(subnet.family, 1);
    assert_eq!(subnet.source_prefix, 24);
    assert_eq!(subnet.scope_prefix, 18);
    assert_eq!(subnet.address, "96.112.0.0");
    assert_eq!(subnet.to_string(), "96.112.0.0/24/18");
}

#[test]
fn truncated_option_list_stops_without_panicking() {
    // Option claims 10 bytes of payload but only 2 follow.
    let rdata = [0x00, 0x08, 0x00, 0x0A, 0x00, 0x01];
    let info = decode_opt_record(1232, 0, &rdata);
    assert!(info.subnet.is_none());
}

#[test]
fn unknown_options_are_skipped() {
    // NSID (code 3) followed by ECS — ECS still found.
    let rdata = [
        0x00, 0x03, 0x00, 0x02, 0xAB, 0xCD, // NSID
        0x00, 0x08, 0x00, 0x04, 0x00, 0x01, 0, 0, // ECS /0
    ];
    let info = decode_opt_record(512, 0, &rdata);
    assert!(info.subnet.is_some());
}

#[test]
fn nsid_option_parses_printable_and_binary_payloads() {
    // Printable payload: hex plus quoted text.
    let rdata = [0x00, 0x03, 0x00, 0x04, b'l', b'a', b'x', b'3'];
    let info = decode_opt_record(1232, 0, &rdata);
    let nsid = info.nsid.expect("nsid parsed");
    assert_eq!(nsid.hex, "6c617833");
    assert_eq!(nsid.text.as_deref(), Some("lax3"));
    assert_eq!(nsid.to_string(), "6c617833 (\"lax3\")");

    // Binary payload: hex only.
    let rdata = [0x00, 0x03, 0x00, 0x02, 0x00, 0xFF];
    let info = decode_opt_record(1232, 0, &rdata);
    let nsid = info.nsid.expect("nsid parsed");
    assert_eq!(nsid.hex, "00ff");
    assert_eq!(nsid.text, None);
    assert_eq!(nsid.to_string(), "00ff");
}

#[test]
fn nsid_request_option_encodes_with_empty_payload() {
    let opts = EdnsOptions {
        options: vec![EdnsOption {
            code: OPTION_NSID,
            data: vec![],
        }],
        ..EdnsOptions::default()
    };
    let encoded = encode_opt_record(&opts);
    let rdlength = u16::from_be_bytes([encoded[9], encoded[10]]);
    assert_eq!(rdlength, 4); // option code + zero length, no payload
    assert_eq!(&encoded[11..], &[0x00, 0x03, 0x00, 0x00]);
}
