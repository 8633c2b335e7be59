use digg::batch::{lines_of, parse_batch_line};
use digg::cli::{config_lines, parse_args, resolve_queries_from_positionals};
use digg::dot::{read_framed_response, write_framed_query};
use digg::error::DnsError;
use digg::protocol::addr::{IpAddress, Ipv4Addr};
use digg::protocol::edns::{client_subnet_option, decode_opt_record, encode_opt_record, EdnsOption, EdnsOptions};
use digg::protocol::header::Header;
use digg::protocol::message::DnsMessage;
use digg::protocol::question::Question;
use digg::protocol::name::{decode_name, encode_name};
use digg::protocol::record::{RData, ResourceRecord};
use digg::trace::{TraceAction, TraceWalk, TRACE_MAX_HOPS};
use digg::protocol::types::{Rcode, RecordClass, RecordType};
use digg::resolver::nameserver_in;

fn args(list: &[&str]) -> Vec<String> {
    list.iter().map(|s| s.to_string()).collect()
}

#[test]
fn help_stops_reading_before_later_errors() {
    let opts = parse_args(&args(&["+color", "--help", "-z"])).unwrap();
    assert!(opts.show_help);
    assert!(!opts.show_version);
    assert!(matches!(opts.color, digg::output::ColorMode::Always));
    let opts = parse_args(&args(&["-V", "+bogus"])).unwrap();
    assert!(opts.show_version);
}

#[test]
fn errors_before_help_are_still_reported() {
    assert!(matches!(
        parse_args(&args(&["-z", "--help"])),
        Err(DnsError::Usage(m)) if m == "unknown option: -z"
    ));
}

#[test]
fn usage_error_messages_are_exact() {
    let err = |list: &[&str]| match parse_args(&args(list)) {
        Err(DnsError::Usage(m)) => m,
        other => panic!("expected a usage error, got {:?}", other.map(|_| ())),
    };
    assert_eq!(err(&["-p", "70000"]), "invalid port: 70000");
    assert_eq!(err(&["-c", "XX"]), "invalid class: XX (expected IN, CH, HS, ANY, or CLASS<N>)");
    assert_eq!(err(&["TYPE70000"]), "invalid record type: TYPE70000 (TYPE value must be 0-65535)");
    assert_eq!(err(&["-x", "nope"]), "invalid address for reverse lookup: nope");
    assert_eq!(err(&["e.com", "+subnet=1.2.3.4/40"]), "invalid subnet prefix: 1.2.3.4/40 (max /32 for this family)");
    assert_eq!(err(&["e.com", "+subnet=bad"]), "invalid subnet address: bad");
}

#[test]
fn reverse_lookup_skips_the_edns_check() {
    let opts = parse_args(&args(&["-x", "192.0.2.1", "+subnet=1.2.3.4", "+noedns"])).unwrap();
    assert_eq!(opts.qtype, RecordType::PTR);
    assert!(!opts.edns);
    assert!(opts.subnet.is_some());
}

#[test]
fn config_lines_trim_and_skip_comments_and_blanks() {
    let lines = config_lines("+color\n  # comment\n\n  +tcp  \r\n@1.1.1.1");
    assert_eq!(lines, vec!["+color", "+tcp", "@1.1.1.1"]);
    assert!(config_lines("").is_empty());
}

#[test]
fn config_options_apply_before_and_yield_to_command_line_options() {
    let mut all = config_lines("+color\n");
    all.extend(args(&["+nocolor", "e.com"]));
    let opts = parse_args(&all).unwrap();
    assert!(matches!(opts.color, digg::output::ColorMode::Never));
}

#[test]
fn first_nameserver_line_wins() {
    let text = "# resolv.conf\nsearch example.com\n  nameserver 10.0.0.1\nnameserver 10.0.0.2\n";
    assert_eq!(nameserver_in(text).unwrap(), "10.0.0.1");
    assert!(matches!(
        nameserver_in("search example.com\nnameserver\n"),
        Err(DnsError::Network(m)) if m == "no nameserver found in /etc/resolv.conf"
    ));
}

#[test]
fn lines_keep_a_final_empty_piece() {
    assert_eq!(lines_of("a\nb\n"), vec!["a", "b", ""]);
    assert_eq!(lines_of(""), vec![""]);
}

#[test]
fn batch_tokens_of_different_kinds_commute_and_same_kind_last_wins() {
    let a = parse_batch_line("example.com @9.9.9.9");
    let b = parse_batch_line("@9.9.9.9 example.com");
    assert_eq!(a.name, b.name);
    assert_eq!(a.server, b.server);
    let c = parse_batch_line("AAAA example.com MX");
    assert_eq!(c.qtype, RecordType::MX);
}

#[test]
fn framing_round_trip_of_an_empty_and_a_long_message() {
    for len in [0usize, 1, 300, 65535] {
        let query: Vec<u8> = (0..len).map(|i| (i % 251) as u8).collect();
        let mut wire = Vec::new();
        write_framed_query(&mut wire, &query).unwrap();
        assert_eq!(wire.len(), len + 2);
        assert_eq!(read_framed_response(&wire).unwrap(), query);
    }
}

#[test]
fn names_round_trip_through_the_wire_form() {
    for (name, expected) in [("example.com", "example.com."), ("a.b.c.", "a.b.c."), (".", "."), ("", ".")] {
        let wire = encode_name(name).unwrap();
        let (back, used) = decode_name(&wire, 0).unwrap();
        assert_eq!(back, expected);
        assert_eq!(used, wire.len());
    }
}

#[test]
fn header_rcode_and_type_numbers_round_trip() {
    let mut h = Header::new_query(7, false);
    h.rcode = Rcode::NxDomain;
    let back = Header::decode(&h.encode()).unwrap();
    assert_eq!(back.rcode, Rcode::NxDomain);
    assert_eq!(back.id, 7);
    assert!(!back.rd);
    assert_eq!(RecordClass::from_u16(RecordClass::Unknown(9).to_u16()), RecordClass::Unknown(9));
    assert_eq!(RecordType::from_u16(257), RecordType::CAA);
}

#[test]
fn invalid_utf8_text_is_replaced_not_rejected() {
    // TXT record with one character-string holding the byte 0xFF.
    let wire = vec![0x00, 0x00, 0x10, 0x00, 0x01, 0, 0, 0, 0, 0x00, 0x02, 0x01, 0xFF];
    let (rr, _) = ResourceRecord::decode(&wire, 0).unwrap();
    match rr.rdata {
        RData::TXT(parts) => assert_eq!(parts, vec!["\u{FFFD}".to_string()]),
        other => panic!("expected TXT, got {:?}", other),
    }
}

#[test]
fn trailing_dots_and_following_bytes_do_not_change_a_decoded_name() {
    let mut wire = encode_name("mail.example.org...").unwrap();
    let len = wire.len();
    wire.extend_from_slice(&[0x00, 0x01, 0xAB]);
    let (back, used) = decode_name(&wire, 0).unwrap();
    assert_eq!(back, "mail.example.org.");
    assert_eq!(used, len);
    let wire = encode_name("bücher.de").unwrap();
    assert_eq!(decode_name(&wire, 0).unwrap().0, "bücher.de.");
}

#[test]
fn questions_round_trip_with_their_type_and_class() {
    let q = Question::new_with_class("version.bind", RecordType::TXT, RecordClass::CH);
    let wire = q.encode().unwrap();
    let (back, used) = Question::decode(&wire, 0).unwrap();
    assert_eq!(used, wire.len());
    assert_eq!(back.name, "version.bind.");
    assert_eq!(back.qtype, RecordType::TXT);
    assert_eq!(back.qclass, RecordClass::CH);
}

#[test]
fn opt_record_fields_read_back_as_written() {
    let opts = EdnsOptions {
        udp_payload_size: 1400,
        version: 0,
        dnssec_ok: false,
        options: vec![client_subnet_option(IpAddress::V4(Ipv4Addr::new(192, 0, 2, 77)), 20)],
    };
    let wire = encode_opt_record(&opts);
    let class = u16::from_be_bytes([wire[3], wire[4]]);
    let ttl = u32::from_be_bytes([wire[5], wire[6], wire[7], wire[8]]);
    let rdlength = u16::from_be_bytes([wire[9], wire[10]]) as usize;
    assert_eq!(wire.len(), 11 + rdlength);
    let info = decode_opt_record(class, ttl, &wire[11..]);
    assert_eq!(info.udp_payload_size, 1400);
    assert_eq!(info.extended_rcode, 0);
    assert_eq!(info.version, 0);
    assert!(!info.dnssec_ok);
    let subnet = info.subnet.expect("client subnet read back");
    assert_eq!(subnet.family, 1);
    assert_eq!(subnet.source_prefix, 20);
    assert_eq!(subnet.scope_prefix, 0);
    assert_eq!(subnet.address, "192.0.0.0");
}

#[test]
fn a_built_query_parses_back_to_what_was_asked() {
    let opts = EdnsOptions { udp_payload_size: 1232, version: 0, dnssec_ok: true, options: vec![] };
    let bytes = DnsMessage::build_query_with_id(
        0x1234,
        "example.net",
        RecordType::MX,
        RecordClass::IN,
        true,
        true,
        Some(&opts),
    )
    .unwrap();
    let m = DnsMessage::parse(&bytes).unwrap();
    assert_eq!(m.header.id, 0x1234);
    assert!(m.header.rd && m.header.cd && !m.header.qr);
    assert_eq!(m.header.qdcount, 1);
    assert_eq!(m.header.arcount, 1);
    assert_eq!(m.questions.len(), 1);
    assert_eq!(m.questions[0].name, "example.net.");
    assert_eq!(m.questions[0].qtype, RecordType::MX);
    assert!(m.answers.is_empty() && m.authority.is_empty() && m.additional.is_empty());
    let e = m.edns.expect("EDNS read back");
    assert_eq!(e.udp_payload_size, 1232);
    assert_eq!(e.extended_rcode, 0);
    assert!(e.dnssec_ok);
    let plain = DnsMessage::build_query_with_id(9, "a.b", RecordType::A, RecordClass::IN, false, false, None).unwrap();
    let m = DnsMessage::parse(&plain).unwrap();
    assert!(m.edns.is_none());
    assert_eq!(m.header.arcount, 0);
}

#[test]
fn untyped_addresses_become_reverse_lookups_in_order() {
    let ps: Vec<String> = ["8.8.4.4", "example.com", "2001:db8::1"].iter().map(|s| s.to_string()).collect();
    let q = resolve_queries_from_positionals(&ps).unwrap();
    assert_eq!(q.len(), 3);
    assert_eq!(q[0], (RecordType::PTR, "4.4.8.8.in-addr.arpa".to_string()));
    assert_eq!(q[1], (RecordType::A, "example.com".to_string()));
    assert_eq!(q[2].0, RecordType::PTR);
    assert!(q[2].1.ends_with("8.b.d.0.1.0.0.2.ip6.arpa"));
    assert!(q[2].1.starts_with("1.0.0.0."));
}

#[test]
fn the_last_option_of_each_kind_is_read_back() {
    let opts = EdnsOptions {
        udp_payload_size: 4096,
        version: 0,
        dnssec_ok: false,
        options: vec![
            client_subnet_option(IpAddress::V4(Ipv4Addr::new(192, 0, 2, 1)), 24),
            EdnsOption { code: 3, data: vec![] },
            EdnsOption { code: 10, data: vec![1, 2, 3] },
            client_subnet_option(IpAddress::V4(Ipv4Addr::new(198, 51, 103, 9)), 22),
        ],
    };
    let wire = encode_opt_record(&opts);
    let info = decode_opt_record(4096, 0, &wire[11..]);
    let subnet = info.subnet.expect("client subnet read back");
    assert_eq!(subnet.source_prefix, 22);
    assert_eq!(subnet.address, "198.51.100.0");
    assert!(info.nsid.is_some());
}

fn message_with(answers: Vec<ResourceRecord>, authority: Vec<ResourceRecord>, additional: Vec<ResourceRecord>) -> DnsMessage {
    DnsMessage {
        header: Header::new_query(1, false),
        questions: vec![],
        answers,
        authority,
        additional,
        edns: None,
    }
}

fn record(name: &str, rtype: RecordType, rdata: RData) -> ResourceRecord {
    ResourceRecord { name: name.to_string(), rtype, rclass: RecordClass::IN, ttl: 60, rdata, raw_rdata: vec![] }
}

#[test]
fn a_trace_walks_servers_in_order_and_fails_when_none_answers() {
    let mut walk = TraceWalk::start();
    match walk.action().unwrap() {
        TraceAction::Ask(s) => assert_eq!(s, "198.41.0.4"),
        other => panic!("expected a query, got {:?}", other),
    }
    walk.server_failed();
    match walk.action().unwrap() {
        TraceAction::Ask(s) => assert_eq!(s, "170.247.170.2"),
        other => panic!("expected a query, got {:?}", other),
    }
    for _ in 0..12 {
        walk.server_failed();
    }
    match walk.action() {
        Err(DnsError::Network(m)) => assert_eq!(m, "trace: no server responded"),
        other => panic!("expected a network error, got {:?}", other),
    }
}

#[test]
fn a_trace_follows_glue_resolves_without_it_and_stops_on_an_answer() {
    let mut walk = TraceWalk::start();
    let referral = message_with(
        vec![],
        vec![record("com.", RecordType::NS, RData::NS("a.gtld.net.".into()))],
        vec![record("a.gtld.net.", RecordType::A, RData::A(Ipv4Addr::new(192, 5, 6, 30)))],
    );
    walk.server_answered(&referral);
    match walk.action().unwrap() {
        TraceAction::Ask(s) => assert_eq!(s, "192.5.6.30"),
        other => panic!("expected a query, got {:?}", other),
    }
    let no_glue = message_with(vec![], vec![record("example.com.", RecordType::NS, RData::NS("ns1.example.net.".into()))], vec![]);
    walk.server_answered(&no_glue);
    match walk.action().unwrap() {
        TraceAction::Resolve(n) => assert_eq!(n, "ns1.example.net"),
        other => panic!("expected a resolution, got {:?}", other),
    }
    walk.resolved(Some(vec!["198.51.100.7".to_string()]));
    match walk.action().unwrap() {
        TraceAction::Ask(s) => assert_eq!(s, "198.51.100.7"),
        other => panic!("expected a query, got {:?}", other),
    }
    let answer = message_with(vec![record("example.com.", RecordType::A, RData::A(Ipv4Addr::new(192, 0, 2, 1)))], vec![], vec![]);
    walk.server_answered(&answer);
    assert!(matches!(walk.action().unwrap(), TraceAction::Done));
    assert_eq!(walk.hops, 3);
}

#[test]
fn a_trace_stops_after_its_last_hop_or_a_failed_lookup() {
    let mut walk = TraceWalk::start();
    walk.hops = TRACE_MAX_HOPS;
    assert!(matches!(walk.action().unwrap(), TraceAction::Done));
    let mut walk = TraceWalk::start();
    walk.pending = Some("ns.example.".to_string());
    walk.resolved(None);
    assert!(matches!(walk.action().unwrap(), TraceAction::Done));
}

#[test]
fn type_and_class_names_parse_in_any_case() {
    for t in RecordType::all() {
        if t == RecordType::OPT {
            continue;
        }
        let text = t.to_string();
        assert_eq!(RecordType::parse_name(&text.to_lowercase()), Some(t));
        assert_eq!(RecordType::parse_name(&format!("type{}", t.to_u16())), Some(t));
    }
    assert_eq!(RecordType::parse_name("Opt"), None);
    assert_eq!(RecordClass::parse_name("ch"), Some(RecordClass::CH));
    assert_eq!(RecordClass::parse_name("class3"), Some(RecordClass::CH));
}

#[test]
fn an_empty_first_transfer_message_is_an_exact_error() {
    let mut transfer = digg::axfr::AxfrTransfer::new();
    let empty = message_with(vec![], vec![], vec![]);
    match transfer.absorb(empty) {
        Err(DnsError::Protocol(m)) => assert_eq!(m, "AXFR: empty response"),
        other => panic!("expected the empty-response error, got {:?}", other),
    }
}

#[test]
fn malformed_names_are_rejected_and_decoded_names_end_with_a_dot() {
    for (buf, offset) in [(&[][..], 0usize), (&[0xC0][..], 0), (&[0xC0, 0x00][..], 0), (&[3, b'a'][..], 0), (&[1, 0xFF, 0][..], 0), (&[0][..], 5)] {
        assert!(matches!(decode_name(buf, offset), Err(DnsError::Protocol(_))));
    }
    let (name, used) = decode_name(&[0], 0).unwrap();
    assert_eq!(name, ".");
    assert_eq!(used, 1);
}
