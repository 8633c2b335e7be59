use digg::cli::{parse_args, reverse_name, Options};
use digg::error::DnsError;
use digg::output::ColorMode;
use digg::protocol::addr::{IpAddress, Ipv4Addr, Ipv6Addr};
use digg::protocol::types::{RecordClass, RecordType};

fn args(list: &[&str]) -> Vec<String> {
    list.iter().map(|s| s.to_string()).collect()
}

fn parse(list: &[&str]) -> Options {
    parse_args(&args(list)).expect("expected successful parse")
}

fn parse_err(list: &[&str]) -> String {
    match parse_args(&args(list)) {
        Err(DnsError::Usage(msg)) => msg,
        Err(other) => panic!("expected usage error, got {:?}", other),
        Ok(_) => panic!("expected parse to fail"),
    }
}

// === Positional query resolution ===

#[test]
fn no_positionals_defaults_to_root_a_query() {
    let opts = parse(&[]);
    assert_eq!(opts.queries, vec![(RecordType::A, ".".to_string())]);
}

#[test]
fn bare_name_defaults_to_a_query() {
    let opts = parse(&["example.com"]);
    assert_eq!(
        opts.queries,
        vec![(RecordType::A, "example.com".to_string())]
    );
    assert_eq!(opts.name, "example.com");
    assert_eq!(opts.qtype, RecordType::A);
}

#[test]
fn name_then_type_pairs() {
    let opts = parse(&["example.com", "AAAA"]);
    assert_eq!(
        opts.queries,
        vec![(RecordType::AAAA, "example.com".to_string())]
    );
}

#[test]
fn type_then_name_pairs() {
    let opts = parse(&["AAAA", "example.com"]);
    assert_eq!(
        opts.queries,
        vec![(RecordType::AAAA, "example.com".to_string())]
    );
}

#[test]
fn record_type_is_case_insensitive() {
    let opts = parse(&["example.com", "mx"]);
    assert_eq!(
        opts.queries,
        vec![(RecordType::MX, "example.com".to_string())]
    );
}

#[test]
fn multi_query_type_name_pairs_resolve_in_order() {
    let opts = parse(&["A", "example.com", "AAAA", "example.org"]);
    assert_eq!(
        opts.queries,
        vec![
            (RecordType::A, "example.com".to_string()),
            (RecordType::AAAA, "example.org".to_string()),
        ]
    );
}

#[test]
fn two_types_in_a_row_apply_to_the_next_name() {
    // First type is deferred, second pairs with the name, deferred type
    // then reuses the first query's name.
    let opts = parse(&["A", "AAAA", "example.com"]);
    assert_eq!(
        opts.queries,
        vec![
            (RecordType::AAAA, "example.com".to_string()),
            (RecordType::A, "example.com".to_string()),
        ]
    );
}

#[test]
fn type_alone_queries_root() {
    let opts = parse(&["NS"]);
    assert_eq!(opts.queries, vec![(RecordType::NS, ".".to_string())]);
}

#[test]
fn bare_ipv4_becomes_ptr_query() {
    let opts = parse(&["192.0.2.1"]);
    assert_eq!(
        opts.queries,
        vec![(RecordType::PTR, "1.2.0.192.in-addr.arpa".to_string())]
    );
}

#[test]
fn bare_ipv6_becomes_ptr_query() {
    let opts = parse(&["2001:db8::567:89ab"]);
    assert_eq!(
        opts.queries,
        vec![(
            RecordType::PTR,
            "b.a.9.8.7.6.5.0.0.0.0.0.0.0.0.0.0.0.0.0.0.0.0.0.8.b.d.0.1.0.0.2.ip6.arpa"
                .to_string()
        )]
    );
}

#[test]
fn explicit_type_disables_ip_auto_reverse() {
    // "8.8.8.8 A" means query the literal name, not a PTR lookup.
    let opts = parse(&["8.8.8.8", "A"]);
    assert_eq!(opts.queries, vec![(RecordType::A, "8.8.8.8".to_string())]);
}

#[test]
fn multiple_bare_names_each_get_a_query() {
    let opts = parse(&["example.com", "example.org"]);
    assert_eq!(
        opts.queries,
        vec![
            (RecordType::A, "example.com".to_string()),
            (RecordType::A, "example.org".to_string()),
        ]
    );
}

#[test]
fn axfr_type_sets_axfr_mode() {
    let opts = parse(&["AXFR", "example.com"]);
    assert!(opts.axfr);
    assert_eq!(opts.qtype, RecordType::AXFR);
}

// === Server and flag arguments ===

#[test]
fn at_servers_accumulate_in_order() {
    let opts = parse(&["@8.8.8.8", "example.com", "@1.1.1.1"]);
    assert_eq!(opts.servers, vec!["8.8.8.8", "1.1.1.1"]);
    assert_eq!(opts.server(), Some("8.8.8.8"));
}

#[test]
fn port_flag_parses() {
    let opts = parse(&["-p", "5353", "example.com"]);
    assert_eq!(opts.port, 5353);
}

#[test]
fn port_flag_rejects_non_numeric_and_out_of_range() {
    assert!(parse_err(&["-p", "abc"]).contains("invalid port"));
    assert!(parse_err(&["-p", "99999"]).contains("invalid port"));
    assert!(parse_err(&["-p"]).contains("requires a port"));
}

#[test]
fn batch_flag_requires_filename() {
    let opts = parse(&["-f", "domains.txt"]);
    assert_eq!(opts.batch_file.as_deref(), Some("domains.txt"));
    assert!(parse_err(&["-f"]).contains("requires a filename"));
}

#[test]
fn reverse_flag_builds_ptr_query() {
    let opts = parse(&["-x", "192.0.2.1"]);
    assert_eq!(opts.qtype, RecordType::PTR);
    assert_eq!(opts.name, "1.2.0.192.in-addr.arpa");
    assert_eq!(
        opts.queries,
        vec![(RecordType::PTR, "1.2.0.192.in-addr.arpa".to_string())]
    );
    assert!(parse_err(&["-x"]).contains("requires an address"));
    assert!(parse_err(&["-x", "not-an-ip"]).contains("invalid address"));
}

#[test]
fn unknown_dash_option_is_a_usage_error() {
    assert!(parse_err(&["-z"]).contains("unknown option"));
}

#[test]
fn unknown_plus_option_is_a_usage_error() {
    assert!(parse_err(&["+bogus"]).contains("unknown option"));
}

// === Plus options ===

#[test]
fn paired_toggles_last_one_wins() {
    assert_eq!(parse(&["+tcp", "+notcp"]).tcp, Some(false));
    assert_eq!(parse(&["+notcp", "+tcp"]).tcp, Some(true));
    assert!(!parse(&["+recurse", "+norecurse"]).recurse);
    assert!(!parse(&["+authority", "+noauthority"]).show_authority);
    assert!(!parse(&["+additional", "+noadditional"]).show_additional);
    assert!(!parse(&["+edns", "+noedns"]).edns);
    assert!(matches!(
        parse(&["+color", "+nocolor"]).color,
        ColorMode::Never
    ));
}

#[test]
fn simple_flags_set_their_options() {
    assert!(parse(&["+short"]).short);
    assert!(parse(&["+trace"]).trace);
    assert!(parse(&["+dnssec"]).dnssec);
    assert!(parse(&["+json"]).json);
    assert!(parse(&["+yaml"]).yaml);
    assert!(parse(&["+dot"]).dot);
    assert!(parse(&["+propagation"]).propagation);
    assert!(parse(&["+prop"]).propagation);
}

#[test]
fn timeout_parses_and_rejects_zero_or_garbage() {
    assert_eq!(parse(&["+timeout=30"]).timeout, 30);
    assert!(parse_err(&["+timeout=0"]).contains("timeout must be > 0"));
    assert!(parse_err(&["+timeout=abc"]).contains("invalid timeout"));
    assert!(parse_err(&["+timeout="]).contains("invalid timeout"));
}

#[test]
fn bench_defaults_to_100_and_rejects_zero_or_garbage() {
    assert_eq!(parse(&["+bench"]).bench, Some(100));
    assert_eq!(parse(&["+bench=50"]).bench, Some(50));
    assert!(parse_err(&["+bench=0"]).contains("bench count must be > 0"));
    assert!(parse_err(&["+bench=abc"]).contains("invalid bench count"));
}

#[test]
fn watch_defaults_to_2s_and_rejects_zero_or_garbage() {
    assert_eq!(parse(&["+watch"]).watch, Some(2));
    assert_eq!(parse(&["+watch=10"]).watch, Some(10));
    assert!(parse_err(&["+watch=0"]).contains("watch interval must be > 0"));
    assert!(parse_err(&["+watch=abc"]).contains("invalid watch interval"));
}

#[test]
fn doh_variants_parse() {
    assert_eq!(parse(&["+doh"]).doh.as_deref(), Some(""));
    assert_eq!(parse(&["+doh=google"]).doh.as_deref(), Some("google"));
    assert_eq!(
        parse(&["+doh=https://example.net/dns-query"])
            .doh
            .as_deref(),
        Some("https://example.net/dns-query")
    );
}

// === reverse_name ===

#[test]
fn reverse_name_ipv4_reverses_octets() {
    assert_eq!(reverse_name("192.0.2.1").unwrap(), "1.2.0.192.in-addr.arpa");
    assert_eq!(reverse_name("8.8.8.8").unwrap(), "8.8.8.8.in-addr.arpa");
}

#[test]
fn reverse_name_ipv6_expands_nibbles_like_dig() {
    // Known-good value cross-checked against `dig -x 2001:db8::567:89ab`.
    assert_eq!(
        reverse_name("2001:db8::567:89ab").unwrap(),
        "b.a.9.8.7.6.5.0.0.0.0.0.0.0.0.0.0.0.0.0.0.0.0.0.8.b.d.0.1.0.0.2.ip6.arpa"
    );
    assert_eq!(
        reverse_name("::1").unwrap(),
        "1.0.0.0.0.0.0.0.0.0.0.0.0.0.0.0.0.0.0.0.0.0.0.0.0.0.0.0.0.0.0.0.ip6.arpa"
    );
}

#[test]
fn reverse_name_rejects_invalid_input() {
    assert!(reverse_name("example.com").is_err());
    assert!(reverse_name("").is_err());
    assert!(reverse_name("256.1.1.1").is_err());
}

// === RFC 3597 TYPE<N> syntax ===

#[test]
fn type_n_positional_queries_arbitrary_type() {
    let opts = parse(&["example.com", "TYPE64512"]);
    assert_eq!(
        opts.queries,
        vec![(RecordType::Unknown(64512), "example.com".to_string())]
    );
}

#[test]
fn type_n_works_in_multi_query_mode() {
    let opts = parse(&["TYPE64512", "example.com", "A", "example.org"]);
    assert_eq!(
        opts.queries,
        vec![
            (RecordType::Unknown(64512), "example.com".to_string()),
            (RecordType::A, "example.org".to_string()),
        ]
    );
}

#[test]
fn type_n_out_of_range_is_a_usage_error_not_a_hostname() {
    assert!(parse_err(&["example.com", "TYPE70000"]).contains("invalid record type"));
    assert!(parse_err(&["TYPE65536"]).contains("invalid record type"));
}

#[test]
fn hostnames_starting_with_type_are_still_names() {
    let opts = parse(&["typefoo.example.com"]);
    assert_eq!(
        opts.queries,
        vec![(RecordType::A, "typefoo.example.com".to_string())]
    );
    // Bare "TYPE" with no digits is a hostname, not type syntax.
    let opts = parse(&["type"]);
    assert_eq!(opts.queries, vec![(RecordType::A, "type".to_string())]);
}

// === Query class (-c) ===

#[test]
fn class_flag_parses_mnemonics_and_class_n() {
    assert_eq!(
        parse(&["-c", "CH", "version.bind", "TXT"]).qclass,
        RecordClass::CH
    );
    assert_eq!(parse(&["-c", "in", "example.com"]).qclass, RecordClass::IN);
    assert_eq!(
        parse(&["-c", "CLASS4", "example.com"]).qclass,
        RecordClass::HS
    );
    assert_eq!(parse(&["example.com"]).qclass, RecordClass::IN);
}

#[test]
fn class_flag_rejects_unknown_and_missing_values() {
    assert!(parse_err(&["-c", "XX"]).contains("invalid class"));
    assert!(parse_err(&["-c"]).contains("requires a class"));
}

// === EDNS Client Subnet (+subnet) ===

#[test]
fn subnet_parses_with_and_without_prefix() {
    let v4 = IpAddress::V4(Ipv4Addr { octets: [192, 0, 2, 1] });
    assert_eq!(
        parse(&["e.com", "+subnet=192.0.2.1"]).subnet,
        Some((v4, 24))
    );
    assert_eq!(
        parse(&["e.com", "+subnet=192.0.2.1/16"]).subnet,
        Some((v4, 16))
    );
    let v6 = IpAddress::V6(Ipv6Addr { octets: [0x20, 0x01, 0x0d, 0xb8, 0, 0, 0, 0, 0, 0, 0, 0, 0, 0, 0, 1] });
    assert_eq!(
        parse(&["e.com", "+subnet=2001:db8::1"]).subnet,
        Some((v6, 56))
    );
    assert_eq!(
        parse(&["e.com", "+subnet=2001:db8::1/48"]).subnet,
        Some((v6, 48))
    );
}

#[test]
fn subnet_zero_is_the_privacy_opt_out() {
    assert_eq!(
        parse(&["e.com", "+subnet=0"]).subnet,
        Some((IpAddress::V4(Ipv4Addr { octets: [0, 0, 0, 0] }), 0))
    );
    assert_eq!(
        parse(&["e.com", "+subnet=0.0.0.0/0"]).subnet,
        Some((IpAddress::V4(Ipv4Addr { octets: [0, 0, 0, 0] }), 0))
    );
}

#[test]
fn subnet_rejects_bad_addresses_and_prefixes() {
    assert!(parse_err(&["e.com", "+subnet=notanip"]).contains("invalid subnet address"));
    assert!(parse_err(&["e.com", "+subnet=1.2.3.4/33"]).contains("invalid subnet prefix"));
    assert!(parse_err(&["e.com", "+subnet=2001:db8::/129"]).contains("invalid subnet prefix"));
    assert!(parse_err(&["e.com", "+subnet="]).contains("invalid subnet address"));
}

#[test]
fn subnet_conflicts_with_noedns_in_either_order() {
    assert!(
        parse_err(&["e.com", "+subnet=1.2.3.4", "+noedns"]).contains("+subnet requires EDNS")
    );
    assert!(
        parse_err(&["e.com", "+noedns", "+subnet=1.2.3.4"]).contains("+subnet requires EDNS")
    );
}

// === NSID (+nsid) ===

#[test]
fn nsid_flag_parses_and_conflicts_with_noedns() {
    assert!(parse(&["e.com", "+nsid"]).nsid);
    assert!(!parse(&["e.com"]).nsid);
    assert!(parse_err(&["e.com", "+nsid", "+noedns"]).contains("+nsid requires EDNS"));
    assert!(parse_err(&["e.com", "+noedns", "+nsid"]).contains("+nsid requires EDNS"));
}

// === UDP retries (+retry) ===

#[test]
fn retry_defaults_to_two_and_parses_explicit_values() {
    assert_eq!(parse(&["e.com"]).retry, 2);
    assert_eq!(parse(&["e.com", "+retry=0"]).retry, 0);
    assert_eq!(parse(&["e.com", "+retry=5"]).retry, 5);
    assert!(parse_err(&["e.com", "+retry=abc"]).contains("invalid retry count"));
    assert!(parse_err(&["e.com", "+retry="]).contains("invalid retry count"));
}

// === +qr and +stats toggles ===

#[test]
fn qr_and_stats_toggles_parse_with_last_wins() {
    assert!(parse(&["e.com", "+qr"]).qr);
    assert!(!parse(&["e.com", "+qr", "+noqr"]).qr);
    assert!(!parse(&["e.com"]).qr);
    assert!(parse(&["e.com"]).stats);
    assert!(!parse(&["e.com", "+nostats"]).stats);
    assert!(parse(&["e.com", "+nostats", "+stats"]).stats);
}

// === +tsv ===

#[test]
fn tsv_flag_parses() {
    assert!(parse(&["e.com", "+tsv"]).tsv);
    assert!(!parse(&["e.com"]).tsv);
}

#[test]
fn compat_flag_parses() {
    assert!(parse(&["e.com", "+compat"]).compat);
    assert!(!parse(&["e.com"]).compat);
}
