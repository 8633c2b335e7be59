use digg::error::DnsError;
use digg::output::{
    color_enabled, format_ttl, write_batch_result, write_full, write_query, write_short, write_tsv,
    ColorMode, Painter, GREEN,
};
use digg::protocol::addr::Ipv4Addr;
use digg::protocol::edns::{ClientSubnet, EdnsInfo, EdnsOptions, Nsid};
use digg::protocol::header::Header;
use digg::protocol::message::DnsMessage;
use digg::protocol::record::{RData, ResourceRecord};
use digg::protocol::types::{RecordClass, RecordType};
use digg::transport::{QueryResult, TransportProtocol};

fn a_record(name: &str, ttl: u32, addr: [u8; 4]) -> ResourceRecord {
    ResourceRecord {
        name: name.to_string(),
        rtype: RecordType::A,
        rclass: RecordClass::IN,
        ttl,
        rdata: RData::A(Ipv4Addr { octets: addr }),
        raw_rdata: addr.to_vec(),
    }
}

fn fixture_result(answers: Vec<ResourceRecord>) -> QueryResult {
    let mut header = Header::new_query(0x1234, true);
    header.qr = true;
    header.ancount = answers.len() as u16;
    QueryResult {
        message: DnsMessage {
            header,
            questions: vec![],
            answers,
            authority: vec![],
            additional: vec![],
            edns: None,
        },
        elapsed_ms: 23,
        bytes: 56,
        protocol: TransportProtocol::Udp,
    }
}

fn render<F: FnOnce(&mut String)>(f: F) -> String {
    let mut buf = String::new();
    f(&mut buf);
    buf
}

#[test]
fn color_mode_precedence_is_explicit_then_no_color_then_terminal() {
    assert!(color_enabled(ColorMode::Always, false, true));
    assert!(!color_enabled(ColorMode::Never, true, false));
    assert!(!color_enabled(ColorMode::Auto, true, true));
    assert!(color_enabled(ColorMode::Auto, true, false));
    assert!(!color_enabled(ColorMode::Auto, false, false));
}

#[test]
fn painter_with_color_wraps_ansi_codes_and_without_passes_through() {
    let plain = Painter::with_color(false);
    assert_eq!(plain.paint(GREEN, "x"), "x");
    let colored = Painter::with_color(true);
    assert_eq!(colored.paint(GREEN, "x"), "\x1b[32mx\x1b[0m");
}

// === Golden tests (color off) ===

#[test]
fn write_short_emits_one_rdata_per_line() {
    let result = fixture_result(vec![
        a_record("example.com.", 3600, [93, 184, 216, 34]),
        a_record("example.com.", 3600, [93, 184, 216, 35]),
    ]);
    let text = render(|out| write_short(out, &result));
    assert_eq!(text, "93.184.216.34\n93.184.216.35\n");
}

#[test]
fn write_full_golden_single_answer() {
    let result = fixture_result(vec![a_record("example.com.", 3600, [93, 184, 216, 34])]);
    let painter = Painter::with_color(false);
    let text =
        render(|out| write_full(out, &painter, &result, "8.8.8.8", 53, true, true, true));
    let expected = "\n ANSWER\n \
         TYPE   NAME           TTL   VALUE\n \
         A      example.com.   1h    93.184.216.34\n\
         \n \u{2500}\u{2500} 8.8.8.8:53 (UDP) \u{2500}\u{2500} NOERROR \u{2500}\u{2500} 23ms \u{2500}\u{2500} 56B \u{2500}\u{2500}\n";
    assert_eq!(text, expected);
}

#[test]
fn write_full_contains_no_ansi_escapes_when_color_off() {
    let result = fixture_result(vec![a_record("example.com.", 60, [1, 2, 3, 4])]);
    let painter = Painter::with_color(false);
    let text =
        render(|out| write_full(out, &painter, &result, "1.1.1.1", 53, true, true, true));
    assert!(!text.contains('\x1b'));
}

#[test]
fn write_full_hides_sections_when_toggled_off() {
    let mut result = fixture_result(vec![a_record("example.com.", 60, [1, 2, 3, 4])]);
    result
        .message
        .authority
        .push(a_record("ns.example.com.", 60, [5, 6, 7, 8]));
    result
        .message
        .additional
        .push(a_record("glue.example.com.", 60, [9, 9, 9, 9]));

    let painter = Painter::with_color(false);
    let shown = render(|out| write_full(out, &painter, &result, "s", 53, true, true, true));
    assert!(shown.contains("AUTHORITY") && shown.contains("ADDITIONAL"));

    let hidden = render(|out| write_full(out, &painter, &result, "s", 53, false, false, true));
    assert!(!hidden.contains("AUTHORITY") && !hidden.contains("ADDITIONAL"));
}

#[test]
fn write_full_renders_edns_and_dnssec_flag_lines() {
    let mut result = fixture_result(vec![a_record("example.com.", 60, [1, 2, 3, 4])]);
    result.message.edns = Some(EdnsInfo {
        udp_payload_size: 1232,
        extended_rcode: 0,
        version: 0,
        dnssec_ok: true,
        subnet: None,
        nsid: None,
    });
    result.message.header.ad = true;
    let painter = Painter::with_color(false);
    let text = render(|out| write_full(out, &painter, &result, "s", 53, true, true, true));
    assert!(text.contains(" EDNS version 0; flags: do; udp: 1232"));
    assert!(text.contains(" flags: ad"));
}

#[test]
fn write_full_appends_returned_client_subnet_scope() {
    let mut result = fixture_result(vec![a_record("cdn.example.com.", 60, [1, 2, 3, 4])]);
    result.message.edns = Some(EdnsInfo {
        udp_payload_size: 1232,
        extended_rcode: 0,
        version: 0,
        dnssec_ok: false,
        subnet: Some(ClientSubnet {
            family: 1,
            source_prefix: 24,
            scope_prefix: 18,
            address: "96.112.0.0".to_string(),
        }),
        nsid: None,
    });
    let painter = Painter::with_color(false);
    let text = render(|out| write_full(out, &painter, &result, "s", 53, true, true, true));
    assert!(text.contains("udp: 1232; subnet: 96.112.0.0/24/18"));
}

#[test]
fn write_full_appends_returned_nsid() {
    let mut result = fixture_result(vec![a_record("example.com.", 60, [1, 2, 3, 4])]);
    result.message.edns = Some(EdnsInfo {
        udp_payload_size: 1232,
        extended_rcode: 0,
        version: 0,
        dnssec_ok: false,
        subnet: None,
        nsid: Some(Nsid {
            hex: "6c617833".to_string(),
            text: Some("lax3".to_string()),
        }),
    });
    let painter = Painter::with_color(false);
    let text = render(|out| write_full(out, &painter, &result, "s", 53, true, true, true));
    assert!(text.contains("udp: 1232; nsid: 6c617833 (\"lax3\")"));
}

#[test]
fn write_batch_result_golden_success_and_error() {
    let result = fixture_result(vec![a_record("example.com.", 60, [93, 184, 216, 34])]);
    let painter = Painter::with_color(false);
    let ok = render(|out| {
        write_batch_result(out, &painter, "example.com", &RecordType::A, &Ok(result))
    });
    assert_eq!(ok, " A example.com NOERROR 23ms 93.184.216.34\n");

    let err: Result<QueryResult, DnsError> =
        Err(DnsError::Network("timed out".into()));
    let failed =
        render(|out| write_batch_result(out, &painter, "example.com", &RecordType::A, &err));
    assert_eq!(failed, " A example.com error: timed out\n");
}

#[test]
fn write_full_without_stats_omits_the_status_footer() {
    let result = fixture_result(vec![a_record("example.com.", 3600, [93, 184, 216, 34])]);
    let painter = Painter::with_color(false);
    let text =
        render(|out| write_full(out, &painter, &result, "8.8.8.8", 53, true, true, false));
    assert!(text.contains("93.184.216.34"));
    assert!(!text.contains("NOERROR"));
    assert!(!text.contains("\u{2500}"));
    assert!(!text.contains("ms"));
}

#[test]
fn write_query_renders_parsed_outgoing_message() {
    // Build real query bytes, parse them back, render — same path +qr uses.
    let (bytes, _id) = DnsMessage::build_query(
        "example.com",
        RecordType::A,
        true,
        Some(&EdnsOptions {
            dnssec_ok: true,
            ..Default::default()
        }),
    )
    .unwrap();
    let message = DnsMessage::parse(&bytes).unwrap();
    let painter = Painter::with_color(false);
    let text = render(|out| write_query(out, &painter, &message, "8.8.8.8", 53));
    assert!(text.contains("QUERY \u{2192} 8.8.8.8:53"));
    assert!(text.contains("flags: rd; QUESTION: 1, ADDITIONAL: 1"));
    assert!(text.contains("example.com.  IN  A"));
    assert!(text.contains("EDNS version 0; flags: do; udp: 4096"));
}

// === TSV golden tests ===

#[test]
fn write_tsv_golden_one_record_per_line() {
    let result = fixture_result(vec![
        a_record("example.com.", 3600, [93, 184, 216, 34]),
        a_record("example.com.", 3600, [93, 184, 216, 35]),
    ]);
    let text = render(|out| write_tsv(out, &result));
    assert_eq!(
        text,
        "example.com.\t3600\tIN\tA\t93.184.216.34\n\
         example.com.\t3600\tIN\tA\t93.184.216.35\n"
    );
}

#[test]
fn write_tsv_contains_no_ansi_and_no_headers() {
    let result = fixture_result(vec![a_record("example.com.", 60, [1, 2, 3, 4])]);
    let text = render(|out| write_tsv(out, &result));
    assert!(!text.contains('\x1b'));
    assert!(!text.contains("TYPE"));
    assert!(!text.contains("NOERROR"));
}

#[test]
fn write_tsv_escapes_tabs_newlines_and_backslashes_in_rdata() {
    let mut result = fixture_result(vec![]);
    result.message.answers.push(ResourceRecord {
        name: "example.com.".to_string(),
        rtype: RecordType::TXT,
        rclass: RecordClass::IN,
        ttl: 60,
        rdata: RData::TXT(vec!["a\tb\nc\\d".to_string()]),
        raw_rdata: vec![],
    });
    let text = render(|out| write_tsv(out, &result));
    let rdata_field = text.trim_end().split('\t').nth(4).unwrap().to_string();
    assert_eq!(rdata_field, "\"a\\tb\\nc\\\\d\"");
    // Exactly 5 fields — embedded separators never add columns.
    assert_eq!(text.trim_end().split('\t').count(), 5);
}

#[test]
fn write_tsv_of_empty_answer_set_is_empty() {
    let result = fixture_result(vec![]);
    assert_eq!(render(|out| write_tsv(out, &result)), "");
}

// === format_ttl ===

#[test]
fn format_ttl_humanizes_and_keeps_two_largest_units() {
    assert_eq!(format_ttl(0), "0s");
    assert_eq!(format_ttl(59), "59s");
    assert_eq!(format_ttl(60), "1m");
    assert_eq!(format_ttl(3600), "1h");
    assert_eq!(format_ttl(3661), "1h 1m"); // seconds dropped by truncate(2)
    assert_eq!(format_ttl(86400), "1d");
    assert_eq!(format_ttl(90061), "1d 1h");
}
