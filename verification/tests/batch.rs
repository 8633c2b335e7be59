use digg::batch::{parse_batch_line, parse_batch_text};
use digg::protocol::types::RecordType;

#[test]
fn batch_line_full_query_parses_all_fields() {
    let q = parse_batch_line("@8.8.8.8 example.com MX");
    assert_eq!(q.name, "example.com");
    assert_eq!(q.qtype, RecordType::MX);
    assert_eq!(q.server.as_deref(), Some("8.8.8.8"));
}

#[test]
fn batch_line_tokens_are_order_independent() {
    let a = parse_batch_line("@8.8.8.8 MX example.com");
    let b = parse_batch_line("example.com MX @8.8.8.8");
    let c = parse_batch_line("MX @8.8.8.8 example.com");
    for q in [a, b, c] {
        assert_eq!(q.name, "example.com");
        assert_eq!(q.qtype, RecordType::MX);
        assert_eq!(q.server.as_deref(), Some("8.8.8.8"));
    }
}

#[test]
fn batch_line_missing_fields_use_defaults() {
    let q = parse_batch_line("example.com");
    assert_eq!(q.name, "example.com");
    assert_eq!(q.qtype, RecordType::A);
    assert_eq!(q.server, None);
}

#[test]
fn batch_line_repeated_tokens_last_one_wins() {
    let q = parse_batch_line("a.example b.example A TXT @1.1.1.1 @9.9.9.9");
    assert_eq!(q.name, "b.example");
    assert_eq!(q.qtype, RecordType::TXT);
    assert_eq!(q.server.as_deref(), Some("9.9.9.9"));
}

#[test]
fn batch_file_skips_comments_and_blank_lines() {
    let queries = parse_batch_text("# header comment\n\nexample.com A\n  \n# tail\nexample.org\n");
    assert_eq!(queries.len(), 2);
    assert_eq!(queries[0].name, "example.com");
    assert_eq!(queries[1].name, "example.org");
}

#[test]
fn batch_line_accepts_type_n_syntax() {
    let q = parse_batch_line("example.com TYPE64512");
    assert_eq!(q.qtype, RecordType::Unknown(64512));
    assert_eq!(q.name, "example.com");
}
