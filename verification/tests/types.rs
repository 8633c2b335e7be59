use digg::protocol::types::{RecordClass, RecordType};

#[test]
fn type_n_syntax_parses_arbitrary_numeric_types() {
    assert_eq!(
        RecordType::parse_name("TYPE64512"),
        Some(RecordType::Unknown(64512))
    );
    assert_eq!(
        RecordType::parse_name("type64512"),
        Some(RecordType::Unknown(64512))
    );
    assert_eq!(
        RecordType::parse_name("TYPE0"),
        Some(RecordType::Unknown(0))
    );
    assert_eq!(
        RecordType::parse_name("TYPE65535"),
        Some(RecordType::Unknown(65535))
    );
}

/// The whole point of the single table: these hold for every type, not
/// just the handful someone remembered to list.
#[test]
fn every_record_type_round_trips_through_number_and_mnemonic() {
    for rtype in RecordType::all() {
        assert_eq!(
            RecordType::from_u16(rtype.to_u16()),
            rtype,
            "{:?} did not survive a u16 round trip",
            rtype
        );
        let mnemonic = rtype.to_string();
        assert_eq!(
            RecordType::from_mnemonic(&mnemonic),
            Some(rtype),
            "{:?} did not survive a mnemonic round trip",
            rtype
        );
    }
}

/// OPT is reachable numerically but not as a query mnemonic.
#[test]
fn opt_is_excluded_from_mnemonic_parsing_but_not_from_type41() {
    assert_eq!(RecordType::parse_name("OPT"), None);
    assert_eq!(RecordType::parse_name("opt"), None);
    assert_eq!(RecordType::parse_name("TYPE41"), Some(RecordType::OPT));
    assert_eq!(RecordType::OPT.to_string(), "OPT");
}

#[test]
fn type_n_syntax_normalizes_known_numbers_to_mnemonics() {
    assert_eq!(RecordType::parse_name("TYPE1"), Some(RecordType::A));
    assert_eq!(RecordType::parse_name("TYPE16"), Some(RecordType::TXT));
    assert_eq!(RecordType::parse_name("type65"), Some(RecordType::HTTPS));
}

#[test]
fn type_n_syntax_rejects_out_of_range_and_malformed() {
    assert_eq!(RecordType::parse_name("TYPE65536"), None);
    assert_eq!(RecordType::parse_name("TYPE70000"), None);
    assert_eq!(RecordType::parse_name("TYPE"), None);
    assert_eq!(RecordType::parse_name("TYPE12X"), None);
    assert_eq!(RecordType::parse_name("TYPE-1"), None);
}

#[test]
fn unknown_types_display_as_type_n() {
    assert_eq!(RecordType::Unknown(64512).to_string(), "TYPE64512");
}

#[test]
fn record_class_mnemonics_and_class_n_parse() {
    assert_eq!(RecordClass::parse_name("in"), Some(RecordClass::IN));
    assert_eq!(RecordClass::parse_name("CH"), Some(RecordClass::CH));
    assert_eq!(RecordClass::parse_name("chaos"), Some(RecordClass::CH));
    assert_eq!(RecordClass::parse_name("HS"), Some(RecordClass::HS));
    assert_eq!(RecordClass::parse_name("ANY"), Some(RecordClass::ANY));
    assert_eq!(RecordClass::parse_name("CLASS3"), Some(RecordClass::CH));
    assert_eq!(
        RecordClass::parse_name("CLASS42"),
        Some(RecordClass::Unknown(42))
    );
    assert_eq!(RecordClass::parse_name("CLASS70000"), None);
    assert_eq!(RecordClass::parse_name("XX"), None);
}

#[test]
fn record_class_round_trips_wire_values() {
    for val in [1u16, 3, 4, 255, 42] {
        assert_eq!(RecordClass::from_u16(val).to_u16(), val);
    }
    assert_eq!(RecordClass::CH.to_string(), "CH");
    assert_eq!(RecordClass::Unknown(42).to_string(), "CLASS42");
}
