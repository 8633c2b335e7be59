//! Record types, classes and response codes: their wire numbers and their
//! textual mnemonics.
use vstd::prelude::*;
use crate::text::{push_char, push_decimal, string_of, chars_of, chars_eq, starts_with_chars, is_digit_run, digits_value_upto, to_upper, decimal, digits_value, has_prefix, all_digits, unicode_upper, lemma_decimal_digits, all_ascii, ascii_upper_char, ascii_lower_char};

verus! {

/// A resource record type. Named variants carry the standard IANA numbers;
/// any other number is kept as `Unknown`.
#[derive(Debug, Clone, Copy, PartialEq, Eq, Structural)]
pub enum RecordType {
    A,
    NS,
    CNAME,
    SOA,
    PTR,
    MX,
    TXT,
    AAAA,
    SRV,
    OPT,
    DS,
    RRSIG,
    NSEC,
    DNSKEY,
    NSEC3,
    NSEC3PARAM,
    SVCB,
    HTTPS,
    AXFR,
    ANY,
    CAA,
    Unknown(u16),
}

/// The record type for a wire number.
pub open spec fn spec_type_from_u16(v: u16) -> RecordType {
    match v {
        1 => RecordType::A,
        2 => RecordType::NS,
        5 => RecordType::CNAME,
        6 => RecordType::SOA,
        12 => RecordType::PTR,
        15 => RecordType::MX,
        16 => RecordType::TXT,
        28 => RecordType::AAAA,
        33 => RecordType::SRV,
        41 => RecordType::OPT,
        43 => RecordType::DS,
        46 => RecordType::RRSIG,
        47 => RecordType::NSEC,
        48 => RecordType::DNSKEY,
        50 => RecordType::NSEC3,
        51 => RecordType::NSEC3PARAM,
        64 => RecordType::SVCB,
        65 => RecordType::HTTPS,
        252 => RecordType::AXFR,
        255 => RecordType::ANY,
        257 => RecordType::CAA,
        n => RecordType::Unknown(n),
    }
}

/// The wire number of a record type.
pub open spec fn spec_type_to_u16(t: RecordType) -> u16 {
    match t {
        RecordType::A => 1,
        RecordType::NS => 2,
        RecordType::CNAME => 5,
        RecordType::SOA => 6,
        RecordType::PTR => 12,
        RecordType::MX => 15,
        RecordType::TXT => 16,
        RecordType::AAAA => 28,
        RecordType::SRV => 33,
        RecordType::OPT => 41,
        RecordType::DS => 43,
        RecordType::RRSIG => 46,
        RecordType::NSEC => 47,
        RecordType::DNSKEY => 48,
        RecordType::NSEC3 => 50,
        RecordType::NSEC3PARAM => 51,
        RecordType::SVCB => 64,
        RecordType::HTTPS => 65,
        RecordType::AXFR => 252,
        RecordType::ANY => 255,
        RecordType::CAA => 257,
        RecordType::Unknown(n) => n,
    }
}

/// The mnemonic of a named record type (empty for `Unknown`).
pub open spec fn type_mnemonic(t: RecordType) -> Seq<char> {
    match t {
        RecordType::A => seq!['A'],
        RecordType::NS => seq!['N', 'S'],
        RecordType::CNAME => seq!['C', 'N', 'A', 'M', 'E'],
        RecordType::SOA => seq!['S', 'O', 'A'],
        RecordType::PTR => seq!['P', 'T', 'R'],
        RecordType::MX => seq!['M', 'X'],
        RecordType::TXT => seq!['T', 'X', 'T'],
        RecordType::AAAA => seq!['A', 'A', 'A', 'A'],
        RecordType::SRV => seq!['S', 'R', 'V'],
        RecordType::OPT => seq!['O', 'P', 'T'],
        RecordType::DS => seq!['D', 'S'],
        RecordType::RRSIG => seq!['R', 'R', 'S', 'I', 'G'],
        RecordType::NSEC => seq!['N', 'S', 'E', 'C'],
        RecordType::DNSKEY => seq!['D', 'N', 'S', 'K', 'E', 'Y'],
        RecordType::NSEC3 => seq!['N', 'S', 'E', 'C', '3'],
        RecordType::NSEC3PARAM => seq!['N', 'S', 'E', 'C', '3', 'P', 'A', 'R', 'A', 'M'],
        RecordType::SVCB => seq!['S', 'V', 'C', 'B'],
        RecordType::HTTPS => seq!['H', 'T', 'T', 'P', 'S'],
        RecordType::AXFR => seq!['A', 'X', 'F', 'R'],
        RecordType::ANY => seq!['A', 'N', 'Y'],
        RecordType::CAA => seq!['C', 'A', 'A'],
        RecordType::Unknown(_) => Seq::empty(),
    }
}

/// The text of a record type: its mnemonic, or `TYPE<N>` (RFC 3597) for an
/// unknown number.
pub open spec fn type_text(t: RecordType) -> Seq<char> {
    match t {
        RecordType::Unknown(n) => seq!['T', 'Y', 'P', 'E'] + decimal(n as nat),
        _ => type_mnemonic(t),
    }
}

/// Every named record type, in wire-number order.
pub open spec fn spec_all_types() -> Seq<RecordType> {
    seq![RecordType::A, RecordType::NS, RecordType::CNAME, RecordType::SOA, RecordType::PTR, RecordType::MX, RecordType::TXT, RecordType::AAAA, RecordType::SRV, RecordType::OPT, RecordType::DS, RecordType::RRSIG, RecordType::NSEC, RecordType::DNSKEY, RecordType::NSEC3, RecordType::NSEC3PARAM, RecordType::SVCB, RecordType::HTTPS, RecordType::AXFR, RecordType::ANY, RecordType::CAA]
}

/// The first type of `tab` whose mnemonic is `u`.
pub open spec fn find_mnemonic(tab: Seq<RecordType>, u: Seq<char>) -> Option<RecordType>
    decreases tab.len(),
{
    if tab.len() == 0 {
        None
    } else if type_mnemonic(tab[0]) == u {
        Some(tab[0])
    } else {
        find_mnemonic(tab.drop_first(), u)
    }
}

/// The named type whose mnemonic is exactly `u` (already uppercase).
pub open spec fn spec_from_mnemonic(u: Seq<char>) -> Option<RecordType> {
    find_mnemonic(spec_all_types(), u)
}

/// `s` is `prefix` followed by one or more ASCII digits.
pub open spec fn is_numeric_form(s: Seq<char>, prefix: Seq<char>) -> bool {
    &&& has_prefix(s, prefix)
    &&& s.len() > prefix.len()
    &&& all_digits(s.skip(prefix.len() as int))
}

/// The record type denoted by already-uppercased text: `TYPE<N>` for any N in
/// 0..=65535 (known numbers normalise to their named variant), otherwise a
/// mnemonic other than `OPT`.
pub open spec fn spec_parse_type_upper(u: Seq<char>) -> Option<RecordType> {
    let p = seq!['T', 'Y', 'P', 'E'];
    if is_numeric_form(u, p) {
        let v = digits_value(u.skip(4));
        if v <= 65535 {
            Some(spec_type_from_u16(v as u16))
        } else {
            None
        }
    } else if u == seq!['O', 'P', 'T'] {
        None
    } else {
        spec_from_mnemonic(u)
    }
}

/// A record type that `from_u16` can produce: a named type, or an unknown
/// number that no named type uses.
pub open spec fn is_canonical_type(t: RecordType) -> bool {
    match t {
        RecordType::Unknown(n) => spec_type_from_u16(n) is Unknown,
        _ => true,
    }
}

impl RecordType {
    /// The record type for a wire number.
    pub fn from_u16(val: u16) -> (r: Self)
        ensures
            r == spec_type_from_u16(val),
    {
        match val {
            1 => RecordType::A,
            2 => RecordType::NS,
            5 => RecordType::CNAME,
            6 => RecordType::SOA,
            12 => RecordType::PTR,
            15 => RecordType::MX,
            16 => RecordType::TXT,
            28 => RecordType::AAAA,
            33 => RecordType::SRV,
            41 => RecordType::OPT,
            43 => RecordType::DS,
            46 => RecordType::RRSIG,
            47 => RecordType::NSEC,
            48 => RecordType::DNSKEY,
            50 => RecordType::NSEC3,
            51 => RecordType::NSEC3PARAM,
            64 => RecordType::SVCB,
            65 => RecordType::HTTPS,
            252 => RecordType::AXFR,
            255 => RecordType::ANY,
            257 => RecordType::CAA,
            n => RecordType::Unknown(n),
        }
    }

    /// The wire number of this record type.
    pub fn to_u16(self) -> (r: u16)
        ensures
            r == spec_type_to_u16(self),
    {
        match self {
            RecordType::A => 1,
            RecordType::NS => 2,
            RecordType::CNAME => 5,
            RecordType::SOA => 6,
            RecordType::PTR => 12,
            RecordType::MX => 15,
            RecordType::TXT => 16,
            RecordType::AAAA => 28,
            RecordType::SRV => 33,
            RecordType::OPT => 41,
            RecordType::DS => 43,
            RecordType::RRSIG => 46,
            RecordType::NSEC => 47,
            RecordType::DNSKEY => 48,
            RecordType::NSEC3 => 50,
            RecordType::NSEC3PARAM => 51,
            RecordType::SVCB => 64,
            RecordType::HTTPS => 65,
            RecordType::AXFR => 252,
            RecordType::ANY => 255,
            RecordType::CAA => 257,
            RecordType::Unknown(n) => n,
        }
    }

    /// Every named record type, in wire-number order.
    pub fn all() -> (r: Vec<RecordType>)
        ensures
            r@ == spec_all_types(),
    {
        let r = vec![RecordType::A, RecordType::NS, RecordType::CNAME, RecordType::SOA, RecordType::PTR, RecordType::MX, RecordType::TXT, RecordType::AAAA, RecordType::SRV, RecordType::OPT, RecordType::DS, RecordType::RRSIG, RecordType::NSEC, RecordType::DNSKEY, RecordType::NSEC3, RecordType::NSEC3PARAM, RecordType::SVCB, RecordType::HTTPS, RecordType::AXFR, RecordType::ANY, RecordType::CAA];
        assert(r@ =~= spec_all_types());
        r
    }

    /// The characters of this type's mnemonic (empty for `Unknown`).
    fn mnemonic_chars(self) -> (r: Vec<char>)
        ensures
            r@ == type_mnemonic(self),
    {
        let r = match self {
            RecordType::A => vec!['A'],
            RecordType::NS => vec!['N', 'S'],
            RecordType::CNAME => vec!['C', 'N', 'A', 'M', 'E'],
            RecordType::SOA => vec!['S', 'O', 'A'],
            RecordType::PTR => vec!['P', 'T', 'R'],
            RecordType::MX => vec!['M', 'X'],
            RecordType::TXT => vec!['T', 'X', 'T'],
            RecordType::AAAA => vec!['A', 'A', 'A', 'A'],
            RecordType::SRV => vec!['S', 'R', 'V'],
            RecordType::OPT => vec!['O', 'P', 'T'],
            RecordType::DS => vec!['D', 'S'],
            RecordType::RRSIG => vec!['R', 'R', 'S', 'I', 'G'],
            RecordType::NSEC => vec!['N', 'S', 'E', 'C'],
            RecordType::DNSKEY => vec!['D', 'N', 'S', 'K', 'E', 'Y'],
            RecordType::NSEC3 => vec!['N', 'S', 'E', 'C', '3'],
            RecordType::NSEC3PARAM => vec!['N', 'S', 'E', 'C', '3', 'P', 'A', 'R', 'A', 'M'],
            RecordType::SVCB => vec!['S', 'V', 'C', 'B'],
            RecordType::HTTPS => vec!['H', 'T', 'T', 'P', 'S'],
            RecordType::AXFR => vec!['A', 'X', 'F', 'R'],
            RecordType::ANY => vec!['A', 'N', 'Y'],
            RecordType::CAA => vec!['C', 'A', 'A'],
            RecordType::Unknown(_) => Vec::new(),
        };
        assert(r@ =~= type_mnemonic(self));
        r
    }

    /// The text of this type: its mnemonic, or `TYPE<N>` for an unknown
    /// number (what `Display` shows).
    pub fn to_string(&self) -> (r: String)
        ensures
            r@ == type_text(*self),
    {
        match self {
            RecordType::Unknown(n) => {
                let mut s = String::new();
                push_char(&mut s, 'T');
                push_char(&mut s, 'Y');
                push_char(&mut s, 'P');
                push_char(&mut s, 'E');
                push_decimal(&mut s, *n as u64);
                assert(s@ =~= type_text(*self));
                s
            },
            _ => {
                let m = self.mnemonic_chars();
                string_of(&m)
            },
        }
    }

    /// The named type whose mnemonic is exactly `upper`.
    pub fn from_mnemonic(upper: &str) -> (r: Option<Self>)
        ensures
            r == spec_from_mnemonic(upper@),
    {
        let u = chars_of(upper);
        let tab = RecordType::all();
        let mut i: usize = 0;
        assert(tab@.skip(0) =~= tab@);
        while i < tab.len()
            invariant
                tab@ == spec_all_types(),
                i <= tab.len(),
                u@ == upper@,
                find_mnemonic(tab@, u@) == find_mnemonic(tab@.skip(i as int), u@),
            decreases tab.len() - i,
        {
            let m = tab[i].mnemonic_chars();
            assert(tab@.skip(i as int).drop_first() =~= tab@.skip(i + 1));
            if chars_eq(&m, &u) {
                return Some(tab[i]);
            }
            i = i + 1;
        }
        assert(tab@.skip(i as int).len() == 0);
        None
    }

    /// The type denoted by already-uppercased text (see
    /// `spec_parse_type_upper`).
    pub fn from_upper(upper: &str) -> (r: Option<Self>)
        ensures
            r == spec_parse_type_upper(upper@),
    {
        let u = chars_of(upper);
        let p = vec!['T', 'Y', 'P', 'E'];
        assert(p@ =~= seq!['T', 'Y', 'P', 'E']);
        if starts_with_chars(&u, &p) && is_digit_run(&u, 4) {
            return match digits_value_upto(&u, 4, 65535) {
                Some(v) => Some(RecordType::from_u16(v as u16)),
                None => None,
            };
        }
        let opt = vec!['O', 'P', 'T'];
        if chars_eq(&u, &opt) {
            assert(opt@ =~= seq!['O', 'P', 'T']);
            return None;
        }
        proof {
            assert(opt@ =~= seq!['O', 'P', 'T']);
        }
        RecordType::from_mnemonic(upper)
    }

    /// Parses a record type written in any case: a mnemonic (not `OPT`,
    /// which is never a query type) or RFC 3597 `TYPE<N>` syntax.
    pub fn parse_name(s: &str) -> (r: Option<Self>)
        ensures
            r == spec_parse_type_upper(unicode_upper(s@)),
            all_ascii(s@) ==> r == spec_parse_type_upper(
                s@.map_values(|c: char| ascii_upper_char(c)),
            ),
    {
        let upper = to_upper(s);
        RecordType::from_upper(upper.as_str())
    }
}

} // verus!

verus! {

/// A record class (RFC 1035 §3.2.4 and RFC 6895 numbers).
#[derive(Debug, Clone, Copy, PartialEq, Eq, Structural)]
pub enum RecordClass {
    IN,
    CH,
    HS,
    ANY,
    Unknown(u16),
}

/// The class for a wire number.
pub open spec fn spec_class_from_u16(v: u16) -> RecordClass {
    match v {
        1 => RecordClass::IN,
        3 => RecordClass::CH,
        4 => RecordClass::HS,
        255 => RecordClass::ANY,
        n => RecordClass::Unknown(n),
    }
}

/// The wire number of a class.
pub open spec fn spec_class_to_u16(c: RecordClass) -> u16 {
    match c {
        RecordClass::IN => 1,
        RecordClass::CH => 3,
        RecordClass::HS => 4,
        RecordClass::ANY => 255,
        RecordClass::Unknown(n) => n,
    }
}

/// The text of a class: `IN`, `CH`, `HS`, `ANY`, or `CLASS<N>`.
pub open spec fn class_text(c: RecordClass) -> Seq<char> {
    match c {
        RecordClass::IN => seq!['I', 'N'],
        RecordClass::CH => seq!['C', 'H'],
        RecordClass::HS => seq!['H', 'S'],
        RecordClass::ANY => seq!['A', 'N', 'Y'],
        RecordClass::Unknown(n) => seq!['C', 'L', 'A', 'S', 'S'] + decimal(n as nat),
    }
}

/// The class denoted by already-uppercased text: `CLASS<N>` for N in
/// 0..=65535, or one of the mnemonics IN, CH, CHAOS, HS, HESIOD, ANY.
pub open spec fn spec_parse_class_upper(u: Seq<char>) -> Option<RecordClass> {
    let p = seq!['C', 'L', 'A', 'S', 'S'];
    if is_numeric_form(u, p) {
        let v = digits_value(u.skip(5));
        if v <= 65535 {
            Some(spec_class_from_u16(v as u16))
        } else {
            None
        }
    } else if u == seq!['I', 'N'] {
        Some(RecordClass::IN)
    } else if u == seq!['C', 'H'] || u == seq!['C', 'H', 'A', 'O', 'S'] {
        Some(RecordClass::CH)
    } else if u == seq!['H', 'S'] || u == seq!['H', 'E', 'S', 'I', 'O', 'D'] {
        Some(RecordClass::HS)
    } else if u == seq!['A', 'N', 'Y'] {
        Some(RecordClass::ANY)
    } else {
        None
    }
}

/// A class that `from_u16` can produce.
pub open spec fn is_canonical_class(c: RecordClass) -> bool {
    match c {
        RecordClass::Unknown(n) => spec_class_from_u16(n) is Unknown,
        _ => true,
    }
}

impl RecordClass {
    /// The class for a wire number.
    pub fn from_u16(val: u16) -> (r: Self)
        ensures
            r == spec_class_from_u16(val),
    {
        match val {
            1 => RecordClass::IN,
            3 => RecordClass::CH,
            4 => RecordClass::HS,
            255 => RecordClass::ANY,
            n => RecordClass::Unknown(n),
        }
    }

    /// The wire number of this class.
    pub fn to_u16(self) -> (r: u16)
        ensures
            r == spec_class_to_u16(self),
    {
        match self {
            RecordClass::IN => 1,
            RecordClass::CH => 3,
            RecordClass::HS => 4,
            RecordClass::ANY => 255,
            RecordClass::Unknown(n) => n,
        }
    }

    /// The text of this class (what `Display` shows).
    pub fn to_string(&self) -> (r: String)
        ensures
            r@ == class_text(*self),
    {
        let v: Vec<char> = match self {
            RecordClass::IN => vec!['I', 'N'],
            RecordClass::CH => vec!['C', 'H'],
            RecordClass::HS => vec!['H', 'S'],
            RecordClass::ANY => vec!['A', 'N', 'Y'],
            RecordClass::Unknown(_) => vec!['C', 'L', 'A', 'S', 'S'],
        };
        let mut s = string_of(&v);
        if let RecordClass::Unknown(n) = self {
            push_decimal(&mut s, *n as u64);
        }
        assert(s@ =~= class_text(*self));
        s
    }

    /// The class denoted by already-uppercased text.
    pub fn from_upper(upper: &str) -> (r: Option<Self>)
        ensures
            r == spec_parse_class_upper(upper@),
    {
        let u = chars_of(upper);
        let p = vec!['C', 'L', 'A', 'S', 'S'];
        assert(p@ =~= seq!['C', 'L', 'A', 'S', 'S']);
        if starts_with_chars(&u, &p) && is_digit_run(&u, 5) {
            return match digits_value_upto(&u, 5, 65535) {
                Some(v) => Some(RecordClass::from_u16(v as u16)),
                None => None,
            };
        }
        let m_in = vec!['I', 'N'];
        let m_ch = vec!['C', 'H'];
        let m_chaos = vec!['C', 'H', 'A', 'O', 'S'];
        let m_hs = vec!['H', 'S'];
        let m_hesiod = vec!['H', 'E', 'S', 'I', 'O', 'D'];
        let m_any = vec!['A', 'N', 'Y'];
        assert(m_in@ =~= seq!['I', 'N']);
        assert(m_ch@ =~= seq!['C', 'H']);
        assert(m_chaos@ =~= seq!['C', 'H', 'A', 'O', 'S']);
        assert(m_hs@ =~= seq!['H', 'S']);
        assert(m_hesiod@ =~= seq!['H', 'E', 'S', 'I', 'O', 'D']);
        assert(m_any@ =~= seq!['A', 'N', 'Y']);
        if chars_eq(&u, &m_in) {
            Some(RecordClass::IN)
        } else if chars_eq(&u, &m_ch) || chars_eq(&u, &m_chaos) {
            Some(RecordClass::CH)
        } else if chars_eq(&u, &m_hs) || chars_eq(&u, &m_hesiod) {
            Some(RecordClass::HS)
        } else if chars_eq(&u, &m_any) {
            Some(RecordClass::ANY)
        } else {
            None
        }
    }

    /// Parses a class mnemonic in any case, or RFC 3597 `CLASS<N>` syntax.
    pub fn parse_name(s: &str) -> (r: Option<Self>)
        ensures
            r == spec_parse_class_upper(unicode_upper(s@)),
            all_ascii(s@) ==> r == spec_parse_class_upper(
                s@.map_values(|c: char| ascii_upper_char(c)),
            ),
    {
        let upper = to_upper(s);
        RecordClass::from_upper(upper.as_str())
    }
}

/// A response code; `BadVers` (16) only arises once the EDNS extended bits
/// are folded in (RFC 6891).
#[derive(Debug, Clone, Copy, PartialEq, Eq, Structural)]
pub enum Rcode {
    NoError,
    FormErr,
    ServFail,
    NxDomain,
    NotImp,
    Refused,
    BadVers,
    Unknown(u16),
}

/// The response code for a full (up to 12-bit) value.
pub open spec fn spec_rcode_from_u16(v: u16) -> Rcode {
    match v {
        0 => Rcode::NoError,
        1 => Rcode::FormErr,
        2 => Rcode::ServFail,
        3 => Rcode::NxDomain,
        4 => Rcode::NotImp,
        5 => Rcode::Refused,
        16 => Rcode::BadVers,
        n => Rcode::Unknown(n),
    }
}

/// The numeric value of a response code.
pub open spec fn spec_rcode_code(r: Rcode) -> u16 {
    match r {
        Rcode::NoError => 0,
        Rcode::FormErr => 1,
        Rcode::ServFail => 2,
        Rcode::NxDomain => 3,
        Rcode::NotImp => 4,
        Rcode::Refused => 5,
        Rcode::BadVers => 16,
        Rcode::Unknown(n) => n,
    }
}

/// The text of a response code: `NOERROR`, ..., or `RCODE<N>`.
pub open spec fn rcode_text(r: Rcode) -> Seq<char> {
    match r {
        Rcode::NoError => seq!['N', 'O', 'E', 'R', 'R', 'O', 'R'],
        Rcode::FormErr => seq!['F', 'O', 'R', 'M', 'E', 'R', 'R'],
        Rcode::ServFail => seq!['S', 'E', 'R', 'V', 'F', 'A', 'I', 'L'],
        Rcode::NxDomain => seq!['N', 'X', 'D', 'O', 'M', 'A', 'I', 'N'],
        Rcode::NotImp => seq!['N', 'O', 'T', 'I', 'M', 'P'],
        Rcode::Refused => seq!['R', 'E', 'F', 'U', 'S', 'E', 'D'],
        Rcode::BadVers => seq!['B', 'A', 'D', 'V', 'E', 'R', 'S'],
        Rcode::Unknown(n) => seq!['R', 'C', 'O', 'D', 'E'] + decimal(n as nat),
    }
}

/// A response code that `from_u16` can produce.
pub open spec fn is_canonical_rcode(r: Rcode) -> bool {
    match r {
        Rcode::Unknown(n) => spec_rcode_from_u16(n) is Unknown,
        _ => true,
    }
}

impl Rcode {
    /// Decodes the 4-bit RCODE of a message header (upper bits ignored).
    pub fn from_u8(val: u8) -> (r: Self)
        ensures
            r == spec_rcode_from_u16((val & 0x0F) as u16),
    {
        Self::from_u16((val & 0x0F) as u16)
    }

    /// Decodes a full RCODE value.
    pub fn from_u16(val: u16) -> (r: Self)
        ensures
            r == spec_rcode_from_u16(val),
    {
        match val {
            0 => Rcode::NoError,
            1 => Rcode::FormErr,
            2 => Rcode::ServFail,
            3 => Rcode::NxDomain,
            4 => Rcode::NotImp,
            5 => Rcode::Refused,
            16 => Rcode::BadVers,
            n => Rcode::Unknown(n),
        }
    }

    /// The numeric RCODE value.
    pub fn code(self) -> (r: u16)
        ensures
            r == spec_rcode_code(self),
    {
        match self {
            Rcode::NoError => 0,
            Rcode::FormErr => 1,
            Rcode::ServFail => 2,
            Rcode::NxDomain => 3,
            Rcode::NotImp => 4,
            Rcode::Refused => 5,
            Rcode::BadVers => 16,
            Rcode::Unknown(n) => n,
        }
    }

    /// Every code other than NOERROR is an error.
    pub fn is_error(&self) -> (r: bool)
        ensures
            r == !(*self is NoError),
    {
        !matches!(self, Rcode::NoError)
    }

    /// The text of this code (what `Display` shows).
    pub fn to_string(&self) -> (r: String)
        ensures
            r@ == rcode_text(*self),
    {
        let v: Vec<char> = match self {
            Rcode::NoError => vec!['N', 'O', 'E', 'R', 'R', 'O', 'R'],
            Rcode::FormErr => vec!['F', 'O', 'R', 'M', 'E', 'R', 'R'],
            Rcode::ServFail => vec!['S', 'E', 'R', 'V', 'F', 'A', 'I', 'L'],
            Rcode::NxDomain => vec!['N', 'X', 'D', 'O', 'M', 'A', 'I', 'N'],
            Rcode::NotImp => vec!['N', 'O', 'T', 'I', 'M', 'P'],
            Rcode::Refused => vec!['R', 'E', 'F', 'U', 'S', 'E', 'D'],
            Rcode::BadVers => vec!['B', 'A', 'D', 'V', 'E', 'R', 'S'],
            Rcode::Unknown(_) => vec!['R', 'C', 'O', 'D', 'E'],
        };
        let mut s = string_of(&v);
        if let Rcode::Unknown(n) = self {
            push_decimal(&mut s, *n as u64);
        }
        assert(s@ =~= rcode_text(*self));
        s
    }
}

/// Every wire number survives the trip through a record type.
pub proof fn lemma_type_number_roundtrip(n: u16)
    ensures
        spec_type_to_u16(spec_type_from_u16(n)) == n,
{
}

/// Every type that decoding can produce survives the trip through its number.
pub proof fn lemma_type_value_roundtrip(t: RecordType)
    requires
        is_canonical_type(t),
    ensures
        spec_type_from_u16(spec_type_to_u16(t)) == t,
{
}

/// Every named type is found again from its own mnemonic.
pub proof fn lemma_type_mnemonic_roundtrip(t: RecordType)
    requires
        !(t is Unknown),
    ensures
        spec_from_mnemonic(type_text(t)) == Some(t),
{
    let tab = spec_all_types();
    let u = type_text(t);
    let k: int = match t {
        RecordType::A => 0,
        RecordType::NS => 1,
        RecordType::CNAME => 2,
        RecordType::SOA => 3,
        RecordType::PTR => 4,
        RecordType::MX => 5,
        RecordType::TXT => 6,
        RecordType::AAAA => 7,
        RecordType::SRV => 8,
        RecordType::OPT => 9,
        RecordType::DS => 10,
        RecordType::RRSIG => 11,
        RecordType::NSEC => 12,
        RecordType::DNSKEY => 13,
        RecordType::NSEC3 => 14,
        RecordType::NSEC3PARAM => 15,
        RecordType::SVCB => 16,
        RecordType::HTTPS => 17,
        RecordType::AXFR => 18,
        RecordType::ANY => 19,
        RecordType::CAA => 20,
        RecordType::Unknown(_) => 0,
    };
    assert(tab[k] == t);
    assert forall|j: int| 0 <= j < k implies type_mnemonic(#[trigger] tab[j]) != u by {
        lemma_mnemonic_signature(tab[j]);
        lemma_mnemonic_signature(t);
    }
    lemma_find_mnemonic_at(tab, u, k);
}

/// The (length, first, last) signature of a named type's mnemonic; distinct
/// for distinct named types.
pub open spec fn mnemonic_signature(t: RecordType) -> (int, char, char) {
    match t {
        RecordType::A => (1, 'A', 'A'),
        RecordType::NS => (2, 'N', 'S'),
        RecordType::CNAME => (5, 'C', 'E'),
        RecordType::SOA => (3, 'S', 'A'),
        RecordType::PTR => (3, 'P', 'R'),
        RecordType::MX => (2, 'M', 'X'),
        RecordType::TXT => (3, 'T', 'T'),
        RecordType::AAAA => (4, 'A', 'A'),
        RecordType::SRV => (3, 'S', 'V'),
        RecordType::OPT => (3, 'O', 'T'),
        RecordType::DS => (2, 'D', 'S'),
        RecordType::RRSIG => (5, 'R', 'G'),
        RecordType::NSEC => (4, 'N', 'C'),
        RecordType::DNSKEY => (6, 'D', 'Y'),
        RecordType::NSEC3 => (5, 'N', '3'),
        RecordType::NSEC3PARAM => (10, 'N', 'M'),
        RecordType::SVCB => (4, 'S', 'B'),
        RecordType::HTTPS => (5, 'H', 'S'),
        RecordType::AXFR => (4, 'A', 'R'),
        RecordType::ANY => (3, 'A', 'Y'),
        RecordType::CAA => (3, 'C', 'A'),
        RecordType::Unknown(_) => (0, ' ', ' '),
    }
}

proof fn lemma_mnemonic_signature(t: RecordType)
    requires
        !(t is Unknown),
    ensures
        type_mnemonic(t).len() == mnemonic_signature(t).0,
        type_mnemonic(t)[0] == mnemonic_signature(t).1,
        type_mnemonic(t).last() == mnemonic_signature(t).2,
{
}

proof fn lemma_find_mnemonic_at(tab: Seq<RecordType>, u: Seq<char>, k: int)
    requires
        0 <= k < tab.len(),
        type_mnemonic(tab[k]) == u,
        forall|j: int| 0 <= j < k ==> type_mnemonic(#[trigger] tab[j]) != u,
    ensures
        find_mnemonic(tab, u) == Some(tab[k]),
    decreases k,
{
    if k > 0 {
        let rest = tab.drop_first();
        assert forall|j: int| 0 <= j < k - 1 implies type_mnemonic(#[trigger] rest[j]) != u by {
            assert(rest[j] == tab[j + 1]);
        }
        lemma_find_mnemonic_at(rest, u, k - 1);
        assert(type_mnemonic(tab[0]) != u);
    }
}

/// Parsing the text of any type gives the type back, `OPT` excepted (it is
/// never a query type); an unknown number comes back in its normalised form.
pub proof fn lemma_type_text_parses_back(t: RecordType)
    requires
        t != RecordType::OPT,
    ensures
        spec_parse_type_upper(type_text(t)) == Some(spec_type_from_u16(spec_type_to_u16(t))),
{
    match t {
        RecordType::Unknown(n) => {
            let s = type_text(t);
            lemma_decimal_digits(n as nat);
            assert(s.take(4) =~= seq!['T', 'Y', 'P', 'E']);
            assert(s.skip(4) =~= decimal(n as nat));
        },
        _ => {
            lemma_type_mnemonic_roundtrip(t);
            let s = type_text(t);
            if has_prefix(s, seq!['T', 'Y', 'P', 'E']) {
                assert(s.take(4)[1] == 'Y');
            }
        },
    }
}

/// Every class number survives the trip through a class, and back.
pub proof fn lemma_class_roundtrip(n: u16, c: RecordClass)
    requires
        is_canonical_class(c),
    ensures
        spec_class_to_u16(spec_class_from_u16(n)) == n,
        spec_class_from_u16(spec_class_to_u16(c)) == c,
{
}

/// Parsing the text of any class gives the class back (normalised).
pub proof fn lemma_class_text_parses_back(c: RecordClass)
    ensures
        spec_parse_class_upper(class_text(c)) == Some(spec_class_from_u16(spec_class_to_u16(c))),
{
    let s = class_text(c);
    match c {
        RecordClass::Unknown(n) => {
            lemma_decimal_digits(n as nat);
            assert(s.take(5) =~= seq!['C', 'L', 'A', 'S', 'S']);
            assert(s.skip(5) =~= decimal(n as nat));
        },
        _ => {
            if has_prefix(s, seq!['C', 'L', 'A', 'S', 'S']) {
                assert(s.take(5)[1] == 'L');
            }
        },
    }
}

/// Every response code value survives the trip through `Rcode`, and every
/// canonical code through its value.
pub proof fn lemma_rcode_roundtrip(n: u16, r: Rcode)
    requires
        is_canonical_rcode(r),
    ensures
        spec_rcode_code(spec_rcode_from_u16(n)) == n,
        spec_rcode_from_u16(spec_rcode_code(r)) == r,
{
}

/// Every type, named or not, parses back from its RFC 3597 `TYPE<N>` form
/// to itself (when decoding can produce it), and `OPT` does not parse.
pub proof fn lemma_type_number_text_parses_back(t: RecordType)
    ensures
        spec_parse_type_upper(seq!['T', 'Y', 'P', 'E'] + decimal(spec_type_to_u16(t) as nat))
            == Some(spec_type_from_u16(spec_type_to_u16(t))),
        is_canonical_type(t) ==> spec_parse_type_upper(
            seq!['T', 'Y', 'P', 'E'] + decimal(spec_type_to_u16(t) as nat),
        ) == Some(t),
        spec_parse_type_upper(seq!['O', 'P', 'T']) is None,
{
    let n = spec_type_to_u16(t);
    lemma_type_text_parses_back(RecordType::Unknown(n));
    if is_canonical_type(t) {
        lemma_type_value_roundtrip(t);
    }
    assert(!is_numeric_form(seq!['O', 'P', 'T'], seq!['T', 'Y', 'P', 'E']));
}

/// The text of a type holds no lowercase ASCII letter.
proof fn lemma_type_text_upper(t: RecordType)
    ensures
        forall|i: int|
            0 <= i < type_text(t).len() ==> ascii_upper_char(ascii_lower_char(
                #[trigger] type_text(t)[i],
            )) == type_text(t)[i],
{
    match t {
        RecordType::Unknown(n) => {
            lemma_decimal_digits(n as nat);
            let s = type_text(t);
            assert forall|i: int| 0 <= i < s.len() implies ascii_upper_char(ascii_lower_char(
                #[trigger] s[i],
            )) == s[i] by {
                if i >= 4 {
                    assert(s[i] == decimal(n as nat)[i - 4]);
                }
            }
        },
        _ => {},
    }
}

/// The text of a type written in any ASCII case, `OPT` excepted, parses back
/// to the type once uppercased (an unknown number in its normalised form);
/// in particular its all-lowercase form does.
pub proof fn lemma_type_text_any_case(t: RecordType, s: Seq<char>)
    requires
        t != RecordType::OPT,
        s.len() == type_text(t).len(),
        forall|i: int| 0 <= i < s.len() ==> ascii_upper_char(#[trigger] s[i]) == type_text(t)[i],
    ensures
        spec_parse_type_upper(s.map_values(|c: char| ascii_upper_char(c))) == Some(
            spec_type_from_u16(spec_type_to_u16(t)),
        ),
        !(t is Unknown) ==> spec_parse_type_upper(s.map_values(|c: char| ascii_upper_char(c)))
            == Some(t),
        spec_parse_type_upper(
            type_text(t).map_values(|c: char| ascii_lower_char(c)).map_values(
                |c: char| ascii_upper_char(c),
            ),
        ) == Some(spec_type_from_u16(spec_type_to_u16(t))),
{
    assert(s.map_values(|c: char| ascii_upper_char(c)) =~= type_text(t));
    lemma_type_text_upper(t);
    assert(type_text(t).map_values(|c: char| ascii_lower_char(c)).map_values(
        |c: char| ascii_upper_char(c),
    ) =~= type_text(t));
    lemma_type_text_parses_back(t);
    if !(t is Unknown) {
        lemma_type_value_roundtrip(t);
    }
}

/// `OPT` in any ASCII case does not parse as a type.
pub proof fn lemma_opt_any_case_rejected(s: Seq<char>)
    requires
        s.len() == 3,
        ascii_upper_char(s[0]) == 'O',
        ascii_upper_char(s[1]) == 'P',
        ascii_upper_char(s[2]) == 'T',
    ensures
        spec_parse_type_upper(s.map_values(|c: char| ascii_upper_char(c))) is None,
{
    assert(s.map_values(|c: char| ascii_upper_char(c)) =~= seq!['O', 'P', 'T']);
    assert(!is_numeric_form(seq!['O', 'P', 'T'], seq!['T', 'Y', 'P', 'E']));
}

} // verus!
