//! Command-line options: what each argument means, how positional
//! arguments become queries, and the checks made once all are read.
use vstd::prelude::*;
use crate::error::DnsError;
use crate::ip_text::{parse_ip, spec_parse_ip};
use crate::output::ColorMode;
use crate::protocol::addr::IpAddress;
use crate::protocol::types::{RecordClass, RecordType, spec_parse_type_upper, spec_parse_class_upper};
use crate::batch::{is_query_line, lemma_split_lines_nonempty, split_lines};
use crate::text::{
    all_digits, chars_of, decimal, digits_value, digits_value_upto, has_prefix, is_digit_run,
    push_char, push_decimal, push_str, starts_with_chars, string_of, strings_view, to_upper,
    unicode_upper, lower_hex_digit, trim_chars, trim_ws,
};

verus! {

/// Everything the command line asks for.
#[derive(Debug)]
pub struct Options {
    pub servers: Vec<String>,
    pub name: String,
    pub qtype: RecordType,
    pub qclass: RecordClass,
    pub port: u16,
    pub short: bool,
    pub color: ColorMode,
    pub tcp: Option<bool>,
    pub recurse: bool,
    pub show_authority: bool,
    pub show_additional: bool,
    pub reverse: Option<String>,
    pub timeout: u64,
    pub trace: bool,
    pub json: bool,
    pub yaml: bool,
    pub tsv: bool,
    pub compat: bool,
    pub bench: Option<usize>,
    pub batch_file: Option<String>,
    pub dnssec: bool,
    pub edns: bool,
    pub doh: Option<String>,
    pub dot: bool,
    pub axfr: bool,
    pub propagation: bool,
    pub watch: Option<u64>,
    pub subnet: Option<(IpAddress, u8)>,
    pub nsid: bool,
    pub retry: u32,
    pub qr: bool,
    pub stats: bool,
    pub queries: Vec<(RecordType, String)>,
    /// `--help` was given: show the usage text and stop.
    pub show_help: bool,
    /// `--version` was given: show the version and stop.
    pub show_version: bool,
}

/// The settings among the options: everything but the texts (servers,
/// name, reverse address, batch file, DoH endpoint and queries).
#[derive(Debug, Clone, Copy)]
pub struct Settings {
    pub qtype: RecordType,
    pub qclass: RecordClass,
    pub port: u16,
    pub short: bool,
    pub color: ColorMode,
    pub tcp: Option<bool>,
    pub recurse: bool,
    pub show_authority: bool,
    pub show_additional: bool,
    pub timeout: u64,
    pub trace: bool,
    pub json: bool,
    pub yaml: bool,
    pub tsv: bool,
    pub compat: bool,
    pub bench: Option<usize>,
    pub dnssec: bool,
    pub edns: bool,
    pub dot: bool,
    pub axfr: bool,
    pub propagation: bool,
    pub watch: Option<u64>,
    pub subnet: Option<(IpAddress, u8)>,
    pub nsid: bool,
    pub retry: u32,
    pub qr: bool,
    pub stats: bool,
    pub show_help: bool,
    pub show_version: bool,
}

/// The settings of options.
pub open spec fn settings_of(o: Options) -> Settings {
    Settings {
        qtype: o.qtype,
        qclass: o.qclass,
        port: o.port,
        short: o.short,
        color: o.color,
        tcp: o.tcp,
        recurse: o.recurse,
        show_authority: o.show_authority,
        show_additional: o.show_additional,
        timeout: o.timeout,
        trace: o.trace,
        json: o.json,
        yaml: o.yaml,
        tsv: o.tsv,
        compat: o.compat,
        bench: o.bench,
        dnssec: o.dnssec,
        edns: o.edns,
        dot: o.dot,
        axfr: o.axfr,
        propagation: o.propagation,
        watch: o.watch,
        subnet: o.subnet,
        nsid: o.nsid,
        retry: o.retry,
        qr: o.qr,
        stats: o.stats,
        show_help: o.show_help,
        show_version: o.show_version,
    }
}

/// The abstract content of the options: the settings as they are, the
/// texts as character sequences.
pub ghost struct OptionsView {
    pub settings: Settings,
    pub servers: Seq<Seq<char>>,
    pub name: Seq<char>,
    pub reverse: Option<Seq<char>>,
    pub batch_file: Option<Seq<char>>,
    pub doh: Option<Seq<char>>,
    pub queries: Seq<(RecordType, Seq<char>)>,
}

/// The view of an optional string.
pub open spec fn opt_str(s: Option<String>) -> Option<Seq<char>> {
    match s {
        Some(x) => Some(x@),
        None => None,
    }
}

/// The views of a list of queries.
pub open spec fn queries_view(q: Seq<(RecordType, String)>) -> Seq<(RecordType, Seq<char>)> {
    q.map_values(|p: (RecordType, String)| (p.0, p.1@))
}

impl View for Options {
    type V = OptionsView;

    open spec fn view(&self) -> OptionsView {
        OptionsView {
            settings: settings_of(*self),
            servers: strings_view(self.servers@),
            name: self.name@,
            reverse: opt_str(self.reverse),
            batch_file: opt_str(self.batch_file),
            doh: opt_str(self.doh),
            queries: queries_view(self.queries@),
        }
    }
}

/// The settings before any argument is read: a type-A query of class IN
/// over UDP port 53 with EDNS, recursion, every section and the status
/// footer shown, automatic colour, a 5 s timeout and two retries.
pub open spec fn default_settings() -> Settings {
    Settings {
        qtype: RecordType::A,
        qclass: RecordClass::IN,
        port: 53,
        short: false,
        color: ColorMode::Auto,
        tcp: None,
        recurse: true,
        show_authority: true,
        show_additional: true,
        timeout: 5,
        trace: false,
        json: false,
        yaml: false,
        tsv: false,
        compat: false,
        bench: None,
        dnssec: false,
        edns: true,
        dot: false,
        axfr: false,
        propagation: false,
        watch: None,
        subnet: None,
        nsid: false,
        retry: 2,
        qr: false,
        stats: true,
        show_help: false,
        show_version: false,
    }
}

/// The options before any argument is read: the default settings, no
/// server, the root as the name and no queries.
pub open spec fn default_options() -> OptionsView {
    OptionsView {
        settings: default_settings(),
        servers: Seq::empty(),
        name: seq!['.'],
        reverse: None,
        batch_file: None,
        doh: None,
        queries: Seq::empty(),
    }
}

/// Options made of settings and texts.
fn assemble(
    st: Settings,
    servers: Vec<String>,
    name: String,
    reverse: Option<String>,
    batch_file: Option<String>,
    doh: Option<String>,
    queries: Vec<(RecordType, String)>,
) -> (o: Options)
    ensures
        settings_of(o) == st,
        o.servers@ == servers@,
        o.name@ == name@,
        opt_str(o.reverse) == opt_str(reverse),
        opt_str(o.batch_file) == opt_str(batch_file),
        opt_str(o.doh) == opt_str(doh),
        o.queries@ == queries@,
{
    Options {
        servers,
        name,
        reverse,
        batch_file,
        doh,
        queries,
        qtype: st.qtype,
        qclass: st.qclass,
        port: st.port,
        short: st.short,
        color: st.color,
        tcp: st.tcp,
        recurse: st.recurse,
        show_authority: st.show_authority,
        show_additional: st.show_additional,
        timeout: st.timeout,
        trace: st.trace,
        json: st.json,
        yaml: st.yaml,
        tsv: st.tsv,
        compat: st.compat,
        bench: st.bench,
        dnssec: st.dnssec,
        edns: st.edns,
        dot: st.dot,
        axfr: st.axfr,
        propagation: st.propagation,
        watch: st.watch,
        subnet: st.subnet,
        nsid: st.nsid,
        retry: st.retry,
        qr: st.qr,
        stats: st.stats,
        show_help: st.show_help,
        show_version: st.show_version,
    }
}

impl Default for Options {
    /// The options before any argument is read.
    fn default() -> (r: Self)
        ensures
            r@ == default_options(),
    {
        let st = Settings {
            qtype: RecordType::A,
            qclass: RecordClass::IN,
            port: 53,
            short: false,
            color: ColorMode::Auto,
            tcp: None,
            recurse: true,
            show_authority: true,
            show_additional: true,
            timeout: 5,
            trace: false,
            json: false,
            yaml: false,
            tsv: false,
            compat: false,
            bench: None,
            dnssec: false,
            edns: true,
            dot: false,
            axfr: false,
            propagation: false,
            watch: None,
            subnet: None,
            nsid: false,
            retry: 2,
            qr: false,
            stats: true,
            show_help: false,
            show_version: false,
        };
        let name = string_of(&vec!['.']);
        let o = assemble(st, Vec::new(), name, None, None, None, Vec::new());
        proof {
            assert(o@.servers =~= Seq::<Seq<char>>::empty());
            assert(o@.queries =~= Seq::<(RecordType, Seq<char>)>::empty());
            assert(o@.name =~= seq!['.']);
        }
        o
    }
}

impl Options {
    /// The first server named with `@`, if any.
    pub fn server(&self) -> (r: Option<&str>)
        ensures
            match r {
                Some(s) => self.servers@.len() > 0 && s@ == self.servers@[0]@,
                None => self.servers@.len() == 0,
            },
    {
        if self.servers.len() > 0 {
            Some(self.servers[0].as_str())
        } else {
            None
        }
    }
}

/// The number an unsigned-integer argument denotes: an optional `+`, then
/// one or more decimal digits, worth at most `max` (what `str::parse` of an
/// unsigned type accepts).
pub open spec fn parse_uint(s: Seq<char>, max: nat) -> Option<nat> {
    let t = if s.len() > 0 && s[0] == '+' {
        s.drop_first()
    } else {
        s
    };
    if t.len() > 0 && all_digits(t) && digits_value(t) <= max {
        Some(digits_value(t))
    } else {
        None
    }
}

/// Parses an unsigned integer argument up to `max`.
pub fn parse_uint_arg(s: &str, max: u64) -> (r: Option<u64>)
    ensures
        match r {
            Some(v) => parse_uint(s@, max as nat) == Some(v as nat),
            None => parse_uint(s@, max as nat) is None,
        },
{
    let v = chars_of(s);
    let start: usize = if v.len() > 0 && v[0] == '+' { 1 } else { 0 };
    assert(v@.skip(start as int) =~= (if v@.len() > 0 && v@[0] == '+' {
        v@.drop_first()
    } else {
        v@
    }));
    if !is_digit_run(&v, start) {
        return None;
    }
    digits_value_upto(&v, start, max)
}

/// Whether a token is written like RFC 3597 `TYPE<N>` (in any case).
pub open spec fn numeric_type_syntax(t: Seq<char>) -> bool {
    let u = unicode_upper(t);
    has_prefix(u, seq!['T', 'Y', 'P', 'E']) && u.len() > 4 && all_digits(u.skip(4))
}

/// Whether a token is shaped like `TYPE<N>`, which tells an out-of-range
/// type number from a host name.
pub fn is_numeric_type_syntax(token: &str) -> (r: bool)
    ensures
        r == numeric_type_syntax(token@),
{
    let upper = to_upper(token);
    let u = chars_of(upper.as_str());
    let p = vec!['T', 'Y', 'P', 'E'];
    assert(p@ =~= seq!['T', 'Y', 'P', 'E']);
    starts_with_chars(&u, &p) && is_digit_run(&u, 4)
}

/// The nibbles of an IPv6 address from the last octet's low nibble to the
/// first octet's high one, each in lowercase hex followed by a dot.
pub open spec fn nibbles_text(o: Seq<u8>) -> Seq<char>
    decreases o.len(),
{
    if o.len() == 0 {
        Seq::empty()
    } else {
        seq![lower_hex_digit((o.last() % 16) as int), '.', lower_hex_digit((o.last() / 16) as int), '.']
            + nibbles_text(o.drop_last())
    }
}

/// The reverse-lookup name of an address: `d.c.b.a.in-addr.arpa` for IPv4,
/// the nibbles in reverse under `ip6.arpa` for IPv6.
pub open spec fn reverse_text(a: IpAddress) -> Seq<char> {
    match a {
        IpAddress::V4(v) => decimal(v.octets@[3] as nat) + seq!['.'] + decimal(v.octets@[2] as nat)
            + seq!['.'] + decimal(v.octets@[1] as nat) + seq!['.'] + decimal(v.octets@[0] as nat)
            + ".in-addr.arpa"@,
        IpAddress::V6(v) => nibbles_text(v.octets@) + "ip6.arpa"@,
    }
}

/// The reverse-lookup name of an address.
pub fn reverse_of(a: &IpAddress) -> (r: String)
    ensures
        r@ == reverse_text(*a),
{
    let mut s = String::new();
    match a {
        IpAddress::V4(v) => {
            push_decimal(&mut s, v.octets[3] as u64);
            push_char(&mut s, '.');
            push_decimal(&mut s, v.octets[2] as u64);
            push_char(&mut s, '.');
            push_decimal(&mut s, v.octets[1] as u64);
            push_char(&mut s, '.');
            push_decimal(&mut s, v.octets[0] as u64);
            push_str(&mut s, ".in-addr.arpa");
            assert(s@ =~= reverse_text(*a));
        },
        IpAddress::V6(v) => {
            let ghost o = v.octets@;
            let mut k: usize = 16;
            assert(o.take(16) =~= o);
            while k > 0
                invariant
                    o == v.octets@,
                    k <= 16,
                    s@ + nibbles_text(o.take(k as int)) == nibbles_text(o),
                decreases k,
            {
                let b = v.octets[k - 1];
                let lo = b % 16;
                let hi = b / 16;
                let ghost before = s@;
                push_char(&mut s, if lo < 10 { (48u8 + lo) as char } else { (87u8 + lo) as char });
                push_char(&mut s, '.');
                push_char(&mut s, if hi < 10 { (48u8 + hi) as char } else { (87u8 + hi) as char });
                push_char(&mut s, '.');
                proof {
                    let t = o.take(k as int);
                    assert(t.drop_last() =~= o.take(k - 1));
                    assert(t.last() == b);
                    assert(s@ =~= before + seq![
                        lower_hex_digit((b % 16) as int),
                        '.',
                        lower_hex_digit((b / 16) as int),
                        '.',
                    ]);
                    assert(s@ + nibbles_text(o.take(k - 1)) =~= before + nibbles_text(t));
                }
                k = k - 1;
            }
            assert(o.take(0) =~= Seq::<u8>::empty());
            assert(s@ + Seq::<char>::empty() =~= s@);
            push_str(&mut s, "ip6.arpa");
        },
    }
    s
}

/// The message for text that is not an address.
pub open spec fn bad_reverse_text(addr: Seq<char>) -> Seq<char> {
    "invalid address for reverse lookup: "@ + addr
}

/// The reverse-lookup name for address text; other text is a usage error.
pub fn reverse_name(addr: &str) -> (r: Result<String, DnsError>)
    ensures
        match r {
            Ok(n) => spec_parse_ip(addr@) matches Some(a) && n@ == reverse_text(a),
            Err(e) => spec_parse_ip(addr@) is None && (e matches DnsError::Usage(m) && m@
                == bad_reverse_text(addr@)),
        },
{
    match parse_ip(addr) {
        Some(a) => {
            proof {
                lemma_parse_ip_exec(addr@, a);
            }
            Ok(reverse_of(&a))
        },
        None => {
            let mut m = String::new();
            push_str(&mut m, "invalid address for reverse lookup: ");
            push_str(&mut m, addr);
            Err(DnsError::Usage(m))
        },
    }
}

/// What `parse_ip` returns is the address `spec_parse_ip` describes.
proof fn lemma_parse_ip_exec(s: Seq<char>, a: IpAddress)
    requires
        match a {
            IpAddress::V4(x) => crate::ip_text::spec_parse_ipv4(s) == Some(x.octets@),
            IpAddress::V6(x) => crate::ip_text::spec_parse_ipv4(s) is None
                && crate::ip_text::spec_parse_ipv6(s) == Some(x.octets@),
        },
    ensures
        spec_parse_ip(s) == Some(a),
{
    match a {
        IpAddress::V4(x) => {
            let c = crate::ip_text::seq_to_array4(x.octets@);
            assert(c@ == x.octets@);
            assert(c == x.octets);
        },
        IpAddress::V6(x) => {
            let c = crate::ip_text::seq_to_array16(x.octets@);
            assert(c@ == x.octets@);
            assert(c == x.octets);
        },
    }
}

/// The index of the first `/` in `s`, or -1.
pub open spec fn first_slash(s: Seq<char>) -> int
    decreases s.len(),
{
    if s.len() == 0 {
        -1
    } else if first_slash(s.drop_last()) >= 0 {
        first_slash(s.drop_last())
    } else if s.last() == '/' {
        s.len() - 1
    } else {
        -1
    }
}

/// The message for a subnet whose address does not parse.
pub open spec fn bad_subnet_address(s: Seq<char>) -> Seq<char> {
    "invalid subnet address: "@ + s
}

/// The message for a subnet whose prefix is not a number up to `max`.
pub open spec fn bad_subnet_prefix(s: Seq<char>, max: nat) -> Seq<char> {
    "invalid subnet prefix: "@ + s + " (max /"@ + decimal(max) + " for this family)"@
}

/// The address and prefix a `+subnet=` value denotes: `0` is the privacy
/// opt-out `0.0.0.0/0`; otherwise an address with an optional `/prefix`,
/// which defaults to 24 for IPv4 and 56 for IPv6 and may not exceed the
/// family's length.
pub open spec fn spec_parse_subnet(s: Seq<char>) -> Result<(IpAddress, u8), Seq<char>> {
    if s == seq!['0'] {
        Ok((IpAddress::V4(crate::protocol::addr::Ipv4Addr { octets: [0u8, 0u8, 0u8, 0u8] }), 0))
    } else {
        let k = first_slash(s);
        let addr_text = if k >= 0 { s.take(k) } else { s };
        match spec_parse_ip(addr_text) {
            Some(a) => {
                let max: nat = if a is V4 { 32 } else { 128 };
                if k >= 0 {
                    match parse_uint(s.skip(k + 1), 255) {
                        Some(n) => if n <= max {
                            Ok((a, n as u8))
                        } else {
                            Err(bad_subnet_prefix(s, max))
                        },
                        None => Err(bad_subnet_prefix(s, max)),
                    }
                } else {
                    Ok((a, if a is V4 { 24u8 } else { 56u8 }))
                }
            },
            None => Err(bad_subnet_address(s)),
        }
    }
}

/// Parses a `+subnet=` value.
pub fn parse_subnet(spec: &str) -> (r: Result<(IpAddress, u8), DnsError>)
    ensures
        match r {
            Ok(x) => spec_parse_subnet(spec@) == Ok::<(IpAddress, u8), Seq<char>>(x),
            Err(e) => spec_parse_subnet(spec@) matches Err(m) && (e matches DnsError::Usage(t)
                && t@ == m),
        },
{
    let v = chars_of(spec);
    let n = v.len();
    if n == 1 && v[0] == '0' {
        assert(spec@ =~= seq!['0']);
        let z = crate::protocol::addr::Ipv4Addr { octets: [0u8, 0u8, 0u8, 0u8] };
        return Ok((IpAddress::V4(z), 0));
    }
    assert(spec@ != seq!['0']) by {
        if spec@ == seq!['0'] {
            assert(v@.len() == 1 && v@[0] == '0');
        }
    }
    let mut k: usize = 0;
    let mut found = false;
    while k < n && !found
        invariant
            n == v@.len(),
            v@ == spec@,
            k <= n,
            found ==> k < n && first_slash(v@) == k as int,
            !found ==> first_slash(v@.take(k as int)) == -1,
        decreases (n - k) as int + if found { 0int } else { 1int },
    {
        proof {
            assert(v@.take(k + 1).drop_last() =~= v@.take(k as int));
        }
        if v[k] == '/' {
            proof {
                lemma_first_slash_extend(v@, k as int);
            }
            found = true;
        } else {
            k = k + 1;
        }
    }
    if !found {
        assert(v@.take(k as int) =~= v@);
    }
    let mut addr_chars: Vec<char> = Vec::new();
    let mut j: usize = 0;
    while j < k
        invariant
            k <= n,
            n == v@.len(),
            j <= k,
            addr_chars@ == v@.take(j as int),
        decreases k - j,
    {
        addr_chars.push(v[j]);
        j = j + 1;
        assert(addr_chars@ =~= v@.take(j as int));
    }
    if !found {
        assert(v@.take(k as int) =~= v@);
    }
    let addr_text = string_of(&addr_chars);
    let a = match parse_ip(addr_text.as_str()) {
        Some(a) => a,
        None => {
            let mut m = String::new();
            push_str(&mut m, "invalid subnet address: ");
            push_str(&mut m, spec);
            return Err(DnsError::Usage(m));
        },
    };
    proof {
        lemma_parse_ip_exec(addr_text@, a);
    }
    let is_v4 = match a {
        IpAddress::V4(_) => true,
        IpAddress::V6(_) => false,
    };
    let max: u64 = if is_v4 { 32 } else { 128 };
    if !found {
        return Ok((a, if is_v4 { 24u8 } else { 56u8 }));
    }
    let mut rest: Vec<char> = Vec::new();
    let mut q: usize = k + 1;
    while q < n
        invariant
            k < n,
            n == v@.len(),
            k + 1 <= q <= n,
            rest@ == v@.subrange(k + 1, q as int),
        decreases n - q,
    {
        rest.push(v[q]);
        q = q + 1;
        assert(rest@ =~= v@.subrange(k + 1, q as int));
    }
    assert(rest@ =~= v@.skip(k + 1));
    let rest_text = string_of(&rest);
    match parse_uint_arg(rest_text.as_str(), 255) {
        Some(p) => {
            if p <= max {
                return Ok((a, p as u8));
            }
        },
        None => {},
    }
    let mut m = String::new();
    push_str(&mut m, "invalid subnet prefix: ");
    push_str(&mut m, spec);
    push_str(&mut m, " (max /");
    push_decimal(&mut m, max);
    push_str(&mut m, " for this family)");
    Err(DnsError::Usage(m))
}

/// A `/` right after a prefix without one is the first `/`.
proof fn lemma_first_slash_extend(s: Seq<char>, k: int)
    requires
        0 <= k < s.len(),
        s[k] == '/',
        first_slash(s.take(k)) == -1,
    ensures
        first_slash(s) == k,
    decreases s.len() - k,
{
    assert(s.take(k + 1).drop_last() =~= s.take(k));
    assert(first_slash(s.take(k + 1)) == k);
    lemma_first_slash_prefix(s, k + 1);
}

/// Once a prefix has a `/`, longer prefixes have the same first one.
proof fn lemma_first_slash_prefix(s: Seq<char>, m: int)
    requires
        0 <= m <= s.len(),
        first_slash(s.take(m)) >= 0,
    ensures
        first_slash(s) == first_slash(s.take(m)),
    decreases s.len() - m,
{
    if m < s.len() {
        assert(s.take(m + 1).drop_last() =~= s.take(m));
        lemma_first_slash_prefix(s, m + 1);
    } else {
        assert(s.take(m) =~= s);
    }
}

/// Whether two strings are equal.
pub fn str_eq_str(a: &str, b: &str) -> (r: bool)
    ensures
        r == (a@ == b@),
{
    let x = chars_of(a);
    let y = chars_of(b);
    crate::text::chars_eq(&x, &y)
}

/// The `+` options that take no value.
#[derive(Debug, Clone, Copy, PartialEq, Eq, Structural)]
pub enum PlusFlag {
    Short,
    Color,
    NoColor,
    Tcp,
    NoTcp,
    Recurse,
    NoRecurse,
    Authority,
    NoAuthority,
    Additional,
    NoAdditional,
    Trace,
    Dnssec,
    Json,
    Yaml,
    Tsv,
    Compat,
    Dot,
    Edns,
    NoEdns,
    Bench,
    Propagation,
    Prop,
    Nsid,
    Qr,
    NoQr,
    Stats,
    NoStats,
    Watch,
    Doh,
}

/// The flag an argument names, if any.
pub open spec fn plus_flag_of(arg: Seq<char>) -> Option<PlusFlag> {
    if arg == "+short"@ {
        Some(PlusFlag::Short)
    } else if arg == "+color"@ {
        Some(PlusFlag::Color)
    } else if arg == "+nocolor"@ {
        Some(PlusFlag::NoColor)
    } else if arg == "+tcp"@ {
        Some(PlusFlag::Tcp)
    } else if arg == "+notcp"@ {
        Some(PlusFlag::NoTcp)
    } else if arg == "+recurse"@ {
        Some(PlusFlag::Recurse)
    } else if arg == "+norecurse"@ {
        Some(PlusFlag::NoRecurse)
    } else if arg == "+authority"@ {
        Some(PlusFlag::Authority)
    } else if arg == "+noauthority"@ {
        Some(PlusFlag::NoAuthority)
    } else if arg == "+additional"@ {
        Some(PlusFlag::Additional)
    } else if arg == "+noadditional"@ {
        Some(PlusFlag::NoAdditional)
    } else if arg == "+trace"@ {
        Some(PlusFlag::Trace)
    } else if arg == "+dnssec"@ {
        Some(PlusFlag::Dnssec)
    } else if arg == "+json"@ {
        Some(PlusFlag::Json)
    } else if arg == "+yaml"@ {
        Some(PlusFlag::Yaml)
    } else if arg == "+tsv"@ {
        Some(PlusFlag::Tsv)
    } else if arg == "+compat"@ {
        Some(PlusFlag::Compat)
    } else if arg == "+dot"@ {
        Some(PlusFlag::Dot)
    } else if arg == "+edns"@ {
        Some(PlusFlag::Edns)
    } else if arg == "+noedns"@ {
        Some(PlusFlag::NoEdns)
    } else if arg == "+bench"@ {
        Some(PlusFlag::Bench)
    } else if arg == "+propagation"@ {
        Some(PlusFlag::Propagation)
    } else if arg == "+prop"@ {
        Some(PlusFlag::Prop)
    } else if arg == "+nsid"@ {
        Some(PlusFlag::Nsid)
    } else if arg == "+qr"@ {
        Some(PlusFlag::Qr)
    } else if arg == "+noqr"@ {
        Some(PlusFlag::NoQr)
    } else if arg == "+stats"@ {
        Some(PlusFlag::Stats)
    } else if arg == "+nostats"@ {
        Some(PlusFlag::NoStats)
    } else if arg == "+watch"@ {
        Some(PlusFlag::Watch)
    } else if arg == "+doh"@ {
        Some(PlusFlag::Doh)
    } else {
        None
    }
}

/// The settings after a flag: the one setting that the flag names changes
/// (`+doh` changes no setting: it sets the endpoint text).
pub open spec fn apply_flag(st: Settings, f: PlusFlag) -> Settings {
    match f {
        PlusFlag::Short => Settings { short: true, ..st },
        PlusFlag::Color => Settings { color: ColorMode::Always, ..st },
        PlusFlag::NoColor => Settings { color: ColorMode::Never, ..st },
        PlusFlag::Tcp => Settings { tcp: Some(true), ..st },
        PlusFlag::NoTcp => Settings { tcp: Some(false), ..st },
        PlusFlag::Recurse => Settings { recurse: true, ..st },
        PlusFlag::NoRecurse => Settings { recurse: false, ..st },
        PlusFlag::Authority => Settings { show_authority: true, ..st },
        PlusFlag::NoAuthority => Settings { show_authority: false, ..st },
        PlusFlag::Additional => Settings { show_additional: true, ..st },
        PlusFlag::NoAdditional => Settings { show_additional: false, ..st },
        PlusFlag::Trace => Settings { trace: true, ..st },
        PlusFlag::Dnssec => Settings { dnssec: true, ..st },
        PlusFlag::Json => Settings { json: true, ..st },
        PlusFlag::Yaml => Settings { yaml: true, ..st },
        PlusFlag::Tsv => Settings { tsv: true, ..st },
        PlusFlag::Compat => Settings { compat: true, ..st },
        PlusFlag::Dot => Settings { dot: true, ..st },
        PlusFlag::Edns => Settings { edns: true, ..st },
        PlusFlag::NoEdns => Settings { edns: false, ..st },
        PlusFlag::Bench => Settings { bench: Some(100), ..st },
        PlusFlag::Propagation => Settings { propagation: true, ..st },
        PlusFlag::Prop => Settings { propagation: true, ..st },
        PlusFlag::Nsid => Settings { nsid: true, ..st },
        PlusFlag::Qr => Settings { qr: true, ..st },
        PlusFlag::NoQr => Settings { qr: false, ..st },
        PlusFlag::Stats => Settings { stats: true, ..st },
        PlusFlag::NoStats => Settings { stats: false, ..st },
        PlusFlag::Watch => Settings { watch: Some(2), ..st },
        PlusFlag::Doh => st,
    }
}

/// The flag an argument names, if any.
pub fn flag_of(arg: &str) -> (r: Option<PlusFlag>)
    ensures
        r == plus_flag_of(arg@),
{
    if str_eq_str(arg, "+short") {
        Some(PlusFlag::Short)
    } else if str_eq_str(arg, "+color") {
        Some(PlusFlag::Color)
    } else if str_eq_str(arg, "+nocolor") {
        Some(PlusFlag::NoColor)
    } else if str_eq_str(arg, "+tcp") {
        Some(PlusFlag::Tcp)
    } else if str_eq_str(arg, "+notcp") {
        Some(PlusFlag::NoTcp)
    } else if str_eq_str(arg, "+recurse") {
        Some(PlusFlag::Recurse)
    } else if str_eq_str(arg, "+norecurse") {
        Some(PlusFlag::NoRecurse)
    } else if str_eq_str(arg, "+authority") {
        Some(PlusFlag::Authority)
    } else if str_eq_str(arg, "+noauthority") {
        Some(PlusFlag::NoAuthority)
    } else if str_eq_str(arg, "+additional") {
        Some(PlusFlag::Additional)
    } else if str_eq_str(arg, "+noadditional") {
        Some(PlusFlag::NoAdditional)
    } else if str_eq_str(arg, "+trace") {
        Some(PlusFlag::Trace)
    } else if str_eq_str(arg, "+dnssec") {
        Some(PlusFlag::Dnssec)
    } else if str_eq_str(arg, "+json") {
        Some(PlusFlag::Json)
    } else if str_eq_str(arg, "+yaml") {
        Some(PlusFlag::Yaml)
    } else if str_eq_str(arg, "+tsv") {
        Some(PlusFlag::Tsv)
    } else if str_eq_str(arg, "+compat") {
        Some(PlusFlag::Compat)
    } else if str_eq_str(arg, "+dot") {
        Some(PlusFlag::Dot)
    } else if str_eq_str(arg, "+edns") {
        Some(PlusFlag::Edns)
    } else if str_eq_str(arg, "+noedns") {
        Some(PlusFlag::NoEdns)
    } else if str_eq_str(arg, "+bench") {
        Some(PlusFlag::Bench)
    } else if str_eq_str(arg, "+propagation") {
        Some(PlusFlag::Propagation)
    } else if str_eq_str(arg, "+prop") {
        Some(PlusFlag::Prop)
    } else if str_eq_str(arg, "+nsid") {
        Some(PlusFlag::Nsid)
    } else if str_eq_str(arg, "+qr") {
        Some(PlusFlag::Qr)
    } else if str_eq_str(arg, "+noqr") {
        Some(PlusFlag::NoQr)
    } else if str_eq_str(arg, "+stats") {
        Some(PlusFlag::Stats)
    } else if str_eq_str(arg, "+nostats") {
        Some(PlusFlag::NoStats)
    } else if str_eq_str(arg, "+watch") {
        Some(PlusFlag::Watch)
    } else if str_eq_str(arg, "+doh") {
        Some(PlusFlag::Doh)
    } else {
        None
    }
}

/// Applies a flag to settings.
fn apply_flag_exec(st: Settings, f: PlusFlag) -> (r: Settings)
    ensures
        r == apply_flag(st, f),
{
    match f {
        PlusFlag::Short => Settings { short: true, ..st },
        PlusFlag::Color => Settings { color: ColorMode::Always, ..st },
        PlusFlag::NoColor => Settings { color: ColorMode::Never, ..st },
        PlusFlag::Tcp => Settings { tcp: Some(true), ..st },
        PlusFlag::NoTcp => Settings { tcp: Some(false), ..st },
        PlusFlag::Recurse => Settings { recurse: true, ..st },
        PlusFlag::NoRecurse => Settings { recurse: false, ..st },
        PlusFlag::Authority => Settings { show_authority: true, ..st },
        PlusFlag::NoAuthority => Settings { show_authority: false, ..st },
        PlusFlag::Additional => Settings { show_additional: true, ..st },
        PlusFlag::NoAdditional => Settings { show_additional: false, ..st },
        PlusFlag::Trace => Settings { trace: true, ..st },
        PlusFlag::Dnssec => Settings { dnssec: true, ..st },
        PlusFlag::Json => Settings { json: true, ..st },
        PlusFlag::Yaml => Settings { yaml: true, ..st },
        PlusFlag::Tsv => Settings { tsv: true, ..st },
        PlusFlag::Compat => Settings { compat: true, ..st },
        PlusFlag::Dot => Settings { dot: true, ..st },
        PlusFlag::Edns => Settings { edns: true, ..st },
        PlusFlag::NoEdns => Settings { edns: false, ..st },
        PlusFlag::Bench => Settings { bench: Some(100), ..st },
        PlusFlag::Propagation => Settings { propagation: true, ..st },
        PlusFlag::Prop => Settings { propagation: true, ..st },
        PlusFlag::Nsid => Settings { nsid: true, ..st },
        PlusFlag::Qr => Settings { qr: true, ..st },
        PlusFlag::NoQr => Settings { qr: false, ..st },
        PlusFlag::Stats => Settings { stats: true, ..st },
        PlusFlag::NoStats => Settings { stats: false, ..st },
        PlusFlag::Watch => Settings { watch: Some(2), ..st },
        PlusFlag::Doh => st,
    }
}

/// The value after `prefix` when `arg` starts with it.
pub open spec fn value_after(arg: Seq<char>, prefix: Seq<char>) -> Option<Seq<char>> {
    if has_prefix(arg, prefix) {
        Some(arg.skip(prefix.len() as int))
    } else {
        None
    }
}

/// The value after `prefix`, when `arg` starts with it.
fn strip_prefix_str(arg: &str, prefix: &str) -> (r: Option<String>)
    ensures
        match r {
            Some(t) => value_after(arg@, prefix@) == Some(t@),
            None => value_after(arg@, prefix@) is None,
        },
{
    let a = chars_of(arg);
    let p = chars_of(prefix);
    if !starts_with_chars(&a, &p) {
        return None;
    }
    let mut rest: Vec<char> = Vec::new();
    let mut i: usize = p.len();
    while i < a.len()
        invariant
            p@.len() <= i <= a@.len(),
            rest@ == a@.subrange(p@.len() as int, i as int),
        decreases a@.len() - i,
    {
        rest.push(a[i]);
        i = i + 1;
        assert(rest@ =~= a@.subrange(p@.len() as int, i as int));
    }
    assert(rest@ =~= a@.skip(p@.len() as int));
    Some(string_of(&rest))
}

/// A usage error with a message and a value after it.
fn usage_with(msg: &str, value: &str) -> (r: DnsError)
    ensures
        r matches DnsError::Usage(m) && m@ == msg@ + value@,
{
    let mut m = String::new();
    push_str(&mut m, msg);
    push_str(&mut m, value);
    DnsError::Usage(m)
}

/// A usage error with the given message.
fn usage(msg: &str) -> (r: DnsError)
    ensures
        r matches DnsError::Usage(m) && m@ == msg@,
{
    let mut m = String::new();
    push_str(&mut m, msg);
    DnsError::Usage(m)
}

/// The effect of a `+` option on the settings and the DoH endpoint:
/// `+timeout=N`, `+bench=N`, `+watch=N` (N > 0), `+doh=URL`, `+retry=N`,
/// `+subnet=...`, or a flag; anything else is an unknown option. An error
/// carries its message.
pub open spec fn plus_option(st: Settings, doh: Option<Seq<char>>, arg: Seq<char>) -> Result<(Settings, Option<Seq<char>>), Seq<char>> {
    if let Some(f) = plus_flag_of(arg) {
        Ok((apply_flag(st, f), if f is Doh { Some(Seq::empty()) } else { doh }))
    } else if let Some(t) = value_after(arg, "+timeout="@) {
        match parse_uint(t, u64::MAX as nat) {
            Some(n) => if n == 0 {
                Err("timeout must be > 0"@)
            } else {
                Ok((Settings { timeout: n as u64, ..st }, doh))
            },
            None => Err("invalid timeout: "@ + t),
        }
    } else if let Some(t) = value_after(arg, "+bench="@) {
        match parse_uint(t, usize::MAX as nat) {
            Some(n) => if n == 0 {
                Err("bench count must be > 0"@)
            } else {
                Ok((Settings { bench: Some(n as usize), ..st }, doh))
            },
            None => Err("invalid bench count: "@ + t),
        }
    } else if let Some(t) = value_after(arg, "+watch="@) {
        match parse_uint(t, u64::MAX as nat) {
            Some(n) => if n == 0 {
                Err("watch interval must be > 0"@)
            } else {
                Ok((Settings { watch: Some(n as u64), ..st }, doh))
            },
            None => Err("invalid watch interval: "@ + t),
        }
    } else if let Some(t) = value_after(arg, "+doh="@) {
        Ok((st, Some(t)))
    } else if let Some(t) = value_after(arg, "+retry="@) {
        match parse_uint(t, u32::MAX as nat) {
            Some(n) => Ok((Settings { retry: n as u32, ..st }, doh)),
            None => Err("invalid retry count: "@ + t),
        }
    } else if let Some(t) = value_after(arg, "+subnet="@) {
        match spec_parse_subnet(t) {
            Ok(x) => Ok((Settings { subnet: Some(x), ..st }, doh)),
            Err(m) => Err(m),
        }
    } else {
        Err("unknown option: "@ + arg)
    }
}

/// What applying a `+` option gives: on success the settings and endpoint
/// the spec names, on error a usage error with the spec's message.
pub open spec fn plus_result(
    r: Result<(Settings, Option<String>), DnsError>,
    want: Result<(Settings, Option<Seq<char>>), Seq<char>>,
) -> bool {
    match want {
        Ok((s, d)) => r matches Ok((x, y)) && x == s && opt_str(y) == d,
        Err(m) => r matches Err(DnsError::Usage(t)) && t@ == m,
    }
}

/// Applies a `+` option to settings and the DoH endpoint.
pub fn parse_plus_option(st: Settings, doh: Option<String>, arg: &str) -> (r: Result<(Settings, Option<String>), DnsError>)
    ensures
        plus_result(r, plus_option(st, opt_str(doh), arg@)),
{
    if let Some(f) = flag_of(arg) {
        let st2 = apply_flag_exec(st, f);
        return match f {
            PlusFlag::Doh => Ok((st2, Some(String::new()))),
            _ => Ok((st2, doh)),
        };
    }
    if let Some(t) = strip_prefix_str(arg, "+timeout=") {
        return match parse_uint_arg(t.as_str(), u64::MAX) {
            Some(n) => if n == 0 {
                Err(usage("timeout must be > 0"))
            } else {
                Ok((Settings { timeout: n, ..st }, doh))
            },
            None => Err(usage_with("invalid timeout: ", t.as_str())),
        };
    }
    if let Some(t) = strip_prefix_str(arg, "+bench=") {
        return match parse_uint_arg(t.as_str(), usize::MAX as u64) {
            Some(n) => if n == 0 {
                Err(usage("bench count must be > 0"))
            } else {
                Ok((Settings { bench: Some(n as usize), ..st }, doh))
            },
            None => Err(usage_with("invalid bench count: ", t.as_str())),
        };
    }
    if let Some(t) = strip_prefix_str(arg, "+watch=") {
        return match parse_uint_arg(t.as_str(), u64::MAX) {
            Some(n) => if n == 0 {
                Err(usage("watch interval must be > 0"))
            } else {
                Ok((Settings { watch: Some(n), ..st }, doh))
            },
            None => Err(usage_with("invalid watch interval: ", t.as_str())),
        };
    }
    if let Some(t) = strip_prefix_str(arg, "+doh=") {
        return Ok((st, Some(t)));
    }
    if let Some(t) = strip_prefix_str(arg, "+retry=") {
        return match parse_uint_arg(t.as_str(), u32::MAX as u64) {
            Some(n) => Ok((Settings { retry: n as u32, ..st }, doh)),
            None => Err(usage_with("invalid retry count: ", t.as_str())),
        };
    }
    if let Some(t) = strip_prefix_str(arg, "+subnet=") {
        return match parse_subnet(t.as_str()) {
            Ok(x) => Ok((Settings { subnet: Some(x), ..st }, doh)),
            Err(e) => Err(e),
        };
    }
    Err(usage_with("unknown option: ", arg))
}

/// Whether a string starts with `c`.
fn first_char_is(s: &str, c: char) -> (r: bool)
    ensures
        r == (s@.len() > 0 && s@[0] == c),
{
    let v = chars_of(s);
    v.len() > 0 && v[0] == c
}

/// A string without its first character.
fn drop_first_char(s: &str) -> (r: String)
    requires
        s@.len() > 0,
    ensures
        r@ == s@.drop_first(),
{
    let v = chars_of(s);
    let mut rest: Vec<char> = Vec::new();
    let mut j: usize = 1;
    while j < v.len()
        invariant
            1 <= j <= v@.len(),
            v@ == s@,
            rest@ == v@.subrange(1, j as int),
        decreases v@.len() - j,
    {
        rest.push(v[j]);
        j = j + 1;
        assert(rest@ =~= v@.subrange(1, j as int));
    }
    assert(rest@ =~= s@.drop_first());
    string_of(&rest)
}

/// What has been read from the arguments so far.
pub ghost struct ArgScan {
    pub settings: Settings,
    pub servers: Seq<Seq<char>>,
    pub reverse: Option<Seq<char>>,
    pub batch_file: Option<Seq<char>>,
    pub doh: Option<Seq<char>>,
    pub positionals: Seq<Seq<char>>,
}

/// Nothing read yet.
pub open spec fn initial_scan() -> ArgScan {
    ArgScan {
        settings: default_settings(),
        servers: Seq::empty(),
        reverse: None,
        batch_file: None,
        doh: None,
        positionals: Seq::empty(),
    }
}

/// The message for an unknown class.
pub open spec fn bad_class_text(c: Seq<char>) -> Seq<char> {
    "invalid class: "@ + c + " (expected IN, CH, HS, ANY, or CLASS<N>)"@
}

/// Reading the argument at `i`: the new state, the index of the next
/// argument, and whether reading stops there (`--help`, `--version`); or
/// the message of a usage error. `-x`, `-p`, `-c` and `-f` take the next
/// argument as their value; `@server` adds a server; `+...` is a `+`
/// option; any other argument starting with `-` is unknown; the rest are
/// positional.
pub open spec fn scan_arg(s: ArgScan, args: Seq<Seq<char>>, i: int) -> Result<(ArgScan, int, bool), Seq<char>> {
    let arg = args[i];
    let has_value = i + 1 < args.len();
    if arg == "--help"@ || arg == "-h"@ {
        Ok((ArgScan { settings: Settings { show_help: true, ..s.settings }, ..s }, i + 1, true))
    } else if arg == "--version"@ || arg == "-V"@ {
        Ok((ArgScan { settings: Settings { show_version: true, ..s.settings }, ..s }, i + 1, true))
    } else if arg == "-x"@ {
        if has_value {
            Ok((ArgScan { reverse: Some(args[i + 1]), ..s }, i + 2, false))
        } else {
            Err("-x requires an address argument"@)
        }
    } else if arg == "-p"@ {
        if !has_value {
            Err("-p requires a port argument"@)
        } else {
            match parse_uint(args[i + 1], 65535) {
                Some(n) => Ok((ArgScan { settings: Settings { port: n as u16, ..s.settings }, ..s }, i + 2, false)),
                None => Err("invalid port: "@ + args[i + 1]),
            }
        }
    } else if arg == "-c"@ {
        if !has_value {
            Err("-c requires a class argument"@)
        } else {
            match spec_parse_class_upper(unicode_upper(args[i + 1])) {
                Some(c) => Ok((ArgScan { settings: Settings { qclass: c, ..s.settings }, ..s }, i + 2, false)),
                None => Err(bad_class_text(args[i + 1])),
            }
        }
    } else if arg == "-f"@ {
        if has_value {
            Ok((ArgScan { batch_file: Some(args[i + 1]), ..s }, i + 2, false))
        } else {
            Err("-f requires a filename argument"@)
        }
    } else if arg.len() > 0 && arg[0] == '@' {
        Ok((ArgScan { servers: s.servers.push(arg.drop_first()), ..s }, i + 1, false))
    } else if arg.len() > 0 && arg[0] == '+' {
        match plus_option(s.settings, s.doh, arg) {
            Ok((st, d)) => Ok((ArgScan { settings: st, doh: d, ..s }, i + 1, false)),
            Err(m) => Err(m),
        }
    } else if arg.len() > 0 && arg[0] == '-' {
        Err("unknown option: "@ + arg)
    } else {
        Ok((ArgScan { positionals: s.positionals.push(arg), ..s }, i + 1, false))
    }
}

/// Reading the arguments from index `i` on: the final state and whether
/// reading stopped early, or the first usage error.
pub open spec fn scan_from(s: ArgScan, args: Seq<Seq<char>>, i: nat) -> Result<(ArgScan, bool), Seq<char>>
    decreases args.len() - i,
{
    if i >= args.len() {
        Ok((s, false))
    } else {
        match scan_arg(s, args, i as int) {
            Ok((t, j, stop)) => if stop {
                Ok((t, true))
            } else if i < j <= args.len() {
                scan_from(t, args, j as nat)
            } else {
                Ok((t, false))
            },
            Err(m) => Err(m),
        }
    }
}

/// What has been read of the positional arguments: whether one named a
/// type, a type waiting for its name, names and types not yet paired, and
/// the queries paired so far.
pub ghost struct PosScan {
    pub explicit: bool,
    pub pending: Option<RecordType>,
    pub names: Seq<Seq<char>>,
    pub types: Seq<RecordType>,
    pub queries: Seq<(RecordType, Seq<char>)>,
}

/// The message for a `TYPE<N>` whose number is out of range.
pub open spec fn bad_type_text(t: Seq<char>) -> Seq<char> {
    "invalid record type: "@ + t + " (TYPE value must be 0-65535)"@
}

/// Reading one positional argument: a type waits for the next name (a
/// type already waiting is kept for later); a name pairs with a waiting
/// type or is kept; a `TYPE<N>` out of range is an error.
pub open spec fn pos_step(p: PosScan, t: Seq<char>) -> Result<PosScan, Seq<char>> {
    match spec_parse_type_upper(unicode_upper(t)) {
        Some(rt) => Ok(
            PosScan {
                explicit: true,
                pending: Some(rt),
                types: match p.pending {
                    Some(pt) => p.types.push(pt),
                    None => p.types,
                },
                ..p
            },
        ),
        None => if numeric_type_syntax(t) {
            Err(bad_type_text(t))
        } else {
            match p.pending {
                Some(pt) => Ok(PosScan { pending: None, queries: p.queries.push((pt, t)), ..p }),
                None => Ok(PosScan { names: p.names.push(t), ..p }),
            }
        },
    }
}

/// Reading positional arguments in order.
pub open spec fn pos_scan(ps: Seq<Seq<char>>) -> Result<PosScan, Seq<char>>
    decreases ps.len(),
{
    if ps.len() == 0 {
        Ok(PosScan { explicit: false, pending: None, names: Seq::empty(), types: Seq::empty(), queries: Seq::empty() })
    } else {
        match pos_scan(ps.drop_last()) {
            Ok(p) => pos_step(p, ps.last()),
            Err(m) => Err(m),
        }
    }
}

/// The query for a name left unpaired: an address becomes its reverse
/// lookup unless some positional argument named a type.
pub open spec fn name_query(n: Seq<char>, explicit: bool) -> (RecordType, Seq<char>) {
    match spec_parse_ip(n) {
        Some(a) => if explicit {
            (RecordType::A, n)
        } else {
            (RecordType::PTR, reverse_text(a))
        },
        None => (RecordType::A, n),
    }
}

/// The queries that positional arguments ask for: pairs in order, then a
/// waiting type with the first unpaired name (or kept for later), then
/// each unpaired name, then each unpaired type with the first query's name
/// (the root if there is none).
#[verifier::opaque]
pub open spec fn positional_queries(ps: Seq<Seq<char>>) -> Result<Seq<(RecordType, Seq<char>)>, Seq<char>> {
    match pos_scan(ps) {
        Err(m) => Err(m),
        Ok(p) => {
            let q1 = match p.pending {
                Some(pt) => if p.names.len() > 0 {
                    p.queries.push((pt, p.names[0]))
                } else {
                    p.queries
                },
                None => p.queries,
            };
            let names = match p.pending {
                Some(pt) => if p.names.len() > 0 {
                    p.names.drop_first()
                } else {
                    p.names
                },
                None => p.names,
            };
            let types = match p.pending {
                Some(pt) => if p.names.len() > 0 {
                    p.types
                } else {
                    p.types.push(pt)
                },
                None => p.types,
            };
            let q2 = q1 + names.map_values(|n: Seq<char>| name_query(n, p.explicit));
            let first = if q2.len() > 0 {
                q2[0].1
            } else {
                seq!['.']
            };
            Ok(q2 + types.map_values(|t: RecordType| (t, first)))
        },
    }
}

/// The query for a name left unpaired.
fn name_query_exec(name: &String, explicit: bool) -> (r: (RecordType, String))
    ensures
        r.0 == name_query(name@, explicit).0,
        r.1@ == name_query(name@, explicit).1,
{
    if !explicit {
        if let Some(a) = parse_ip(name.as_str()) {
            proof {
                lemma_parse_ip_exec(name@, a);
            }
            return (RecordType::PTR, reverse_of(&a));
        }
    }
    (RecordType::A, name.clone())
}

/// Once a prefix of the positional arguments holds an error, so do all
/// longer prefixes, with the same message.
proof fn lemma_pos_scan_err(ps: Seq<Seq<char>>, k: int)
    requires
        0 <= k <= ps.len(),
        pos_scan(ps.take(k)) is Err,
    ensures
        pos_scan(ps) == pos_scan(ps.take(k)),
    decreases ps.len() - k,
{
    if k < ps.len() {
        assert(ps.take(k + 1).drop_last() =~= ps.take(k));
        lemma_pos_scan_err(ps, k + 1);
    } else {
        assert(ps.take(k) =~= ps);
    }
}

/// A usage error for a `TYPE<N>` out of range.
fn bad_type_error(t: &str) -> (r: DnsError)
    ensures
        r matches DnsError::Usage(m) && m@ == bad_type_text(t@),
{
    let mut m = String::new();
    push_str(&mut m, "invalid record type: ");
    push_str(&mut m, t);
    push_str(&mut m, " (TYPE value must be 0-65535)");
    DnsError::Usage(m)
}

/// The queries that positional arguments ask for; a `TYPE<N>` out of range
/// is a usage error.
pub fn resolve_queries_from_positionals(positionals: &Vec<String>) -> (r: Result<Vec<(RecordType, String)>, DnsError>)
    ensures
        match r {
            Ok(q) => positional_queries(strings_view(positionals@)) == Ok::<Seq<(RecordType, Seq<char>)>, Seq<char>>(queries_view(q@)),
            Err(e) => positional_queries(strings_view(positionals@)) matches Err(m) && (e matches DnsError::Usage(t) && t@ == m),
        },
{
    reveal(positional_queries);
    let ghost pv = strings_view(positionals@);
    let mut explicit = false;
    let mut pending: Option<RecordType> = None;
    let mut names: Vec<String> = Vec::new();
    let mut types: Vec<RecordType> = Vec::new();
    let mut queries: Vec<(RecordType, String)> = Vec::new();
    let n = positionals.len();
    let mut i: usize = 0;
    assert(pv.take(0) =~= Seq::<Seq<char>>::empty());
    assert(strings_view(names@) =~= Seq::<Seq<char>>::empty());
    assert(queries_view(queries@) =~= Seq::<(RecordType, Seq<char>)>::empty());
    while i < n
        invariant
            n == positionals@.len(),
            pv == strings_view(positionals@),
            i <= n,
            pos_scan(pv.take(i as int)) == Ok::<PosScan, Seq<char>>(
                PosScan {
                    explicit,
                    pending,
                    names: strings_view(names@),
                    types: types@,
                    queries: queries_view(queries@),
                },
            ),
        decreases n - i,
    {
        let pos = &positionals[i];
        proof {
            assert(pv.take(i + 1).drop_last() =~= pv.take(i as int));
            assert(pv.take(i + 1).last() == pos@);
        }
        match RecordType::parse_name(pos.as_str()) {
            Some(rt) => {
                explicit = true;
                if let Some(pt) = pending {
                    types.push(pt);
                }
                pending = Some(rt);
            },
            None => {
                if is_numeric_type_syntax(pos.as_str()) {
                    proof {
                        let pi = PosScan {
                            explicit,
                            pending,
                            names: strings_view(names@),
                            types: types@,
                            queries: queries_view(queries@),
                        };
                        assert(pos_step(pi, pos@) == Err::<PosScan, Seq<char>>(bad_type_text(pos@)));
                        assert(pos_scan(pv.take(i + 1)) == Err::<PosScan, Seq<char>>(bad_type_text(pos@)));
                        lemma_pos_scan_err(pv, i + 1);
                        reveal(positional_queries);
                        assert(positional_queries(pv) == Err::<Seq<(RecordType, Seq<char>)>, Seq<char>>(bad_type_text(pos@)));
                    }
                    return Err(bad_type_error(pos.as_str()));
                }
                match pending {
                    Some(pt) => {
                        let ghost before = queries@;
                        queries.push((pt, pos.clone()));
                        assert(queries_view(queries@) =~= queries_view(before).push((pt, pos@)));
                        pending = None;
                    },
                    None => {
                        let ghost before = names@;
                        names.push(pos.clone());
                        assert(strings_view(names@) =~= strings_view(before).push(pos@));
                    },
                }
            },
        }
        i = i + 1;
    }
    assert(pv.take(n as int) =~= pv);
    let ghost p = PosScan {
        explicit,
        pending,
        names: strings_view(names@),
        types: types@,
        queries: queries_view(queries@),
    };
    if let Some(pt) = pending {
        if names.len() > 0 {
            let ghost qb = queries@;
            let ghost nb = names@;
            let first = names.remove(0);
            queries.push((pt, first));
            assert(queries_view(queries@) =~= queries_view(qb).push((pt, p.names[0])));
            assert(strings_view(names@) =~= p.names.drop_first());
        } else {
            types.push(pt);
        }
    }
    let ghost q1 = queries_view(queries@);
    let ghost names1 = strings_view(names@);
    let ghost types1 = types@;
    let mut k: usize = 0;
    while k < names.len()
        invariant
            names1 == strings_view(names@),
            k <= names@.len(),
            queries_view(queries@) == q1 + names1.take(k as int).map_values(|n: Seq<char>| name_query(n, explicit)),
        decreases names@.len() - k,
    {
        let ghost before = queries@;
        let q = name_query_exec(&names[k], explicit);
        queries.push(q);
        proof {
            assert(names1.take(k + 1) =~= names1.take(k as int).push(names1[k as int]));
            assert(names1.take(k + 1).map_values(|n: Seq<char>| name_query(n, explicit)) =~= names1.take(
                k as int,
            ).map_values(|n: Seq<char>| name_query(n, explicit)).push(name_query(names1[k as int], explicit)));
            assert(queries_view(queries@) =~= queries_view(before).push((q.0, q.1@)));
        }
        k = k + 1;
    }
    assert(names1.take(k as int) =~= names1);
    let ghost q2 = queries_view(queries@);
    let first: String = if queries.len() > 0 {
        queries[0].1.clone()
    } else {
        string_of(&vec!['.'])
    };
    proof {
        if queries@.len() == 0 {
            assert(first@ =~= seq!['.']);
        }
    }
    let mut m: usize = 0;
    while m < types.len()
        invariant
            types1 == types@,
            m <= types@.len(),
            first@ == (if q2.len() > 0 { q2[0].1 } else { seq!['.'] }),
            queries_view(queries@) == q2 + types1.take(m as int).map_values(|t: RecordType| (t, first@)),
        decreases types@.len() - m,
    {
        let ghost before = queries@;
        queries.push((types[m], first.clone()));
        proof {
            assert(types1.take(m + 1).map_values(|t: RecordType| (t, first@)) =~= types1.take(
                m as int,
            ).map_values(|t: RecordType| (t, first@)).push((types1[m as int], first@)));
            assert(queries_view(queries@) =~= queries_view(before).push((types1[m as int], first@)));
        }
        m = m + 1;
    }
    assert(types1.take(m as int) =~= types1);
    proof {
        let spec_first = if q2.len() > 0 { q2[0].1 } else { seq!['.'] };
        assert(types1.map_values(|t: RecordType| (t, first@)) =~= types1.map_values(|t: RecordType| (t, spec_first)));
    }
    Ok(queries)
}

/// What the command line asks for: the arguments read in order, then the
/// reverse lookup or the positional queries, then the checks made once all
/// are read.
pub open spec fn finish_scan(s: ArgScan, stopped: bool) -> Result<OptionsView, Seq<char>> {
    let base = OptionsView {
        settings: s.settings,
        servers: s.servers,
        name: seq!['.'],
        reverse: s.reverse,
        batch_file: s.batch_file,
        doh: s.doh,
        queries: Seq::empty(),
    };
    if stopped {
        Ok(base)
    } else if let Some(addr) = s.reverse {
        match spec_parse_ip(addr) {
            Some(a) => Ok(
                OptionsView {
                    settings: Settings { qtype: RecordType::PTR, ..s.settings },
                    name: reverse_text(a),
                    queries: seq![(RecordType::PTR, reverse_text(a))],
                    ..base
                },
            ),
            None => Err(bad_reverse_text(addr)),
        }
    } else {
        finish_positional(s, base)
    }
}

/// The settings once the first query is known: its type, and a zone
/// transfer when that type is AXFR.
pub open spec fn first_query_settings(st: Settings, t: RecordType) -> Settings {
    if t == RecordType::AXFR {
        Settings { qtype: t, axfr: true, ..st }
    } else {
        Settings { qtype: t, ..st }
    }
}

/// The queries to make: those given, or a query for the root.
pub open spec fn queries_or_root(q: Seq<(RecordType, Seq<char>)>, t: RecordType) -> Seq<(RecordType, Seq<char>)> {
    if q.len() == 0 {
        seq![(t, seq!['.'])]
    } else {
        q
    }
}

/// The options from positional queries: the first query gives the type
/// and name (a type-A query for the root when there is none), AXFR asks
/// for a zone transfer, and `+subnet` or `+nsid` without EDNS is an error.
pub open spec fn finish_positional(s: ArgScan, base: OptionsView) -> Result<OptionsView, Seq<char>> {
        match positional_queries(s.positionals) {
            Err(m) => Err(m),
            Ok(q) => {
                let qs = queries_or_root(q, s.settings.qtype);
                let st = first_query_settings(s.settings, qs[0].0);
                if st.subnet is Some && !st.edns {
                    Err("+subnet requires EDNS; remove +noedns"@)
                } else if st.nsid && !st.edns {
                    Err("+nsid requires EDNS; remove +noedns"@)
                } else {
                    Ok(OptionsView { settings: st, name: qs[0].1, queries: qs, ..base })
                }
            },
        }
}

/// The options that arguments give, or the message of the usage error
/// they contain.
pub open spec fn spec_parse_args(args: Seq<Seq<char>>) -> Result<OptionsView, Seq<char>> {
    match scan_from(initial_scan(), args, 0) {
        Ok((s, stopped)) => finish_scan(s, stopped),
        Err(m) => Err(m),
    }
}

/// The root name, `.`.
fn root_name() -> (r: String)
    ensures
        r@ == seq!['.'],
{
    let v = vec!['.'];
    assert(v@ =~= seq!['.']);
    string_of(&v)
}

/// What has been read from the arguments, held in exec variables.
struct ScanState {
    st: Settings,
    servers: Vec<String>,
    reverse: Option<String>,
    batch_file: Option<String>,
    doh: Option<String>,
    positionals: Vec<String>,
}

impl View for ScanState {
    type V = ArgScan;

    closed spec fn view(&self) -> ArgScan {
        ArgScan {
            settings: self.st,
            servers: strings_view(self.servers@),
            reverse: opt_str(self.reverse),
            batch_file: opt_str(self.batch_file),
            doh: opt_str(self.doh),
            positionals: strings_view(self.positionals@),
        }
    }
}

/// What reading an argument gives: the new state, the next index and
/// whether reading stops, or a usage error with the spec's message.
spec fn step_result(r: Result<(ScanState, usize, bool), DnsError>, want: Result<(ArgScan, int, bool), Seq<char>>) -> bool {
    match want {
        Ok((t, j, stop)) => r matches Ok((x, k, b)) && x@ == t && k == j && b == stop,
        Err(m) => r matches Err(DnsError::Usage(e)) && e@ == m,
    }
}

/// Reads an option that takes the next argument as its value.
fn scan_valued(args: &[String], i: usize, s: ScanState, which: char) -> (r: Result<(ScanState, usize, bool), DnsError>)
    requires
        i < args@.len(),
        which == 'x' || which == 'p' || which == 'c' || which == 'f',
        ({
            let a = strings_view(args@)[i as int];
            &&& !(a == "--help"@ || a == "-h"@)
            &&& !(a == "--version"@ || a == "-V"@)
            &&& (a == "-x"@) == (which == 'x')
            &&& which != 'x' ==> (a == "-p"@) == (which == 'p')
            &&& which != 'x' && which != 'p' ==> (a == "-c"@) == (which == 'c')
            &&& which == 'f' ==> a == "-f"@
        }),
    ensures
        step_result(r, scan_arg(s@, strings_view(args@), i as int)),
{
    let ghost av = strings_view(args@);
    let n = args.len();
    if i + 1 >= n {
        return Err(usage(if which == 'x' {
            "-x requires an address argument"
        } else if which == 'p' {
            "-p requires a port argument"
        } else if which == 'c' {
            "-c requires a class argument"
        } else {
            "-f requires a filename argument"
        }));
    }
    let v = args[i + 1].as_str();
    assert(v@ == av[i + 1]);
    if which == 'x' {
        Ok((ScanState { reverse: Some(args[i + 1].clone()), ..s }, i + 2, false))
    } else if which == 'p' {
        match parse_uint_arg(v, 65535) {
            Some(p) => Ok((ScanState { st: Settings { port: p as u16, ..s.st }, ..s }, i + 2, false)),
            None => Err(usage_with("invalid port: ", v)),
        }
    } else if which == 'c' {
        match RecordClass::parse_name(v) {
            Some(c) => Ok((ScanState { st: Settings { qclass: c, ..s.st }, ..s }, i + 2, false)),
            None => {
                let mut m = String::new();
                push_str(&mut m, "invalid class: ");
                push_str(&mut m, v);
                push_str(&mut m, " (expected IN, CH, HS, ANY, or CLASS<N>)");
                Err(DnsError::Usage(m))
            },
        }
    } else {
        Ok((ScanState { batch_file: Some(args[i + 1].clone()), ..s }, i + 2, false))
    }
}

/// Reads the argument at `i`.
fn scan_step(args: &[String], i: usize, s: ScanState) -> (r: Result<(ScanState, usize, bool), DnsError>)
    requires
        i < args@.len(),
    ensures
        step_result(r, scan_arg(s@, strings_view(args@), i as int)),
{
    let ghost av = strings_view(args@);
    let arg = args[i].as_str();
    assert(arg@ == av[i as int]);
    if str_eq_str(arg, "--help") || str_eq_str(arg, "-h") {
        return Ok((ScanState { st: Settings { show_help: true, ..s.st }, ..s }, i + 1, true));
    }
    if str_eq_str(arg, "--version") || str_eq_str(arg, "-V") {
        return Ok((ScanState { st: Settings { show_version: true, ..s.st }, ..s }, i + 1, true));
    }
    if str_eq_str(arg, "-x") {
        return scan_valued(args, i, s, 'x');
    }
    if str_eq_str(arg, "-p") {
        return scan_valued(args, i, s, 'p');
    }
    if str_eq_str(arg, "-c") {
        return scan_valued(args, i, s, 'c');
    }
    if str_eq_str(arg, "-f") {
        return scan_valued(args, i, s, 'f');
    }
    if first_char_is(arg, '@') {
        let mut t = s;
        let ghost before = t.servers@;
        t.servers.push(drop_first_char(arg));
        assert(strings_view(t.servers@) =~= strings_view(before).push(arg@.drop_first()));
        return Ok((t, i + 1, false));
    }
    if first_char_is(arg, '+') {
        return match parse_plus_option(s.st, s.doh, arg) {
            Ok((st2, d2)) => Ok((
                ScanState {
                    st: st2,
                    doh: d2,
                    servers: s.servers,
                    reverse: s.reverse,
                    batch_file: s.batch_file,
                    positionals: s.positionals,
                },
                i + 1,
                false,
            )),
            Err(e) => Err(e),
        };
    }
    if first_char_is(arg, '-') {
        return Err(usage_with("unknown option: ", arg));
    }
    let mut t = s;
    let ghost before = t.positionals@;
    t.positionals.push(args[i].clone());
    assert(strings_view(t.positionals@) =~= strings_view(before).push(arg@));
    Ok((t, i + 1, false))
}

/// Reads the command line. `--help` and `--version` stop reading and are
/// reported in the options; every other error is a usage error.
pub fn parse_args(args: &[String]) -> (r: Result<Options, DnsError>)
    ensures
        match r {
            Ok(o) => spec_parse_args(strings_view(args@)) == Ok::<OptionsView, Seq<char>>(o@),
            Err(e) => spec_parse_args(strings_view(args@)) matches Err(m) && (e matches DnsError::Usage(t) && t@ == m),
        },
{
    let ghost av = strings_view(args@);
    let st = Settings {
        qtype: RecordType::A,
        qclass: RecordClass::IN,
        port: 53,
        short: false,
        color: ColorMode::Auto,
        tcp: None,
        recurse: true,
        show_authority: true,
        show_additional: true,
        timeout: 5,
        trace: false,
        json: false,
        yaml: false,
        tsv: false,
        compat: false,
        bench: None,
        dnssec: false,
        edns: true,
        dot: false,
        axfr: false,
        propagation: false,
        watch: None,
        subnet: None,
        nsid: false,
        retry: 2,
        qr: false,
        stats: true,
        show_help: false,
        show_version: false,
    };
    let mut state = ScanState {
        st,
        servers: Vec::new(),
        reverse: None,
        batch_file: None,
        doh: None,
        positionals: Vec::new(),
    };
    let mut stopped = false;
    let n = args.len();
    let mut i: usize = 0;
    proof {
        assert(strings_view(state.servers@) =~= Seq::<Seq<char>>::empty());
        assert(strings_view(state.positionals@) =~= Seq::<Seq<char>>::empty());
        assert(state@ == initial_scan());
    }
    while i < n && !stopped
        invariant
            n == args@.len(),
            av == strings_view(args@),
            i <= n,
            scan_from(initial_scan(), av, 0) == (if stopped {
                Ok::<(ArgScan, bool), Seq<char>>((state@, true))
            } else {
                scan_from(state@, av, i as nat)
            }),
        decreases n - i + if stopped { 0int } else { 1int },
    {
        match scan_step(args, i, state) {
            Ok((t, j, stop)) => {
                state = t;
                i = j;
                stopped = stop;
            },
            Err(e) => {
                return Err(e);
            },
        }
    }
    finish_args(state, stopped)
}

/// The options after a reverse lookup with `-x`.
fn finish_reverse(st: Settings, servers: Vec<String>, addr: String, batch_file: Option<String>, doh: Option<String>) -> (r: Result<Options, DnsError>)
    ensures
        ({
            let s = ArgScan {
                settings: st,
                servers: strings_view(servers@),
                reverse: Some(addr@),
                batch_file: opt_str(batch_file),
                doh: opt_str(doh),
                positionals: Seq::empty(),
            };
            match r {
                Ok(o) => finish_scan(s, false) == Ok::<OptionsView, Seq<char>>(o@),
                Err(e) => finish_scan(s, false) matches Err(m) && (e matches DnsError::Usage(t) && t@ == m),
            }
        }),
{
    let name = match reverse_name(addr.as_str()) {
        Ok(x) => x,
        Err(e) => {
            return Err(e);
        },
    };
    let mut qs: Vec<(RecordType, String)> = Vec::new();
    qs.push((RecordType::PTR, name.clone()));
    let st2 = Settings { qtype: RecordType::PTR, ..st };
    let o = assemble(st2, servers, name, Some(addr), batch_file, doh, qs);
    assert(o@.queries =~= seq![(RecordType::PTR, o@.name)]);
    Ok(o)
}

/// The settings once the first query is known.
fn settings_for_first(st: Settings, t: RecordType) -> (r: Settings)
    ensures
        r == first_query_settings(st, t),
{
    match t {
        RecordType::AXFR => Settings { qtype: t, axfr: true, ..st },
        _ => Settings { qtype: t, ..st },
    }
}

/// The queries given, or a query for the root when there are none.
fn with_root_query(q: Vec<(RecordType, String)>, t: RecordType) -> (r: Vec<(RecordType, String)>)
    ensures
        queries_view(r@) == queries_or_root(queries_view(q@), t),
        r@.len() > 0,
{
    if q.len() == 0 {
        let mut r = q;
        r.push((t, root_name()));
        assert(queries_view(r@) =~= seq![(t, seq!['.'])]);
        r
    } else {
        q
    }
}

/// The options from positional queries, once all arguments are read.
fn finish_queries(
    st: Settings,
    servers: Vec<String>,
    batch_file: Option<String>,
    doh: Option<String>,
    positionals: Vec<String>,
) -> (r: Result<Options, DnsError>)
    ensures
        ({
            let s = ArgScan {
                settings: st,
                servers: strings_view(servers@),
                reverse: None,
                batch_file: opt_str(batch_file),
                doh: opt_str(doh),
                positionals: strings_view(positionals@),
            };
            match r {
                Ok(o) => finish_scan(s, false) == Ok::<OptionsView, Seq<char>>(o@),
                Err(e) => finish_scan(s, false) matches Err(m) && (e matches DnsError::Usage(t) && t@ == m),
            }
        }),
{
    let qs0 = match resolve_queries_from_positionals(&positionals) {
        Ok(q) => q,
        Err(e) => {
            return Err(e);
        },
    };
    let qs = with_root_query(qs0, st.qtype);
    assert(queries_view(qs@) == queries_or_root(queries_view(qs0@), st.qtype));
    let t = qs[0].0;
    let name = qs[0].1.clone();
    let st2 = settings_for_first(st, t);
    if st2.subnet.is_some() && !st2.edns {
        return Err(usage("+subnet requires EDNS; remove +noedns"));
    }
    if st2.nsid && !st2.edns {
        return Err(usage("+nsid requires EDNS; remove +noedns"));
    }
    Ok(assemble(st2, servers, name, None, batch_file, doh, qs))
}

/// Turns what was read into options.
fn finish_args(state: ScanState, stopped: bool) -> (r: Result<Options, DnsError>)
    ensures
        match r {
            Ok(o) => finish_scan(state@, stopped) == Ok::<OptionsView, Seq<char>>(o@),
            Err(e) => finish_scan(state@, stopped) matches Err(m) && (e matches DnsError::Usage(t) && t@ == m),
        },
{
    let ghost fin = state@;
    let ScanState { st, servers, reverse, batch_file, doh, positionals } = state;
    if stopped {
        let o = assemble(st, servers, root_name(), reverse, batch_file, doh, Vec::new());
        assert(o@.queries =~= Seq::<(RecordType, Seq<char>)>::empty());
        return Ok(o);
    }
    match reverse {
        Some(addr) => finish_reverse(st, servers, addr, batch_file, doh),
        None => finish_queries(st, servers, batch_file, doh, positionals),
    }
}

/// The options a configuration file holds, one per line: each line
/// trimmed, blank lines and `#` comments left out.
pub open spec fn config_options(lines: Seq<Seq<char>>) -> Seq<Seq<char>>
    decreases lines.len(),
{
    if lines.len() == 0 {
        Seq::empty()
    } else {
        let rest = config_options(lines.drop_last());
        let t = trim_ws(lines.last());
        if is_query_line(t) {
            rest.push(t)
        } else {
            rest
        }
    }
}

/// The options in a configuration file's text, which apply before the
/// command line's.
pub fn config_lines(contents: &str) -> (r: Vec<String>)
    ensures
        strings_view(r@) == config_options(split_lines(contents@)),
{
    let cs = chars_of(contents);
    let n = cs.len();
    let mut out: Vec<String> = Vec::new();
    let mut cur: Vec<char> = Vec::new();
    let mut i: usize = 0;
    assert(cs@.take(0) =~= Seq::<char>::empty());
    assert(strings_view(out@) =~= Seq::<Seq<char>>::empty());
    while i < n
        invariant
            n == cs@.len(),
            cs@ == contents@,
            i <= n,
            split_lines(cs@.take(i as int)).len() >= 1,
            cur@ == split_lines(cs@.take(i as int)).last(),
            strings_view(out@) == config_options(split_lines(cs@.take(i as int)).drop_last()),
        decreases n - i,
    {
        let ghost l0 = split_lines(cs@.take(i as int));
        let c = cs[i];
        proof {
            assert(cs@.take(i + 1).drop_last() =~= cs@.take(i as int));
            assert(cs@.take(i + 1).last() == c);
            lemma_split_lines_nonempty(cs@.take(i as int));
        }
        if c == '\n' {
            let t = trim_chars(&cur);
            let ghost before = out@;
            if t.len() > 0 && t[0] != '#' {
                out.push(string_of(&t));
                assert(strings_view(out@) =~= strings_view(before).push(t@));
            }
            proof {
                assert(l0.push(Seq::<char>::empty()).drop_last() =~= l0);
                assert(l0 =~= l0.drop_last().push(l0.last()));
            }
            cur = Vec::new();
            assert(cur@ =~= Seq::<char>::empty());
        } else {
            cur.push(c);
            proof {
                let l1 = l0.update(l0.len() - 1, l0.last().push(c));
                assert(l1.drop_last() =~= l0.drop_last());
            }
        }
        i = i + 1;
    }
    assert(cs@.take(n as int) =~= cs@);
    let ghost lf = split_lines(cs@);
    proof {
        lemma_split_lines_nonempty(cs@);
        assert(lf =~= lf.drop_last().push(lf.last()));
    }
    let t = trim_chars(&cur);
    if t.len() > 0 && t[0] != '#' {
        let ghost before = out@;
        out.push(string_of(&t));
        assert(strings_view(out@) =~= strings_view(before).push(t@));
    }
    out
}


/// The setting a flag changes, as a number: the two flags of a toggle
/// pair (such as `+tcp` and `+notcp`) change the same one.
pub open spec fn flag_setting(f: PlusFlag) -> nat {
    match f {
        PlusFlag::Short => 0,
        PlusFlag::Color | PlusFlag::NoColor => 1,
        PlusFlag::Tcp | PlusFlag::NoTcp => 2,
        PlusFlag::Recurse | PlusFlag::NoRecurse => 3,
        PlusFlag::Authority | PlusFlag::NoAuthority => 4,
        PlusFlag::Additional | PlusFlag::NoAdditional => 5,
        PlusFlag::Trace => 6,
        PlusFlag::Dnssec => 7,
        PlusFlag::Json => 8,
        PlusFlag::Yaml => 9,
        PlusFlag::Tsv => 10,
        PlusFlag::Compat => 11,
        PlusFlag::Dot => 12,
        PlusFlag::Edns | PlusFlag::NoEdns => 13,
        PlusFlag::Bench => 14,
        PlusFlag::Propagation | PlusFlag::Prop => 15,
        PlusFlag::Nsid => 16,
        PlusFlag::Qr | PlusFlag::NoQr => 17,
        PlusFlag::Stats | PlusFlag::NoStats => 18,
        PlusFlag::Watch => 19,
        PlusFlag::Doh => 20,
    }
}

/// The value of a setting that flags change, by its number (see
/// `flag_setting`); the last number stands for the DoH endpoint text,
/// which is not a setting.
pub ghost enum SettingValue {
    Bool(bool),
    Color(ColorMode),
    Choice(Option<bool>),
    Count(Option<usize>),
    Interval(Option<u64>),
    Endpoint,
}

/// The value in `st` of the setting numbered `k`.
pub open spec fn setting_value(st: Settings, k: nat) -> SettingValue {
    if k == 0 {
        SettingValue::Bool(st.short)
    } else if k == 1 {
        SettingValue::Color(st.color)
    } else if k == 2 {
        SettingValue::Choice(st.tcp)
    } else if k == 3 {
        SettingValue::Bool(st.recurse)
    } else if k == 4 {
        SettingValue::Bool(st.show_authority)
    } else if k == 5 {
        SettingValue::Bool(st.show_additional)
    } else if k == 6 {
        SettingValue::Bool(st.trace)
    } else if k == 7 {
        SettingValue::Bool(st.dnssec)
    } else if k == 8 {
        SettingValue::Bool(st.json)
    } else if k == 9 {
        SettingValue::Bool(st.yaml)
    } else if k == 10 {
        SettingValue::Bool(st.tsv)
    } else if k == 11 {
        SettingValue::Bool(st.compat)
    } else if k == 12 {
        SettingValue::Bool(st.dot)
    } else if k == 13 {
        SettingValue::Bool(st.edns)
    } else if k == 14 {
        SettingValue::Count(st.bench)
    } else if k == 15 {
        SettingValue::Bool(st.propagation)
    } else if k == 16 {
        SettingValue::Bool(st.nsid)
    } else if k == 17 {
        SettingValue::Bool(st.qr)
    } else if k == 18 {
        SettingValue::Bool(st.stats)
    } else if k == 19 {
        SettingValue::Interval(st.watch)
    } else {
        SettingValue::Endpoint
    }
}

/// The value a flag gives the setting it names.
pub open spec fn flag_target(f: PlusFlag) -> SettingValue {
    match f {
        PlusFlag::Short => SettingValue::Bool(true),
        PlusFlag::Color => SettingValue::Color(ColorMode::Always),
        PlusFlag::NoColor => SettingValue::Color(ColorMode::Never),
        PlusFlag::Tcp => SettingValue::Choice(Some(true)),
        PlusFlag::NoTcp => SettingValue::Choice(Some(false)),
        PlusFlag::Recurse => SettingValue::Bool(true),
        PlusFlag::NoRecurse => SettingValue::Bool(false),
        PlusFlag::Authority => SettingValue::Bool(true),
        PlusFlag::NoAuthority => SettingValue::Bool(false),
        PlusFlag::Additional => SettingValue::Bool(true),
        PlusFlag::NoAdditional => SettingValue::Bool(false),
        PlusFlag::Trace => SettingValue::Bool(true),
        PlusFlag::Dnssec => SettingValue::Bool(true),
        PlusFlag::Json => SettingValue::Bool(true),
        PlusFlag::Yaml => SettingValue::Bool(true),
        PlusFlag::Tsv => SettingValue::Bool(true),
        PlusFlag::Compat => SettingValue::Bool(true),
        PlusFlag::Dot => SettingValue::Bool(true),
        PlusFlag::Edns => SettingValue::Bool(true),
        PlusFlag::NoEdns => SettingValue::Bool(false),
        PlusFlag::Bench => SettingValue::Count(Some(100)),
        PlusFlag::Propagation => SettingValue::Bool(true),
        PlusFlag::Prop => SettingValue::Bool(true),
        PlusFlag::Nsid => SettingValue::Bool(true),
        PlusFlag::Qr => SettingValue::Bool(true),
        PlusFlag::NoQr => SettingValue::Bool(false),
        PlusFlag::Stats => SettingValue::Bool(true),
        PlusFlag::NoStats => SettingValue::Bool(false),
        PlusFlag::Watch => SettingValue::Interval(Some(2)),
        PlusFlag::Doh => SettingValue::Endpoint,
    }
}

/// `lemma_flag_sets` for some of the flags.
proof fn lemma_flag_sets_1(st: Settings, f: PlusFlag)
    requires
        f is Short || f is Color || f is NoColor || f is Tcp || f is NoTcp,
    ensures
        setting_value(apply_flag(st, f), flag_setting(f)) == flag_target(f),
{
    match f {
        PlusFlag::Short => {},
        PlusFlag::Color => {},
        PlusFlag::NoColor => {},
        PlusFlag::Tcp => {},
        PlusFlag::NoTcp => {},
        _ => {},
    }
}

/// `lemma_flag_sets` for some of the flags.
proof fn lemma_flag_sets_2(st: Settings, f: PlusFlag)
    requires
        f is Recurse || f is NoRecurse || f is Authority || f is NoAuthority || f is Additional,
    ensures
        setting_value(apply_flag(st, f), flag_setting(f)) == flag_target(f),
{
    match f {
        PlusFlag::Recurse => {},
        PlusFlag::NoRecurse => {},
        PlusFlag::Authority => {},
        PlusFlag::NoAuthority => {},
        PlusFlag::Additional => {},
        _ => {},
    }
}

/// `lemma_flag_sets` for some of the flags.
proof fn lemma_flag_sets_3(st: Settings, f: PlusFlag)
    requires
        f is NoAdditional || f is Trace || f is Dnssec || f is Json || f is Yaml,
    ensures
        setting_value(apply_flag(st, f), flag_setting(f)) == flag_target(f),
{
    match f {
        PlusFlag::NoAdditional => {},
        PlusFlag::Trace => {},
        PlusFlag::Dnssec => {},
        PlusFlag::Json => {},
        PlusFlag::Yaml => {},
        _ => {},
    }
}

/// `lemma_flag_sets` for some of the flags.
proof fn lemma_flag_sets_4(st: Settings, f: PlusFlag)
    requires
        f is Tsv || f is Compat || f is Dot || f is Edns || f is NoEdns,
    ensures
        setting_value(apply_flag(st, f), flag_setting(f)) == flag_target(f),
{
    match f {
        PlusFlag::Tsv => {},
        PlusFlag::Compat => {},
        PlusFlag::Dot => {},
        PlusFlag::Edns => {},
        PlusFlag::NoEdns => {},
        _ => {},
    }
}

/// `lemma_flag_sets` for some of the flags.
proof fn lemma_flag_sets_5(st: Settings, f: PlusFlag)
    requires
        f is Bench || f is Propagation || f is Prop || f is Nsid || f is Qr,
    ensures
        setting_value(apply_flag(st, f), flag_setting(f)) == flag_target(f),
{
    match f {
        PlusFlag::Bench => {},
        PlusFlag::Propagation => {},
        PlusFlag::Prop => {},
        PlusFlag::Nsid => {},
        PlusFlag::Qr => {},
        _ => {},
    }
}

/// `lemma_flag_sets` for some of the flags.
proof fn lemma_flag_sets_6(st: Settings, f: PlusFlag)
    requires
        f is NoQr || f is Stats,
    ensures
        setting_value(apply_flag(st, f), flag_setting(f)) == flag_target(f),
{
    match f {
        PlusFlag::NoQr => {},
        PlusFlag::Stats => {},
        _ => {},
    }
}

/// `lemma_flag_sets` for some of the flags.
proof fn lemma_flag_sets_7(st: Settings, f: PlusFlag)
    requires
        f is NoStats || f is Watch,
    ensures
        setting_value(apply_flag(st, f), flag_setting(f)) == flag_target(f),
{
    match f {
        PlusFlag::NoStats => {},
        PlusFlag::Watch => {},
        _ => {},
    }
}

/// `lemma_flag_sets` for some of the flags.
proof fn lemma_flag_sets_8(st: Settings, f: PlusFlag)
    requires
        f is Doh,
    ensures
        setting_value(apply_flag(st, f), flag_setting(f)) == flag_target(f),
{
    match f {
        PlusFlag::Doh => {},
        _ => {},
    }
}

/// A flag gives the setting it names its value, whatever it was.
pub proof fn lemma_flag_sets(st: Settings, f: PlusFlag)
    ensures
        setting_value(apply_flag(st, f), flag_setting(f)) == flag_target(f),
{
    match f {
        PlusFlag::Short | PlusFlag::Color | PlusFlag::NoColor | PlusFlag::Tcp | PlusFlag::NoTcp => lemma_flag_sets_1(st, f),
        PlusFlag::Recurse | PlusFlag::NoRecurse | PlusFlag::Authority | PlusFlag::NoAuthority | PlusFlag::Additional => lemma_flag_sets_2(st, f),
        PlusFlag::NoAdditional | PlusFlag::Trace | PlusFlag::Dnssec | PlusFlag::Json | PlusFlag::Yaml => lemma_flag_sets_3(st, f),
        PlusFlag::Tsv | PlusFlag::Compat | PlusFlag::Dot | PlusFlag::Edns | PlusFlag::NoEdns => lemma_flag_sets_4(st, f),
        PlusFlag::Bench | PlusFlag::Propagation | PlusFlag::Prop | PlusFlag::Nsid | PlusFlag::Qr => lemma_flag_sets_5(st, f),
        PlusFlag::NoQr | PlusFlag::Stats => lemma_flag_sets_6(st, f),
        PlusFlag::NoStats | PlusFlag::Watch => lemma_flag_sets_7(st, f),
        PlusFlag::Doh => lemma_flag_sets_8(st, f),
    }
}

/// Of two flags for the same setting, the later one wins: the setting ends
/// with the value the later flag gives it.
pub proof fn lemma_later_flag_wins(st: Settings, f: PlusFlag, g: PlusFlag)
    requires
        flag_setting(f) == flag_setting(g),
    ensures
        setting_value(apply_flag(apply_flag(st, f), g), flag_setting(g)) == setting_value(
            apply_flag(st, g),
            flag_setting(g),
        ),
{
    lemma_flag_sets(apply_flag(st, f), g);
    lemma_flag_sets(st, g);
}

/// Once all arguments are read, a client subnet or an NSID request is
/// only accepted with EDNS, whatever order the options came in; a reverse
/// lookup with `-x` skips this check.
pub proof fn lemma_edns_options_need_edns(s: ArgScan)
    requires
        s.reverse is None,
        finish_scan(s, false) is Ok,
    ensures
        ({
            let v = finish_scan(s, false)->Ok_0;
            &&& v.settings.subnet is Some ==> v.settings.edns
            &&& v.settings.nsid ==> v.settings.edns
        }),
{
}

/// Reading positional arguments none of which names a type only collects
/// them as names.
proof fn lemma_pos_scan_untyped(ps: Seq<Seq<char>>)
    requires
        forall|i: int|
            0 <= i < ps.len() ==> spec_parse_type_upper(unicode_upper(#[trigger] ps[i])) is None
                && !numeric_type_syntax(ps[i]),
    ensures
        pos_scan(ps) == Ok::<PosScan, Seq<char>>(
            PosScan {
                explicit: false,
                pending: None,
                names: ps,
                types: Seq::empty(),
                queries: Seq::empty(),
            },
        ),
    decreases ps.len(),
{
    if ps.len() > 0 {
        let p = ps.drop_last();
        assert forall|i: int| 0 <= i < p.len() implies spec_parse_type_upper(
            unicode_upper(#[trigger] p[i]),
        ) is None && !numeric_type_syntax(p[i]) by {
            assert(p[i] == ps[i]);
        }
        lemma_pos_scan_untyped(p);
        assert(ps.last() == ps[ps.len() - 1]);
        assert(p.push(ps.last()) =~= ps);
    } else {
        assert(ps =~= Seq::<Seq<char>>::empty());
    }
}

/// When no positional argument names a type, each one is a name to look
/// up, in order: an IP address asks for the PTR record of its reverse name,
/// anything else for its A record.
pub proof fn lemma_untyped_names_query(ps: Seq<Seq<char>>)
    requires
        forall|i: int|
            0 <= i < ps.len() ==> spec_parse_type_upper(unicode_upper(#[trigger] ps[i])) is None
                && !numeric_type_syntax(ps[i]),
    ensures
        positional_queries(ps) == Ok::<Seq<(RecordType, Seq<char>)>, Seq<char>>(
            ps.map_values(|n: Seq<char>| name_query(n, false)),
        ),
        forall|i: int|
            0 <= i < ps.len() ==> (#[trigger] name_query(ps[i], false)) == match spec_parse_ip(
                ps[i],
            ) {
                Some(a) => (RecordType::PTR, reverse_text(a)),
                None => (RecordType::A, ps[i]),
            },
{
    reveal(positional_queries);
    lemma_pos_scan_untyped(ps);
    let q2 = Seq::<(RecordType, Seq<char>)>::empty() + ps.map_values(
        |n: Seq<char>| name_query(n, false),
    );
    assert(q2 =~= ps.map_values(|n: Seq<char>| name_query(n, false)));
    assert(Seq::<RecordType>::empty().map_values(
        |t: RecordType| (t, if q2.len() > 0 { q2[0].1 } else { seq!['.'] }),
    ) =~= Seq::<(RecordType, Seq<char>)>::empty());
    assert(q2 + Seq::<(RecordType, Seq<char>)>::empty() =~= q2);
}

} // verus!
