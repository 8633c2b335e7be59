//! The presentation (text) form of RDATA, as `dig` shows it: addresses,
//! names, numbers, hex, base64, base32hex, type lists and SVCB parameters.
use vstd::prelude::*;
use base64::Engine;
use crate::protocol::addr::{ipv4_text, ipv6_text, push_ipv4, push_ipv6};
use crate::protocol::record::{RData, RDataView, SvcParam, SvcParamView, params_view};
use crate::protocol::types::{RecordType, type_text};
use crate::protocol::wire::{be16, read_u16, copy_range};
use crate::text::{
    decimal, hex_upper, join, lossy_string, push_char, push_decimal, push_hex_upper, push_joined,
    push_lit, push_str, strings_view, upper_digit, utf8_lossy,
};

verus! {

/// The RFC 4648 base64 digit for a 6-bit value.
pub open spec fn base64_digit(v: int) -> char {
    if v < 26 {
        ((65 + v) as u8) as char
    } else if v < 52 {
        ((97 + v - 26) as u8) as char
    } else if v < 62 {
        ((48 + v - 52) as u8) as char
    } else if v == 62 {
        '+'
    } else {
        '/'
    }
}

/// Standard base64 (RFC 4648 alphabet, with padding): each group of three
/// bytes becomes four digits; a final group of one or two bytes is padded
/// with zero bits and written with two or one '='.
pub open spec fn base64_standard(d: Seq<u8>) -> Seq<char>
    decreases d.len(),
{
    if d.len() == 0 {
        Seq::empty()
    } else {
        let a = d[0] as int;
        let b = if d.len() > 1 { d[1] as int } else { 0 };
        let c = if d.len() > 2 { d[2] as int } else { 0 };
        let first = base64_digit(a / 4);
        let second = base64_digit((a % 4) * 16 + b / 16);
        let third = base64_digit((b % 16) * 4 + c / 64);
        if d.len() == 1 {
            seq![first, second, '=', '=']
        } else if d.len() == 2 {
            seq![first, second, third, '=']
        } else {
            seq![first, second, third, base64_digit(c % 64)] + base64_standard(d.skip(3))
        }
    }
}

/// Whether the base64 text of `d` has a length that fits in memory sizes.
pub open spec fn fits_base64(d: Seq<u8>) -> bool {
    (d.len() / 3) * 4 + 4 <= usize::MAX
}

/// Standard base64 with padding. Wraps `Engine::encode` of
/// `base64::engine::general_purpose::STANDARD`, whose output is the RFC 4648
/// encoding that `base64_standard` spells out. The engine panics when the
/// output length overflows, which `requires` rules out.
#[verifier::external_body]
fn base64_encode(data: &[u8]) -> (r: String)
    requires
        fits_base64(data@),
    ensures
        r@ == base64_standard(data@),
{
    base64::engine::general_purpose::STANDARD.encode(data)
}

/// The number of base32 digits for `n` bytes: one per 5 bits, rounded up.
pub open spec fn base32_len(n: nat) -> nat {
    (8 * n + 4) / 5
}

/// The value of the 5-bit group `k` of the bytes read as one big-endian bit
/// string padded with zero bits.
pub open spec fn base32_group(d: Seq<u8>, k: int) -> int {
    let p = 5 * k;
    let i = p / 8;
    let o = p % 8;
    let w: u32 = (d[i] as int * 256 + (if i + 1 < d.len() { d[i + 1] as int } else { 0int })) as u32;
    ((w >> ((11 - o) as u32)) & 31u32) as int
}

/// Base32 with the "extended hex" alphabet `0-9A-V` and no padding
/// (RFC 4648 §7), as NSEC3 shows hashed owner names.
pub open spec fn base32hex(d: Seq<u8>) -> Seq<char> {
    Seq::new(base32_len(d.len()), |k: int| upper_digit(base32_group(d, k)))
}

/// Encodes bytes as unpadded base32hex.
pub fn base32_encode_hex(data: &[u8]) -> (r: String)
    ensures
        r@ == base32hex(data@),
{
    let n = data.len();
    let total: u128 = (n as u128) * 8;
    let mut s = String::new();
    let mut k: u128 = 0;
    while k * 5 < total
        invariant
            n == data@.len(),
            total == (n as u128) * 8,
            k * 5 < total + 5,
            s@ == base32hex(data@).take(k as int),
            k <= base32_len(n as nat),
        decreases total + 5 - k * 5,
    {
        let p: u128 = k * 5;
        let i: usize = (p / 8) as usize;
        let o: u32 = (p % 8) as u32;
        let hi: u32 = data[i] as u32;
        let lo: u32 = if i + 1 < n { data[i + 1] as u32 } else { 0u32 };
        let w: u32 = hi * 256 + lo;
        let sh: u32 = 11 - o;
        let g: u32 = (w >> sh) & 31u32;
        assert(g < 32) by (bit_vector)
            requires
                g == (w >> sh) & 31u32,
        ;
        let c = if g < 10 { ((48 + g) as u8) as char } else { ((55 + g) as u8) as char };
        push_char(&mut s, c);
        proof {
            assert(g as int == base32_group(data@, k as int));
            assert(c == upper_digit(g as int));
        }
        k = k + 1;
        assert(s@ =~= base32hex(data@).take(k as int));
    }
    assert(s@ =~= base32hex(data@));
    s
}

/// A string in double quotes.
pub open spec fn quoted(s: Seq<char>) -> Seq<char> {
    seq!['"'] + s + seq!['"']
}

/// Each string quoted.
pub open spec fn quoted_all(v: Seq<Seq<char>>) -> Seq<Seq<char>> {
    v.map_values(|s: Seq<char>| quoted(s))
}

/// TXT strings, each quoted, separated by spaces.
pub open spec fn txt_text(v: Seq<Seq<char>>) -> Seq<char> {
    join(quoted_all(v), seq![' '])
}

/// The text of each record type.
pub open spec fn type_texts(ts: Seq<RecordType>) -> Seq<Seq<char>> {
    ts.map_values(|t: RecordType| type_text(t))
}

/// Record types by their text, separated by spaces.
pub open spec fn types_text(ts: Seq<RecordType>) -> Seq<char> {
    join(type_texts(ts), seq![' '])
}

/// An NSEC3 salt: `-` when empty, else uppercase hex.
pub open spec fn salt_text(s: Seq<u8>) -> Seq<char> {
    if s.len() == 0 {
        seq!['-']
    } else {
        hex_upper(s)
    }
}

/// The name of a service parameter key (RFC 9460 §14.3.2), or `key<N>`.
pub open spec fn svc_key_name(k: u16) -> Seq<char> {
    if k == 0 {
        seq!['m', 'a', 'n', 'd', 'a', 't', 'o', 'r', 'y']
    } else if k == 1 {
        seq!['a', 'l', 'p', 'n']
    } else if k == 2 {
        seq!['n', 'o', '-', 'd', 'e', 'f', 'a', 'u', 'l', 't', '-', 'a', 'l', 'p', 'n']
    } else if k == 3 {
        seq!['p', 'o', 'r', 't']
    } else if k == 4 {
        seq!['i', 'p', 'v', '4', 'h', 'i', 'n', 't']
    } else if k == 5 {
        seq!['e', 'c', 'h']
    } else if k == 6 {
        seq!['i', 'p', 'v', '6', 'h', 'i', 'n', 't']
    } else {
        seq!['k', 'e', 'y'] + decimal(k as nat)
    }
}

/// The key names of a `mandatory` value: one per complete 16-bit number.
pub open spec fn mandatory_keys(v: Seq<u8>) -> Seq<Seq<char>> {
    Seq::new(v.len() / 2, |j: int| svc_key_name(be16(v[2 * j], v[2 * j + 1])))
}

/// The protocol names of an `alpn` value from byte `i` on: each is a length
/// byte and that many bytes, decoded lossily; one that runs past the end is
/// dropped.
pub open spec fn alpn_list(v: Seq<u8>, i: int) -> Seq<Seq<char>>
    decreases v.len() - i,
{
    if i < 0 || i >= v.len() {
        Seq::empty()
    } else {
        let l = v[i] as int;
        let j = i + 1;
        if j + l <= v.len() {
            seq![utf8_lossy(v.subrange(j, j + l))] + alpn_list(v, j + l)
        } else {
            Seq::empty()
        }
    }
}

/// The addresses of an `ipv4hint` value: one per complete 4 bytes.
pub open spec fn v4_hints(v: Seq<u8>) -> Seq<Seq<char>> {
    Seq::new(v.len() / 4, |j: int| ipv4_text(v.subrange(4 * j, 4 * j + 4)))
}

/// The addresses of an `ipv6hint` value: one per complete 16 bytes.
pub open spec fn v6_hints(v: Seq<u8>) -> Seq<Seq<char>> {
    Seq::new(v.len() / 16, |j: int| ipv6_text(v.subrange(16 * j, 16 * j + 16)))
}

/// The text of one service parameter, as `dig` shows it.
pub open spec fn svc_param_text(p: SvcParamView) -> Seq<char> {
    let v = p.value;
    if p.key == 0 {
        svc_key_name(0) + seq!['='] + join(mandatory_keys(v), seq![','])
    } else if p.key == 1 {
        svc_key_name(1) + seq!['='] + quoted(join(alpn_list(v, 0), seq![',']))
    } else if p.key == 2 {
        svc_key_name(2)
    } else if p.key == 3 {
        if v.len() >= 2 {
            svc_key_name(3) + seq!['='] + decimal(be16(v[0], v[1]) as nat)
        } else {
            svc_key_name(3) + seq!['=', '<', 'i', 'n', 'v', 'a', 'l', 'i', 'd', '>']
        }
    } else if p.key == 4 {
        svc_key_name(4) + seq!['='] + join(v4_hints(v), seq![','])
    } else if p.key == 5 {
        svc_key_name(5) + seq!['='] + quoted(base64_standard(v))
    } else if p.key == 6 {
        svc_key_name(6) + seq!['='] + join(v6_hints(v), seq![','])
    } else {
        svc_key_name(p.key) + seq!['='] + quoted(hex_upper(v))
    }
}

/// The text of each service parameter.
pub open spec fn svc_param_texts(ps: Seq<SvcParamView>) -> Seq<Seq<char>> {
    ps.map_values(|p: SvcParamView| svc_param_text(p))
}

/// Service parameters, separated by spaces.
pub open spec fn svc_params_text(ps: Seq<SvcParamView>) -> Seq<char> {
    join(svc_param_texts(ps), seq![' '])
}

/// Whether every `ech` parameter's base64 text fits in memory sizes.
pub open spec fn params_fit(ps: Seq<SvcParamView>) -> bool {
    forall|i: int| 0 <= i < ps.len() && #[trigger] ps[i].key == 5 ==> fits_base64(ps[i].value)
}

/// Whether every part of the RDATA shown in base64 fits in memory sizes.
pub open spec fn rdata_fits(v: RDataView) -> bool {
    match v {
        RDataView::RRSIG { signature, .. } => fits_base64(signature),
        RDataView::DNSKEY { public_key, .. } => fits_base64(public_key),
        RDataView::SVCB { params, .. } => params_fit(params),
        RDataView::HTTPS { params, .. } => params_fit(params),
        _ => true,
    }
}

/// `a b` for two pieces of text.
pub open spec fn sp2(a: Seq<char>, b: Seq<char>) -> Seq<char> {
    a + seq![' '] + b
}

/// The presentation form of RDATA, as `dig` shows it.
pub open spec fn rdata_text(v: RDataView) -> Seq<char> {
    match v {
        RDataView::A(o) => ipv4_text(o),
        RDataView::AAAA(o) => ipv6_text(o),
        RDataView::NS(n) => n,
        RDataView::CNAME(n) => n,
        RDataView::PTR(n) => n,
        RDataView::MX { preference, exchange } => sp2(decimal(preference as nat), exchange),
        RDataView::TXT(strings) => txt_text(strings),
        RDataView::SOA { mname, rname, serial, refresh, retry, expire, minimum } => sp2(
            sp2(
                sp2(
                    sp2(sp2(sp2(mname, rname), decimal(serial as nat)), decimal(refresh as nat)),
                    decimal(retry as nat),
                ),
                decimal(expire as nat),
            ),
            decimal(minimum as nat),
        ),
        RDataView::SRV { priority, weight, port, target } => sp2(
            sp2(sp2(decimal(priority as nat), decimal(weight as nat)), decimal(port as nat)),
            target,
        ),
        RDataView::CAA { flags, tag, value } => sp2(sp2(decimal(flags as nat), tag), quoted(value)),
        RDataView::DS { key_tag, algorithm, digest_type, digest } => sp2(
            sp2(sp2(decimal(key_tag as nat), decimal(algorithm as nat)), decimal(digest_type as nat)),
            hex_upper(digest),
        ),
        RDataView::RRSIG {
            type_covered,
            algorithm,
            labels,
            original_ttl,
            expiration,
            inception,
            key_tag,
            signer,
            signature,
        } => sp2(
            sp2(
                sp2(
                    sp2(
                        sp2(
                            sp2(
                                sp2(
                                    sp2(type_text(type_covered), decimal(algorithm as nat)),
                                    decimal(labels as nat),
                                ),
                                decimal(original_ttl as nat),
                            ),
                            decimal(expiration as nat),
                        ),
                        decimal(inception as nat),
                    ),
                    decimal(key_tag as nat),
                ),
                signer,
            ),
            base64_standard(signature),
        ),
        RDataView::DNSKEY { flags, protocol, algorithm, public_key } => sp2(
            sp2(sp2(decimal(flags as nat), decimal(protocol as nat)), decimal(algorithm as nat)),
            base64_standard(public_key),
        ),
        RDataView::NSEC { next_domain, type_bitmaps } => sp2(next_domain, types_text(type_bitmaps)),
        RDataView::NSEC3 { algorithm, flags, iterations, salt, next_hashed, type_bitmaps } => sp2(
            sp2(
                sp2(
                    sp2(sp2(decimal(algorithm as nat), decimal(flags as nat)), decimal(iterations as nat)),
                    salt_text(salt),
                ),
                base32hex(next_hashed),
            ),
            types_text(type_bitmaps),
        ),
        RDataView::NSEC3PARAM { algorithm, flags, iterations, salt } => sp2(
            sp2(sp2(decimal(algorithm as nat), decimal(flags as nat)), decimal(iterations as nat)),
            salt_text(salt),
        ),
        RDataView::SVCB { priority, target, params } => svcb_text(priority, target, params),
        RDataView::HTTPS { priority, target, params } => svcb_text(priority, target, params),
        RDataView::OPT(_) => seq!['<', 'O', 'P', 'T', '>'],
        RDataView::Unknown(d) => if d.len() == 0 {
            seq!['\\', '#', ' ', '0']
        } else {
            sp2(sp2(seq!['\\', '#'], decimal(d.len())), hex_upper(d))
        },
    }
}

/// SVCB/HTTPS RDATA: priority and target, then the parameters if any.
pub open spec fn svcb_text(priority: u16, target: Seq<char>, params: Seq<SvcParamView>) -> Seq<char> {
    if params.len() == 0 {
        sp2(decimal(priority as nat), target)
    } else {
        sp2(sp2(decimal(priority as nat), target), svc_params_text(params))
    }
}

/// Appends the numbers' key names of a `mandatory` value.
fn mandatory_names(v: &[u8]) -> (r: Vec<String>)
    ensures
        strings_view(r@) == mandatory_keys(v@),
{
    let vlen = v.len();
    let n = vlen / 2;
    let mut out: Vec<String> = Vec::new();
    let mut j: usize = 0;
    while j < n
        invariant
            vlen == v@.len(),
            n == v@.len() / 2,
            j <= n,
            strings_view(out@) == mandatory_keys(v@).take(j as int),
        decreases n - j,
    {
        let k = read_u16(v, 2 * j);
        let name = svc_param_key_name(k);
        proof {
            assert(strings_view(out@.push(name)) =~= strings_view(out@).push(name@));
        }
        out.push(name);
        j = j + 1;
        assert(strings_view(out@) =~= mandatory_keys(v@).take(j as int));
    }
    assert(mandatory_keys(v@).take(n as int) =~= mandatory_keys(v@));
    out
}

/// The bytes in uppercase hexadecimal, two digits each.
pub fn hex(data: &[u8]) -> (r: String)
    ensures
        r@ == hex_upper(data@),
{
    let mut s = String::new();
    push_hex_upper(&mut s, data);
    s
}

/// The name of a service parameter key.
pub fn svc_param_key_name(k: u16) -> (r: String)
    ensures
        r@ == svc_key_name(k),
{
    let mut s = String::new();
    if k == 0 {
        push_lit(&mut s, vec!['m', 'a', 'n', 'd', 'a', 't', 'o', 'r', 'y']);
    } else if k == 1 {
        push_lit(&mut s, vec!['a', 'l', 'p', 'n']);
    } else if k == 2 {
        push_lit(
            &mut s,
            vec!['n', 'o', '-', 'd', 'e', 'f', 'a', 'u', 'l', 't', '-', 'a', 'l', 'p', 'n'],
        );
    } else if k == 3 {
        push_lit(&mut s, vec!['p', 'o', 'r', 't']);
    } else if k == 4 {
        push_lit(&mut s, vec!['i', 'p', 'v', '4', 'h', 'i', 'n', 't']);
    } else if k == 5 {
        push_lit(&mut s, vec!['e', 'c', 'h']);
    } else if k == 6 {
        push_lit(&mut s, vec!['i', 'p', 'v', '6', 'h', 'i', 'n', 't']);
    } else {
        push_lit(&mut s, vec!['k', 'e', 'y']);
        push_decimal(&mut s, k as u64);
    }
    assert(s@ =~= svc_key_name(k));
    s
}

/// The protocol names of an `alpn` value.
fn alpn_names(v: &[u8]) -> (r: Vec<String>)
    ensures
        strings_view(r@) == alpn_list(v@, 0),
{
    let n = v.len();
    let mut out: Vec<String> = Vec::new();
    let mut i: usize = 0;
    while i < n
        invariant
            n == v@.len(),
            i <= n,
            alpn_list(v@, 0) == strings_view(out@) + alpn_list(v@, i as int),
        decreases n - i,
    {
        let l = v[i] as usize;
        let j = i + 1;
        if l > n - j {
            assert(alpn_list(v@, i as int) =~= Seq::<Seq<char>>::empty());
            assert(strings_view(out@) + Seq::<Seq<char>>::empty() =~= strings_view(out@));
            i = n;
        } else {
            let bytes = copy_range(v, j, j + l);
            let t = lossy_string(bytes.as_slice());
            proof {
                assert(strings_view(out@.push(t)) =~= strings_view(out@).push(t@));
                assert(strings_view(out@).push(t@) + alpn_list(v@, (j + l) as int) =~= strings_view(
                    out@,
                ) + (seq![t@] + alpn_list(v@, (j + l) as int)));
            }
            out.push(t);
            i = j + l;
        }
    }
    assert(alpn_list(v@, i as int) =~= Seq::<Seq<char>>::empty());
    assert(strings_view(out@) + Seq::<Seq<char>>::empty() =~= strings_view(out@));
    out
}

/// The addresses of an `ipv4hint` value.
fn v4_hint_texts(v: &[u8]) -> (r: Vec<String>)
    ensures
        strings_view(r@) == v4_hints(v@),
{
    let vlen = v.len();
    let n = vlen / 4;
    let mut out: Vec<String> = Vec::new();
    let mut j: usize = 0;
    while j < n
        invariant
            vlen == v@.len(),
            n == v@.len() / 4,
            j <= n,
            strings_view(out@) == v4_hints(v@).take(j as int),
        decreases n - j,
    {
        let o: [u8; 4] = [v[4 * j], v[4 * j + 1], v[4 * j + 2], v[4 * j + 3]];
        assert(o@ =~= v@.subrange(4 * j, 4 * j + 4));
        let mut t = String::new();
        push_ipv4(&mut t, &o);
        proof {
            assert(strings_view(out@.push(t)) =~= strings_view(out@).push(t@));
        }
        out.push(t);
        j = j + 1;
        assert(strings_view(out@) =~= v4_hints(v@).take(j as int));
    }
    assert(v4_hints(v@).take(n as int) =~= v4_hints(v@));
    out
}

/// The addresses of an `ipv6hint` value.
fn v6_hint_texts(v: &[u8]) -> (r: Vec<String>)
    ensures
        strings_view(r@) == v6_hints(v@),
{
    let vlen = v.len();
    let n = vlen / 16;
    let mut out: Vec<String> = Vec::new();
    let mut j: usize = 0;
    while j < n
        invariant
            vlen == v@.len(),
            n == v@.len() / 16,
            j <= n,
            strings_view(out@) == v6_hints(v@).take(j as int),
        decreases n - j,
    {
        let mut o: [u8; 16] = [0u8; 16];
        let mut m: usize = 0;
        while m < 16
            invariant
                vlen == v@.len(),
                n == v@.len() / 16,
                j < n,
                m <= 16,
                forall|q: int| 0 <= q < m ==> o@[q] == v@[16 * j + q],
            decreases 16 - m,
        {
            o.set(m, v[16 * j + m]);
            m = m + 1;
        }
        assert(o@ =~= v@.subrange(16 * j, 16 * j + 16));
        let mut t = String::new();
        push_ipv6(&mut t, &o);
        proof {
            assert(strings_view(out@.push(t)) =~= strings_view(out@).push(t@));
        }
        out.push(t);
        j = j + 1;
        assert(strings_view(out@) =~= v6_hints(v@).take(j as int));
    }
    assert(v6_hints(v@).take(n as int) =~= v6_hints(v@));
    out
}

/// The text of one service parameter.
pub fn format_svc_param(param: &SvcParam) -> (r: String)
    requires
        param.key == 5 ==> fits_base64(param.value@),
    ensures
        r@ == svc_param_text(param@),
{
    let v = param.value.as_slice();
    let mut s = String::new();
    let k = param.key;
    if k == 2 {
        push_lit(
            &mut s,
            vec!['n', 'o', '-', 'd', 'e', 'f', 'a', 'u', 'l', 't', '-', 'a', 'l', 'p', 'n'],
        );
        assert(s@ =~= svc_param_text(param@));
        return s;
    }
    let name = svc_param_key_name(k);
    push_str(&mut s, name.as_str());
    push_char(&mut s, '=');
    let ghost head = svc_key_name(k) + seq!['='];
    assert(s@ =~= head);
    if k == 0 {
        let names = mandatory_names(v);
        let comma = vec![','];
        assert(comma@ =~= seq![',']);
        push_joined(&mut s, &names, &comma);
        assert(s@ =~= svc_param_text(param@));
    } else if k == 1 {
        let names = alpn_names(v);
        push_char(&mut s, '"');
        let comma = vec![','];
        assert(comma@ =~= seq![',']);
        push_joined(&mut s, &names, &comma);
        push_char(&mut s, '"');
        assert(s@ =~= svc_param_text(param@));
    } else if k == 3 {
        if v.len() >= 2 {
            push_decimal(&mut s, read_u16(v, 0) as u64);
        } else {
            push_lit(&mut s, vec!['<', 'i', 'n', 'v', 'a', 'l', 'i', 'd', '>']);
        }
        assert(s@ =~= svc_param_text(param@));
    } else if k == 4 {
        let addrs = v4_hint_texts(v);
        let comma = vec![','];
        assert(comma@ =~= seq![',']);
        push_joined(&mut s, &addrs, &comma);
        assert(s@ =~= svc_param_text(param@));
    } else if k == 5 {
        let b = base64_encode(v);
        push_char(&mut s, '"');
        push_str(&mut s, b.as_str());
        push_char(&mut s, '"');
        assert(s@ =~= svc_param_text(param@));
    } else if k == 6 {
        let addrs = v6_hint_texts(v);
        let comma = vec![','];
        assert(comma@ =~= seq![',']);
        push_joined(&mut s, &addrs, &comma);
        assert(s@ =~= svc_param_text(param@));
    } else {
        push_char(&mut s, '"');
        let digits = hex(v);
        push_str(&mut s, digits.as_str());
        push_char(&mut s, '"');
        assert(s@ =~= svc_param_text(param@));
    }
    s
}

/// Service parameters, separated by spaces.
fn format_svc_params(params: &Vec<SvcParam>) -> (r: String)
    requires
        params_fit(params_view(params@)),
    ensures
        r@ == svc_params_text(params_view(params@)),
{
    let ghost ps = params_view(params@);
    let mut items: Vec<String> = Vec::new();
    let mut i: usize = 0;
    while i < params.len()
        invariant
            ps == params_view(params@),
            params_fit(ps),
            i <= params@.len(),
            strings_view(items@) == svc_param_texts(ps).take(
                i as int,
            ),
        decreases params@.len() - i,
    {
        assert(ps[i as int] == params@[i as int]@);
        assert(ps[i as int].key == 5 ==> fits_base64(ps[i as int].value));
        let t = format_svc_param(&params[i]);
        proof {
            assert(strings_view(items@.push(t)) =~= strings_view(items@).push(t@));
        }
        items.push(t);
        i = i + 1;
        assert(strings_view(items@) =~= svc_param_texts(ps).take(
            i as int,
        ));
    }
    assert(svc_param_texts(ps).take(i as int) =~= svc_param_texts(ps));
    let mut s = String::new();
    let space = vec![' '];
    assert(space@ =~= seq![' ']);
    push_joined(&mut s, &items, &space);
    s
}

/// Record types by their text, separated by spaces.
fn format_type_bitmaps(types: &Vec<RecordType>) -> (r: String)
    ensures
        r@ == types_text(types@),
{
    let mut items: Vec<String> = Vec::new();
    let mut i: usize = 0;
    while i < types.len()
        invariant
            i <= types@.len(),
            strings_view(items@) == type_texts(types@).take(i as int),
        decreases types@.len() - i,
    {
        let t = types[i].to_string();
        proof {
            assert(strings_view(items@.push(t)) =~= strings_view(items@).push(t@));
        }
        items.push(t);
        i = i + 1;
        assert(strings_view(items@) =~= type_texts(types@).take(
            i as int,
        ));
    }
    assert(type_texts(types@).take(i as int) =~= type_texts(types@));
    let mut s = String::new();
    let space = vec![' '];
    assert(space@ =~= seq![' ']);
    push_joined(&mut s, &items, &space);
    s
}

/// TXT strings, each quoted, separated by spaces.
fn format_txt(strings: &Vec<String>) -> (r: String)
    ensures
        r@ == txt_text(strings_view(strings@)),
{
    let ghost v = strings_view(strings@);
    let mut items: Vec<String> = Vec::new();
    let mut i: usize = 0;
    while i < strings.len()
        invariant
            v == strings_view(strings@),
            i <= strings@.len(),
            strings_view(items@) == quoted_all(v).take(i as int),
        decreases strings@.len() - i,
    {
        let mut t = String::new();
        push_char(&mut t, '"');
        push_str(&mut t, strings[i].as_str());
        push_char(&mut t, '"');
        proof {
            assert(t@ =~= quoted(v[i as int]));
            assert(strings_view(items@.push(t)) =~= strings_view(items@).push(t@));
        }
        items.push(t);
        i = i + 1;
        assert(strings_view(items@) =~= quoted_all(v).take(i as int));
    }
    assert(quoted_all(v).take(i as int) =~= quoted_all(v));
    let mut s = String::new();
    let space = vec![' '];
    assert(space@ =~= seq![' ']);
    push_joined(&mut s, &items, &space);
    s
}

/// Appends an NSEC3 salt: `-` when empty, else uppercase hex.
fn push_salt(s: &mut String, salt: &Vec<u8>)
    ensures
        final(s)@ == old(s)@ + salt_text(salt@),
{
    if salt.len() == 0 {
        push_char(s, '-');
    } else {
        push_hex_upper(s, salt.as_slice());
    }
}

/// Appends SVCB/HTTPS RDATA.
fn push_svcb(s: &mut String, priority: u16, target: &String, params: &Vec<SvcParam>)
    requires
        params_fit(params_view(params@)),
    ensures
        final(s)@ == old(s)@ + svcb_text(priority, target@, params_view(params@)),
{
    push_decimal(s, priority as u64);
    push_char(s, ' ');
    push_str(s, target.as_str());
    if params.len() > 0 {
        let formatted = format_svc_params(params);
        push_char(s, ' ');
        push_str(s, formatted.as_str());
    }
    assert(s@ =~= old(s)@ + svcb_text(priority, target@, params_view(params@)));
}

impl RData {
    /// The presentation form of the RDATA (what `Display` shows).
    pub fn to_string(&self) -> (r: String)
        requires
            rdata_fits(self@),
        ensures
            r@ == rdata_text(self@),
    {
        let mut s = String::new();
        match self {
            RData::A(a) => {
                push_ipv4(&mut s, &a.octets);
                assert(s@ =~= rdata_text(self@));
            },
            RData::AAAA(a) => {
                push_ipv6(&mut s, &a.octets);
                assert(s@ =~= rdata_text(self@));
            },
            RData::NS(n) => {
                push_str(&mut s, n.as_str());
                assert(s@ =~= rdata_text(self@));
            },
            RData::CNAME(n) => {
                push_str(&mut s, n.as_str());
                assert(s@ =~= rdata_text(self@));
            },
            RData::PTR(n) => {
                push_str(&mut s, n.as_str());
                assert(s@ =~= rdata_text(self@));
            },
            RData::MX { preference, exchange } => {
                push_decimal(&mut s, *preference as u64);
                push_char(&mut s, ' ');
                push_str(&mut s, exchange.as_str());
                assert(s@ =~= rdata_text(self@));
            },
            RData::TXT(strings) => {
                let t = format_txt(strings);
                push_str(&mut s, t.as_str());
                assert(s@ =~= rdata_text(self@));
            },
            RData::SOA { mname, rname, serial, refresh, retry, expire, minimum } => {
                push_str(&mut s, mname.as_str());
                push_char(&mut s, ' ');
                push_str(&mut s, rname.as_str());
                push_char(&mut s, ' ');
                push_decimal(&mut s, *serial as u64);
                push_char(&mut s, ' ');
                push_decimal(&mut s, *refresh as u64);
                push_char(&mut s, ' ');
                push_decimal(&mut s, *retry as u64);
                push_char(&mut s, ' ');
                push_decimal(&mut s, *expire as u64);
                push_char(&mut s, ' ');
                push_decimal(&mut s, *minimum as u64);
                assert(s@ =~= rdata_text(self@));
            },
            RData::SRV { priority, weight, port, target } => {
                push_decimal(&mut s, *priority as u64);
                push_char(&mut s, ' ');
                push_decimal(&mut s, *weight as u64);
                push_char(&mut s, ' ');
                push_decimal(&mut s, *port as u64);
                push_char(&mut s, ' ');
                push_str(&mut s, target.as_str());
                assert(s@ =~= rdata_text(self@));
            },
            RData::CAA { flags, tag, value } => {
                push_decimal(&mut s, *flags as u64);
                push_char(&mut s, ' ');
                push_str(&mut s, tag.as_str());
                push_char(&mut s, ' ');
                push_char(&mut s, '"');
                push_str(&mut s, value.as_str());
                push_char(&mut s, '"');
                assert(s@ =~= rdata_text(self@));
            },
            RData::DS { key_tag, algorithm, digest_type, digest } => {
                push_decimal(&mut s, *key_tag as u64);
                push_char(&mut s, ' ');
                push_decimal(&mut s, *algorithm as u64);
                push_char(&mut s, ' ');
                push_decimal(&mut s, *digest_type as u64);
                push_char(&mut s, ' ');
                push_hex_upper(&mut s, digest.as_slice());
                assert(s@ =~= rdata_text(self@));
            },
            RData::RRSIG {
                type_covered,
                algorithm,
                labels,
                original_ttl,
                expiration,
                inception,
                key_tag,
                signer,
                signature,
            } => {
                let t = type_covered.to_string();
                push_str(&mut s, t.as_str());
                push_char(&mut s, ' ');
                push_decimal(&mut s, *algorithm as u64);
                push_char(&mut s, ' ');
                push_decimal(&mut s, *labels as u64);
                push_char(&mut s, ' ');
                push_decimal(&mut s, *original_ttl as u64);
                push_char(&mut s, ' ');
                push_decimal(&mut s, *expiration as u64);
                push_char(&mut s, ' ');
                push_decimal(&mut s, *inception as u64);
                push_char(&mut s, ' ');
                push_decimal(&mut s, *key_tag as u64);
                push_char(&mut s, ' ');
                push_str(&mut s, signer.as_str());
                push_char(&mut s, ' ');
                let b = base64_encode(signature.as_slice());
                push_str(&mut s, b.as_str());
                assert(s@ =~= rdata_text(self@));
            },
            RData::DNSKEY { flags, protocol, algorithm, public_key } => {
                push_decimal(&mut s, *flags as u64);
                push_char(&mut s, ' ');
                push_decimal(&mut s, *protocol as u64);
                push_char(&mut s, ' ');
                push_decimal(&mut s, *algorithm as u64);
                push_char(&mut s, ' ');
                let b = base64_encode(public_key.as_slice());
                push_str(&mut s, b.as_str());
                assert(s@ =~= rdata_text(self@));
            },
            RData::NSEC { next_domain, type_bitmaps } => {
                push_str(&mut s, next_domain.as_str());
                push_char(&mut s, ' ');
                let t = format_type_bitmaps(type_bitmaps);
                push_str(&mut s, t.as_str());
                assert(s@ =~= rdata_text(self@));
            },
            RData::NSEC3 { algorithm, flags, iterations, salt, next_hashed, type_bitmaps } => {
                push_decimal(&mut s, *algorithm as u64);
                push_char(&mut s, ' ');
                push_decimal(&mut s, *flags as u64);
                push_char(&mut s, ' ');
                push_decimal(&mut s, *iterations as u64);
                push_char(&mut s, ' ');
                push_salt(&mut s, salt);
                push_char(&mut s, ' ');
                let h = base32_encode_hex(next_hashed.as_slice());
                push_str(&mut s, h.as_str());
                push_char(&mut s, ' ');
                let t = format_type_bitmaps(type_bitmaps);
                push_str(&mut s, t.as_str());
                assert(s@ =~= rdata_text(self@));
            },
            RData::NSEC3PARAM { algorithm, flags, iterations, salt } => {
                push_decimal(&mut s, *algorithm as u64);
                push_char(&mut s, ' ');
                push_decimal(&mut s, *flags as u64);
                push_char(&mut s, ' ');
                push_decimal(&mut s, *iterations as u64);
                push_char(&mut s, ' ');
                push_salt(&mut s, salt);
                assert(s@ =~= rdata_text(self@));
            },
            RData::SVCB { priority, target, params } => {
                push_svcb(&mut s, *priority, target, params);
                assert(s@ =~= rdata_text(self@));
            },
            RData::HTTPS { priority, target, params } => {
                push_svcb(&mut s, *priority, target, params);
                assert(s@ =~= rdata_text(self@));
            },
            RData::OPT(_) => {
                push_lit(&mut s, vec!['<', 'O', 'P', 'T', '>']);
                assert(s@ =~= rdata_text(self@));
            },
            RData::Unknown(data) => {
                push_char(&mut s, '\\');
                push_char(&mut s, '#');
                push_char(&mut s, ' ');
                if data.len() == 0 {
                    push_char(&mut s, '0');
                } else {
                    push_decimal(&mut s, data.len() as u64);
                    push_char(&mut s, ' ');
                    push_hex_upper(&mut s, data.as_slice());
                }
                assert(s@ =~= rdata_text(self@));
            },
        }
        s
    }
}

} // verus!
