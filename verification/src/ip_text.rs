//! Reading IP addresses written as text, with the same grammar as the
//! standard library's address parsers: dotted-quad IPv4 (1 to 3 digits per
//! octet, no leading zeros) and RFC 4291 IPv6 text (1 to 4 hex digits per
//! group, one `::`, an optional trailing dotted quad).
use vstd::prelude::*;
use crate::protocol::addr::{IpAddress, Ipv4Addr, Ipv6Addr};
use crate::text::chars_of;

verus! {

/// The value of `c` as a digit in base `radix` (10 or 16; both cases of
/// hex letters), if it is one.
pub open spec fn digit_value(c: char, radix: nat) -> Option<nat> {
    let u = c as u32;
    if 48 <= u <= 57 {
        Some((u - 48) as nat)
    } else if radix == 16 && 97 <= u <= 102 {
        Some((u - 87) as nat)
    } else if radix == 16 && 65 <= u <= 70 {
        Some((u - 55) as nat)
    } else {
        None
    }
}

/// The length of the run of base-`radix` digits at `pos`.
pub open spec fn digit_run(s: Seq<char>, pos: int, radix: nat) -> nat
    decreases s.len() - pos,
{
    if pos < 0 || pos >= s.len() || digit_value(s[pos], radix) is None {
        0
    } else {
        1 + digit_run(s, pos + 1, radix)
    }
}

/// The value of the `n` digits at `pos`.
pub open spec fn run_value(s: Seq<char>, pos: int, n: nat, radix: nat) -> nat
    decreases n,
{
    if n == 0 {
        0
    } else {
        run_value(s, pos, (n - 1) as nat, radix) * radix + digit_value(s[pos + n - 1], radix).unwrap()
    }
}

/// A number at `pos`: the whole run of digits is read; it must have 1 to
/// `max_digits` digits, no leading zero unless `zero_prefix` allows it (a
/// lone `0` is always fine), and a value up to `limit`. Gives the value and
/// the position after it.
pub open spec fn read_number(s: Seq<char>, pos: int, radix: nat, max_digits: nat, zero_prefix: bool, limit: nat) -> Option<(nat, int)> {
    let n = digit_run(s, pos, radix);
    if n == 0 || n > max_digits {
        None
    } else if !zero_prefix && s[pos] == '0' && n > 1 {
        None
    } else if run_value(s, pos, n, radix) > limit {
        None
    } else {
        Some((run_value(s, pos, n, radix), pos + n))
    }
}

/// The separator `sep` at `pos` when `index > 0`, then what follows it.
pub open spec fn after_sep(s: Seq<char>, pos: int, sep: char, index: nat) -> Option<int> {
    if index == 0 {
        Some(pos)
    } else if 0 <= pos < s.len() && s[pos] == sep {
        Some(pos + 1)
    } else {
        None
    }
}

/// A dotted quad from `pos`: the octets read so far are `acc`.
pub open spec fn read_octets(s: Seq<char>, pos: int, acc: Seq<u8>) -> Option<(Seq<u8>, int)>
    decreases 4 - acc.len(),
{
    if acc.len() >= 4 {
        Some((acc, pos))
    } else {
        match after_sep(s, pos, '.', acc.len()) {
            Some(p) => match read_number(s, p, 10, 3, false, 255) {
                Some((v, q)) => read_octets(s, q, acc.push(v as u8)),
                None => None,
            },
            None => None,
        }
    }
}

/// The octets of a dotted quad at `pos` and the position after it.
pub open spec fn read_ipv4(s: Seq<char>, pos: int) -> Option<(Seq<u8>, int)> {
    read_octets(s, pos, Seq::empty())
}

/// The IPv4 address that `s` is the text of, if any.
pub open spec fn spec_parse_ipv4(s: Seq<char>) -> Option<Seq<u8>> {
    match read_ipv4(s, 0) {
        Some((o, p)) => if p == s.len() {
            Some(o)
        } else {
            None
        },
        None => None,
    }
}

/// Reading IPv6 groups from `pos`, slot `i` of `limit`, with `acc` read so
/// far: before the last slot a dotted quad may end the groups (filling two
/// slots); otherwise a hex group of 1 to 4 digits; the groups end at the
/// first slot where neither can be read. Gives the groups, the position
/// after them, and whether a dotted quad ended them.
pub open spec fn read_groups(s: Seq<char>, pos: int, i: nat, limit: nat, acc: Seq<u16>) -> (Seq<u16>, int, bool)
    decreases limit - i,
{
    if i >= limit {
        (acc, pos, false)
    } else {
        let v4 = if i + 1 < limit {
            match after_sep(s, pos, ':', i) {
                Some(p) => read_ipv4(s, p),
                None => None,
            }
        } else {
            None
        };
        match v4 {
            Some((o, q)) => (
                acc.push((o[0] as int * 256 + o[1] as int) as u16).push(
                    (o[2] as int * 256 + o[3] as int) as u16,
                ),
                q,
                true,
            ),
            None => match after_sep(s, pos, ':', i) {
                Some(p) => match read_number(s, p, 16, 4, true, 65535) {
                    Some((v, q)) => read_groups(s, q, i + 1, limit, acc.push(v as u16)),
                    None => (acc, pos, false),
                },
                None => (acc, pos, false),
            },
        }
    }
}

/// The sixteen octets of eight groups.
pub open spec fn groups_octets(g: Seq<u16>) -> Seq<u8> {
    Seq::new(16, |k: int| if k % 2 == 0 { (g[k / 2] / 256) as u8 } else { (g[k / 2] % 256) as u8 })
}

/// The IPv6 address that `s` is the text of, if any: eight groups, or fewer
/// around a `::` that stands for at least one zero group.
pub open spec fn spec_parse_ipv6(s: Seq<char>) -> Option<Seq<u8>> {
    let (head, p1, v4) = read_groups(s, 0, 0, 8, Seq::empty());
    if head.len() == 8 {
        if p1 == s.len() {
            Some(groups_octets(head))
        } else {
            None
        }
    } else if v4 {
        None
    } else if !(0 <= p1 && p1 + 1 < s.len() && s[p1] == ':' && s[p1 + 1] == ':') {
        None
    } else {
        let (tail, p2, _) = read_groups(s, p1 + 2, 0, (7 - head.len()) as nat, Seq::empty());
        if p2 == s.len() {
            Some(
                groups_octets(
                    head + Seq::new((8 - head.len() - tail.len()) as nat, |k: int| 0u16) + tail,
                ),
            )
        } else {
            None
        }
    }
}

/// The address that `s` is the text of: IPv4 if it reads as one, else IPv6.
pub open spec fn spec_parse_ip(s: Seq<char>) -> Option<IpAddress> {
    match spec_parse_ipv4(s) {
        Some(o) => Some(IpAddress::V4(Ipv4Addr { octets: seq_to_array4(o) })),
        None => match spec_parse_ipv6(s) {
            Some(o) => Some(IpAddress::V6(Ipv6Addr { octets: seq_to_array16(o) })),
            None => None,
        },
    }
}

/// An array with the given four items.
pub open spec fn seq_to_array4(o: Seq<u8>) -> [u8; 4] {
    choose|a: [u8; 4]| a@ == o
}

/// An array with the given sixteen items.
pub open spec fn seq_to_array16(o: Seq<u8>) -> [u8; 16] {
    choose|a: [u8; 16]| a@ == o
}

/// The value of a digit character.
fn digit_of(c: char, radix: u32) -> (r: Option<u32>)
    requires
        radix == 10 || radix == 16,
    ensures
        match r {
            Some(v) => digit_value(c, radix as nat) == Some(v as nat) && v < radix,
            None => digit_value(c, radix as nat) is None,
        },
{
    let u = c as u32;
    if 48 <= u && u <= 57 {
        Some(u - 48)
    } else if radix == 16 && 97 <= u && u <= 102 {
        Some(u - 87)
    } else if radix == 16 && 65 <= u && u <= 70 {
        Some(u - 55)
    } else {
        None
    }
}

/// Sixteen to the power `k`.
pub open spec fn pow16(k: nat) -> nat
    decreases k,
{
    if k == 0 {
        1
    } else {
        16 * pow16((k - 1) as nat)
    }
}

/// A run of `k` digits at `pos` that ends there (at the end of the text or
/// before a non-digit) is the whole run.
proof fn lemma_digit_run_exact(s: Seq<char>, pos: int, radix: nat, k: nat)
    requires
        0 <= pos,
        pos + k <= s.len(),
        forall|j: int| 0 <= j < k ==> #[trigger] digit_value(s[pos + j], radix) is Some,
    ensures
        digit_run(s, pos, radix) >= k,
        (pos + k == s.len() || digit_value(s[pos + k], radix) is None) ==> digit_run(s, pos, radix) == k,
    decreases k,
{
    if k > 0 {
        assert forall|j: int| 0 <= j < k - 1 implies #[trigger] digit_value(s[pos + 1 + j], radix) is Some by {
            assert(digit_value(s[pos + (j + 1)], radix) is Some);
        }
        lemma_digit_run_exact(s, pos + 1, radix, (k - 1) as nat);
        assert(digit_value(s[pos + 0], radix) is Some);
    }
}

/// Reads a number at `pos` (see `read_number`).
fn exec_read_number(v: &Vec<char>, pos: usize, radix: u32, max_digits: usize, zero_prefix: bool, limit: u64) -> (r: Option<(u64, usize)>)
    requires
        radix == 10 || radix == 16,
        pos <= v@.len(),
        1 <= max_digits <= 4,
    ensures
        match r {
            Some((x, q)) => read_number(v@, pos as int, radix as nat, max_digits as nat, zero_prefix, limit as nat)
                == Some((x as nat, q as int)) && q <= v@.len() && x <= limit,
            None => read_number(v@, pos as int, radix as nat, max_digits as nat, zero_prefix, limit as nat) is None,
        },
{
    let n = v.len();
    let mut k: usize = 0;
    let mut value: u64 = 0;
    let mut pw: u64 = 1;
    let mut stop = false;
    proof {
        reveal_with_fuel(pow16, 5);
    }
    while !stop && pos + k < n && k <= max_digits
        invariant
            n == v@.len(),
            pos <= n,
            k <= max_digits + 1,
            pos + k <= n,
            1 <= max_digits <= 4,
            radix == 10 || radix == 16,
            forall|j: int| 0 <= j < k ==> #[trigger] digit_value(v@[pos + j], radix as nat) is Some,
            stop ==> pos + k < n && digit_value(v@[pos + k], radix as nat) is None,
            k <= max_digits ==> value as nat == run_value(v@, pos as int, k as nat, radix as nat),
            k <= max_digits ==> value < pw,
            k <= max_digits ==> pw <= pow16(k as nat),
            pow16(4) == 65536,
        decreases (n - pos - k) as int + if stop { 0int } else { 1int },
    {
        match digit_of(v[pos + k], radix) {
            Some(d) => {
                if k < max_digits {
                    let ghost old_value = value;
                    assert(pow16((k + 1) as nat) == 16 * pow16(k as nat));
                    assert(pow16(k as nat) <= 4096) by {
                        reveal_with_fuel(pow16, 5);
                    }
                    assert(value * (radix as u64) + (d as u64) < pw * (radix as u64)) by (nonlinear_arith)
                        requires
                            value < pw,
                            d < radix,
                    ;
                    assert(pw * (radix as u64) <= 16 * pow16(k as nat)) by (nonlinear_arith)
                        requires
                            pw <= pow16(k as nat),
                            radix <= 16,
                    ;
                    value = value * (radix as u64) + (d as u64);
                    pw = pw * (radix as u64);
                    assert(run_value(v@, pos as int, (k + 1) as nat, radix as nat) == run_value(
                        v@,
                        pos as int,
                        k as nat,
                        radix as nat,
                    ) * radix as nat + digit_value(v@[pos + k], radix as nat).unwrap());
                }
                k = k + 1;
            },
            None => {
                stop = true;
            },
        }
    }
    proof {
        lemma_digit_run_exact(v@, pos as int, radix as nat, k as nat);
    }
    if k == 0 || k > max_digits {
        return None;
    }
    if !zero_prefix && v[pos] == '0' && k > 1 {
        return None;
    }
    if value > limit {
        return None;
    }
    Some((value, pos + k))
}

/// Reads the separator (when `index > 0`) at `pos`.
fn exec_after_sep(v: &Vec<char>, pos: usize, sep: char, index: usize) -> (r: Option<usize>)
    requires
        pos <= v@.len(),
    ensures
        match r {
            Some(p) => after_sep(v@, pos as int, sep, index as nat) == Some(p as int) && p <= v@.len(),
            None => after_sep(v@, pos as int, sep, index as nat) is None,
        },
{
    if index == 0 {
        Some(pos)
    } else if pos < v.len() && v[pos] == sep {
        Some(pos + 1)
    } else {
        None
    }
}

/// Reads a dotted quad at `pos`.
fn exec_read_ipv4(v: &Vec<char>, pos: usize) -> (r: Option<(Vec<u8>, usize)>)
    requires
        pos <= v@.len(),
    ensures
        match r {
            Some((o, q)) => read_ipv4(v@, pos as int) == Some((o@, q as int)) && q <= v@.len()
                && o@.len() == 4,
            None => read_ipv4(v@, pos as int) is None,
        },
{
    let mut acc: Vec<u8> = Vec::new();
    let mut p: usize = pos;
    while acc.len() < 4
        invariant
            p <= v@.len(),
            acc@.len() <= 4,
            read_ipv4(v@, pos as int) == read_octets(v@, p as int, acc@),
        decreases 4 - acc@.len(),
    {
        let q = match exec_after_sep(v, p, '.', acc.len()) {
            Some(q) => q,
            None => return None,
        };
        match exec_read_number(v, q, 10, 3, false, 255) {
            Some((x, q2)) => {
                acc.push(x as u8);
                p = q2;
            },
            None => return None,
        }
    }
    Some((acc, p))
}

/// Reads IPv6 groups from `pos`, up to `limit` slots (see `read_groups`).
fn exec_read_groups(v: &Vec<char>, pos: usize, limit: usize) -> (r: (Vec<u16>, usize, bool))
    requires
        pos <= v@.len(),
        limit <= 8,
    ensures
        read_groups(v@, pos as int, 0, limit as nat, Seq::empty()) == (r.0@, r.1 as int, r.2),
        r.1 <= v@.len(),
        r.0@.len() <= limit,
{
    let mut acc: Vec<u16> = Vec::new();
    let mut p: usize = pos;
    let mut i: usize = 0;
    while i < limit
        invariant
            p <= v@.len(),
            i <= limit <= 8,
            acc@.len() == i,
            read_groups(v@, pos as int, 0, limit as nat, Seq::empty()) == read_groups(
                v@,
                p as int,
                i as nat,
                limit as nat,
                acc@,
            ),
        decreases limit - i,
    {
        if i + 1 < limit {
            match exec_after_sep(v, p, ':', i) {
                Some(q) => match exec_read_ipv4(v, q) {
                    Some((o, q2)) => {
                        let g1: u16 = (o[0] as u16) * 256 + (o[1] as u16);
                        let g2: u16 = (o[2] as u16) * 256 + (o[3] as u16);
                        acc.push(g1);
                        acc.push(g2);
                        return (acc, q2, true);
                    },
                    None => {},
                },
                None => {},
            }
        }
        let q = match exec_after_sep(v, p, ':', i) {
            Some(q) => q,
            None => return (acc, p, false),
        };
        match exec_read_number(v, q, 16, 4, true, 65535) {
            Some((x, q2)) => {
                acc.push(x as u16);
                p = q2;
            },
            None => return (acc, p, false),
        }
        i = i + 1;
    }
    (acc, p, false)
}

/// The sixteen octets of eight groups.
fn octets_of_groups(g: &Vec<u16>) -> (r: [u8; 16])
    requires
        g@.len() == 8,
    ensures
        r@ == groups_octets(g@),
{
    let mut o: [u8; 16] = [0u8; 16];
    let mut k: usize = 0;
    while k < 8
        invariant
            g@.len() == 8,
            k <= 8,
            forall|j: int| 0 <= j < 2 * k ==> o@[j] == groups_octets(g@)[j],
        decreases 8 - k,
    {
        o.set(2 * k, (g[k] / 256) as u8);
        o.set(2 * k + 1, (g[k] % 256) as u8);
        k = k + 1;
    }
    assert(o@ =~= groups_octets(g@));
    o
}

/// Parses IPv4 text.
pub fn parse_ipv4(s: &str) -> (r: Option<Ipv4Addr>)
    ensures
        match r {
            Some(a) => spec_parse_ipv4(s@) == Some(a.octets@),
            None => spec_parse_ipv4(s@) is None,
        },
{
    let v = chars_of(s);
    match exec_read_ipv4(&v, 0) {
        Some((o, p)) => {
            if p == v.len() {
                let a = Ipv4Addr::new(o[0], o[1], o[2], o[3]);
                assert(a.octets@ =~= o@);
                Some(a)
            } else {
                None
            }
        },
        None => None,
    }
}

/// Parses IPv6 text.
pub fn parse_ipv6(s: &str) -> (r: Option<Ipv6Addr>)
    ensures
        match r {
            Some(a) => spec_parse_ipv6(s@) == Some(a.octets@),
            None => spec_parse_ipv6(s@) is None,
        },
{
    let v = chars_of(s);
    let n = v.len();
    let (head, p1, v4) = exec_read_groups(&v, 0, 8);
    if head.len() == 8 {
        if p1 == n {
            return Some(Ipv6Addr::from_octets(octets_of_groups(&head)));
        }
        return None;
    }
    if v4 {
        return None;
    }
    if !(p1 < n && n - p1 > 1 && v[p1] == ':' && v[p1 + 1] == ':') {
        return None;
    }
    let (tail, p2, _) = exec_read_groups(&v, p1 + 2, 7 - head.len());
    if p2 != n {
        return None;
    }
    let mut all: Vec<u16> = Vec::new();
    let mut i: usize = 0;
    while i < head.len()
        invariant
            i <= head@.len(),
            all@ == head@.take(i as int),
        decreases head@.len() - i,
    {
        all.push(head[i]);
        i = i + 1;
        assert(all@ =~= head@.take(i as int));
    }
    assert(head@.take(i as int) =~= head@);
    let zeros: usize = 8 - head.len() - tail.len();
    let mut z: usize = 0;
    while z < zeros
        invariant
            z <= zeros,
            all@ == head@ + Seq::new(z as nat, |k: int| 0u16),
        decreases zeros - z,
    {
        all.push(0);
        z = z + 1;
        assert(all@ =~= head@ + Seq::new(z as nat, |k: int| 0u16));
    }
    let mut t: usize = 0;
    while t < tail.len()
        invariant
            t <= tail@.len(),
            all@ == head@ + Seq::new(zeros as nat, |k: int| 0u16) + tail@.take(t as int),
        decreases tail@.len() - t,
    {
        all.push(tail[t]);
        t = t + 1;
        assert(all@ =~= head@ + Seq::new(zeros as nat, |k: int| 0u16) + tail@.take(t as int));
    }
    assert(tail@.take(t as int) =~= tail@);
    Some(Ipv6Addr::from_octets(octets_of_groups(&all)))
}

/// Parses an IP address: IPv4 text, else IPv6 text.
pub fn parse_ip(s: &str) -> (r: Option<IpAddress>)
    ensures
        match r {
            Some(IpAddress::V4(a)) => spec_parse_ipv4(s@) == Some(a.octets@),
            Some(IpAddress::V6(a)) => spec_parse_ipv4(s@) is None && spec_parse_ipv6(s@) == Some(a.octets@),
            None => spec_parse_ipv4(s@) is None && spec_parse_ipv6(s@) is None,
        },
{
    match parse_ipv4(s) {
        Some(a) => Some(IpAddress::V4(a)),
        None => match parse_ipv6(s) {
            Some(a) => Some(IpAddress::V6(a)),
            None => None,
        },
    }
}

} // verus!
