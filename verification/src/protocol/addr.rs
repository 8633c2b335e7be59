//! IPv4 and IPv6 addresses as they appear in A/AAAA records and EDNS options.
use vstd::prelude::*;
use crate::text::{decimal, push_char, push_decimal, lower_hex_digit};
use crate::protocol::wire::be16;

verus! {

/// An IPv4 address: four octets, most significant first.
#[derive(Debug, Clone, Copy, PartialEq, Eq)]
pub struct Ipv4Addr {
    pub octets: [u8; 4],
}

/// An IPv6 address: sixteen octets, most significant first.
#[derive(Debug, Clone, Copy, PartialEq, Eq)]
pub struct Ipv6Addr {
    pub octets: [u8; 16],
}

/// An IPv4 or IPv6 address.
#[derive(Debug, Clone, Copy, PartialEq, Eq)]
pub enum IpAddress {
    V4(Ipv4Addr),
    V6(Ipv6Addr),
}

/// Dotted-decimal text of four octets.
pub open spec fn ipv4_text(o: Seq<u8>) -> Seq<char> {
    decimal(o[0] as nat) + seq!['.'] + decimal(o[1] as nat) + seq!['.'] + decimal(o[2] as nat)
        + seq!['.'] + decimal(o[3] as nat)
}

/// Lowercase hexadecimal without leading zeros ("0" for zero).
pub open spec fn hex_number(n: nat) -> Seq<char>
    decreases n,
{
    if n < 16 {
        seq![lower_hex_digit(n as int)]
    } else {
        hex_number(n / 16).push(lower_hex_digit((n % 16) as int))
    }
}

/// The eight 16-bit groups of an IPv6 address.
pub open spec fn ipv6_groups(o: Seq<u8>) -> Seq<u16> {
    Seq::new(8, |i: int| be16(o[2 * i], o[2 * i + 1]))
}

/// Groups written in hexadecimal and separated by colons.
pub open spec fn groups_text(g: Seq<u16>) -> Seq<char>
    decreases g.len(),
{
    if g.len() == 0 {
        Seq::empty()
    } else if g.len() == 1 {
        hex_number(g[0] as nat)
    } else {
        groups_text(g.drop_last()) + seq![':'] + hex_number(g.last() as nat)
    }
}

/// After scanning the first `n` groups: (start, length) of the current run
/// of zero groups and of the first longest run seen so far.
pub open spec fn zero_scan(g: Seq<u16>, n: int) -> (int, int, int, int)
    decreases n,
{
    if n <= 0 {
        (0, 0, 0, 0)
    } else {
        let (cs, cl, bs, bl) = zero_scan(g, n - 1);
        if g[n - 1] == 0 {
            let ncs = if cl == 0 { n - 1 } else { cs };
            let ncl = cl + 1;
            if ncl > bl {
                (ncs, ncl, ncs, ncl)
            } else {
                (ncs, ncl, bs, bl)
            }
        } else {
            (0, 0, bs, bl)
        }
    }
}

/// Groups `s..s + l` of `g` exist and are all zero.
pub open spec fn zero_run(g: Seq<u16>, s: int, l: int) -> bool {
    &&& 0 <= s
    &&& 0 <= l
    &&& s + l <= g.len()
    &&& forall|i: int| s <= i < s + l ==> #[trigger] g[i] == 0
}

/// Groups `s..s + l` are a zero run that no other is longer than, and the
/// first of the longest.
pub open spec fn longest_zero_run(g: Seq<u16>, s: int, l: int) -> bool {
    &&& zero_run(g, s, l)
    &&& forall|s2: int, l2: int| #[trigger] zero_run(g, s2, l2) ==> l2 <= l && (l2 == l && l2 > 0
        ==> s <= s2)
}

/// What scanning the first `n` groups finds: the current run of zeros ends
/// at `n` and reaches back as far as the zeros go; the best run is a zero
/// run among the first `n` groups, as long as any of them and the first of
/// that length.
proof fn lemma_zero_scan(g: Seq<u16>, n: int)
    requires
        0 <= n <= g.len(),
    ensures
        ({
            let (cs, cl, bs, bl) = zero_scan(g, n);
            &&& zero_run(g, cs, cl)
            &&& cl > 0 ==> cs + cl == n && (cs == 0 || g[cs - 1] != 0)
            &&& cl == 0 ==> (n == 0 || g[n - 1] != 0)
            &&& forall|s: int, l: int| #[trigger] zero_run(g, s, l) && s + l == n && l > 0 ==> l <= cl
            &&& zero_run(g, bs, bl)
            &&& bs + bl <= n
            &&& forall|s: int, l: int| #[trigger] zero_run(g, s, l) && s + l <= n ==> l <= bl && (l
                == bl && l > 0 ==> bs <= s)
        }),
    decreases n,
{
    if n > 0 {
        lemma_zero_scan(g, n - 1);
        let (cs, cl, bs, bl) = zero_scan(g, n - 1);
        if g[n - 1] != 0 {
            assert forall|s: int, l: int| #[trigger] zero_run(g, s, l) && s + l <= n implies l <= bl
                && (l == bl && l > 0 ==> bs <= s) by {
                if l > 0 && s + l == n {
                    assert(g[n - 1] == 0);
                }
            }
            assert forall|s: int, l: int| #[trigger] zero_run(g, s, l) && s + l == n && l > 0 implies l <= 0 by {
                assert(g[n - 1] == 0);
            }
        } else {
            let ncs = if cl == 0 { n - 1 } else { cs };
            let ncl = cl + 1;
            assert(zero_run(g, ncs, ncl));
            assert forall|s: int, l: int| #[trigger] zero_run(g, s, l) && s + l == n && l > 0 implies l <= ncl by {
                if s < ncs {
                    assert(g[ncs - 1] == 0);
                }
            }
            assert forall|s: int, l: int| #[trigger] zero_run(g, s, l) && s + l <= n implies (l <= (if ncl > bl { ncl } else { bl })
                && (l == (if ncl > bl { ncl } else { bl }) && l > 0 ==> (if ncl > bl { ncs } else { bs }) <= s)) by {
                if s + l == n && l > 0 {
                    if s < ncs {
                        assert(g[ncs - 1] == 0);
                    }
                } else if l > 0 {
                    assert(zero_run(g, s, l) && s + l <= n - 1);
                }
            }
        }
    }
}

/// An address's text writes the first longest run of two or more zero
/// groups as `::` and every other group in hexadecimal; with no such run it
/// writes all eight groups (RFC 5952 §4.2).
pub proof fn lemma_ipv6_text_compresses_longest_zero_run(o: Seq<u8>)
    requires
        o.len() == 16,
        !is_ipv4_mapped(o),
    ensures
        (forall|s: int, l: int| #[trigger] zero_run(ipv6_groups(o), s, l) ==> l <= 1) ==> ipv6_text(o)
            == groups_text(ipv6_groups(o)),
        forall|s: int, l: int| #[trigger] longest_zero_run(ipv6_groups(o), s, l) && l > 1 ==> ipv6_text(
            o,
        ) == groups_text(ipv6_groups(o).subrange(0, s)) + seq![':', ':'] + groups_text(
            ipv6_groups(o).subrange(s + l, 8),
        ),
{
    let g = ipv6_groups(o);
    lemma_zero_scan(g, 8);
    let (cs, cl, bs, bl) = zero_scan(g, 8);
    assert forall|s: int, l: int| #[trigger] longest_zero_run(g, s, l) && l > 1 implies s == bs
        && l == bl by {
        assert(zero_run(g, bs, bl));
        assert(zero_run(g, s, l));
    }
    if forall|s: int, l: int| #[trigger] zero_run(g, s, l) ==> l <= 1 {
        assert(zero_run(g, bs, bl));
    }
}

/// Whether the address is IPv4-mapped (`::ffff:a.b.c.d`).
pub open spec fn is_ipv4_mapped(o: Seq<u8>) -> bool {
    &&& forall|i: int| 0 <= i < 10 ==> o[i] == 0
    &&& o[10] == 0xff
    &&& o[11] == 0xff
}

/// RFC 5952 text of an IPv6 address, as `std` shows it: IPv4-mapped
/// addresses as `::ffff:a.b.c.d`; otherwise lowercase hexadecimal groups
/// with the first longest run of two or more zero groups written as `::`.
pub open spec fn ipv6_text(o: Seq<u8>) -> Seq<char> {
    if is_ipv4_mapped(o) {
        seq![':', ':', 'f', 'f', 'f', 'f', ':'] + ipv4_text(o.subrange(12, 16))
    } else {
        let g = ipv6_groups(o);
        let (cs, cl, bs, bl) = zero_scan(g, 8);
        if bl > 1 {
            groups_text(g.subrange(0, bs)) + seq![':', ':'] + groups_text(g.subrange(bs + bl, 8))
        } else {
            groups_text(g)
        }
    }
}

/// Appends `n` in lowercase hexadecimal without leading zeros.
pub fn push_hex_number(s: &mut String, n: u16)
    ensures
        final(s)@ == old(s)@ + hex_number(n as nat),
    decreases n,
{
    if n >= 16 {
        push_hex_number(s, n / 16);
    }
    let d: u8 = (n % 16) as u8;
    push_char(s, if d < 10 { (48u8 + d) as char } else { (87u8 + d) as char });
    assert(s@ =~= old(s)@ + hex_number(n as nat));
}

/// Appends groups `g[from..to]` separated by colons.
fn push_groups(s: &mut String, g: &Vec<u16>, from: usize, to: usize)
    requires
        from <= to <= g@.len(),
    ensures
        final(s)@ == old(s)@ + groups_text(g@.subrange(from as int, to as int)),
{
    let mut i: usize = from;
    assert(g@.subrange(from as int, from as int) =~= Seq::<u16>::empty());
    while i < to
        invariant
            from <= i <= to <= g@.len(),
            s@ == old(s)@ + groups_text(g@.subrange(from as int, i as int)),
        decreases to - i,
    {
        if i > from {
            push_char(s, ':');
        }
        push_hex_number(s, g[i]);
        let ghost sub = g@.subrange(from as int, i + 1);
        assert(sub.drop_last() =~= g@.subrange(from as int, i as int));
        i = i + 1;
        if i - from == 1 {
            assert(sub =~= seq![g@[from as int]]);
        }
        assert(s@ =~= old(s)@ + groups_text(g@.subrange(from as int, i as int)));
    }
}

/// Appends the RFC 5952 text of sixteen octets.
pub fn push_ipv6(s: &mut String, o: &[u8; 16])
    ensures
        final(s)@ == old(s)@ + ipv6_text(o@),
{
    let mut mapped = o[10] == 0xff && o[11] == 0xff;
    let mut k: usize = 0;
    while k < 10
        invariant
            k <= 10,
            mapped == (o@[10] == 0xff && o@[11] == 0xff && forall|i: int| 0 <= i < k ==> o@[i] == 0),
        decreases 10 - k,
    {
        if o[k] != 0 {
            mapped = false;
        }
        k = k + 1;
    }
    if mapped {
        push_char(s, ':');
        push_char(s, ':');
        push_char(s, 'f');
        push_char(s, 'f');
        push_char(s, 'f');
        push_char(s, 'f');
        push_char(s, ':');
        let v4: [u8; 4] = [o[12], o[13], o[14], o[15]];
        assert(v4@ =~= o@.subrange(12, 16));
        push_ipv4(s, &v4);
        assert(s@ =~= old(s)@ + ipv6_text(o@));
        return;
    }
    let mut g: Vec<u16> = Vec::new();
    let mut j: usize = 0;
    while j < 8
        invariant
            j <= 8,
            g@ == ipv6_groups(o@).take(j as int),
        decreases 8 - j,
    {
        g.push((o[2 * j] as u16) * 256 + (o[2 * j + 1] as u16));
        j = j + 1;
        assert(g@ =~= ipv6_groups(o@).take(j as int));
    }
    assert(g@ =~= ipv6_groups(o@));
    let mut cs: usize = 0;
    let mut cl: usize = 0;
    let mut bs: usize = 0;
    let mut bl: usize = 0;
    let mut i: usize = 0;
    while i < 8
        invariant
            i <= 8,
            g@ == ipv6_groups(o@),
            zero_scan(g@, i as int) == (cs as int, cl as int, bs as int, bl as int),
            cl <= i,
            cl > 0 ==> cs + cl == i,
            bs + bl <= i,
        decreases 8 - i,
    {
        if g[i] == 0 {
            if cl == 0 {
                cs = i;
            }
            cl = cl + 1;
            if cl > bl {
                bs = cs;
                bl = cl;
            }
        } else {
            cs = 0;
            cl = 0;
        }
        i = i + 1;
    }
    if bl > 1 {
        push_groups(s, &g, 0, bs);
        push_char(s, ':');
        push_char(s, ':');
        let ghost mid = s@;
        push_groups(s, &g, bs + bl, 8);
        assert(s@ =~= old(s)@ + ipv6_text(o@));
    } else {
        push_groups(s, &g, 0, 8);
        assert(g@.subrange(0, 8) =~= g@);
    }
}

impl Ipv4Addr {
    /// The address `a.b.c.d`.
    pub fn new(a: u8, b: u8, c: u8, d: u8) -> (r: Self)
        ensures
            r.octets@ == seq![a, b, c, d],
    {
        let r = Ipv4Addr { octets: [a, b, c, d] };
        assert(r.octets@ =~= seq![a, b, c, d]);
        r
    }

    /// The four octets.
    pub fn octets(&self) -> (r: [u8; 4])
        ensures
            r@ == self.octets@,
    {
        self.octets
    }

    /// Dotted-decimal text (what `Display` shows).
    pub fn to_string(&self) -> (r: String)
        ensures
            r@ == ipv4_text(self.octets@),
    {
        let mut s = String::new();
        push_ipv4(&mut s, &self.octets);
        s
    }
}

/// Appends the dotted-decimal text of four octets.
pub fn push_ipv4(s: &mut String, o: &[u8; 4])
    ensures
        final(s)@ == old(s)@ + ipv4_text(o@),
{
    push_decimal(s, o[0] as u64);
    push_char(s, '.');
    push_decimal(s, o[1] as u64);
    push_char(s, '.');
    push_decimal(s, o[2] as u64);
    push_char(s, '.');
    push_decimal(s, o[3] as u64);
    assert(s@ =~= old(s)@ + ipv4_text(o@));
}

impl Ipv6Addr {
    /// The address with the given sixteen octets.
    pub fn from_octets(octets: [u8; 16]) -> (r: Self)
        ensures
            r.octets@ == octets@,
    {
        Ipv6Addr { octets }
    }

    /// The sixteen octets.
    pub fn octets(&self) -> (r: [u8; 16])
        ensures
            r@ == self.octets@,
    {
        self.octets
    }

    /// RFC 5952 text (what `Display` shows).
    pub fn to_string(&self) -> (r: String)
        ensures
            r@ == ipv6_text(self.octets@),
    {
        let mut s = String::new();
        push_ipv6(&mut s, &self.octets);
        s
    }
}

} // verus!
