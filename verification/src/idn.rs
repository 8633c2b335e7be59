//! Internationalized domain names: conversion to the ASCII (A-label) form
//! for the wire, and back to Unicode for display.
use vstd::prelude::*;
use crate::error::DnsError;
use crate::text::{all_ascii, chars_of, push_char, push_lit, push_str, string_of};

verus! {

/// What `idna::domain_to_ascii` gives for a name: the ASCII form, or `None`
/// where the crate reports an error.
pub uninterp spec fn idna_to_ascii(s: Seq<char>) -> Option<Seq<char>>;

/// What `idna::domain_to_unicode` gives for a name: the Unicode form (the
/// crate's error report is not part of it).
pub uninterp spec fn idna_to_unicode(s: Seq<char>) -> Seq<char>;

/// UTS-46 conversion to ASCII. Wraps `idna::domain_to_ascii`, naming its
/// result; the crate's error value becomes `None`.
#[verifier::external_body]
fn domain_to_ascii(s: &str) -> (r: Option<String>)
    ensures
        match r {
            Some(x) => idna_to_ascii(s@) == Some(x@),
            None => idna_to_ascii(s@) is None,
        },
{
    idna::domain_to_ascii(s).ok()
}

/// UTS-46 conversion to Unicode. Wraps `idna::domain_to_unicode`, naming the
/// text it returns; its error report is dropped.
#[verifier::external_body]
fn domain_to_unicode(s: &str) -> (r: String)
    ensures
        r@ == idna_to_unicode(s@),
{
    idna::domain_to_unicode(s).0
}

/// The message for a name that IDNA rejects.
pub open spec fn idn_error_text(name: Seq<char>) -> Seq<char> {
    seq!['i', 'n', 'v', 'a', 'l', 'i', 'd', ' ', 'i', 'n', 't', 'e', 'r', 'n', 'a', 't', 'i', 'o', 'n', 'a', 'l', 'i', 'z', 'e', 'd', ' ']
        + seq!['d', 'o', 'm', 'a', 'i', 'n', ' ', 'n', 'a', 'm', 'e', ':', ' '] + name
}

/// A name with one trailing root dot removed, when something is left.
pub open spec fn strip_root_dot(name: Seq<char>) -> (Seq<char>, bool) {
    if name.len() > 1 && name.last() == '.' {
        (name.drop_last(), true)
    } else {
        (name, false)
    }
}

/// The wire (ASCII) form of a name: ASCII names unchanged; otherwise the
/// IDNA conversion of the name without its root dot, with the dot put back.
pub open spec fn spec_to_ascii(name: Seq<char>) -> Option<Seq<char>> {
    if all_ascii(name) {
        Some(name)
    } else {
        let (bare, dot) = strip_root_dot(name);
        match idna_to_ascii(bare) {
            Some(a) => Some(if dot { a.push('.') } else { a }),
            None => None,
        }
    }
}

/// Converts a name to its ASCII form; a name that IDNA rejects is a usage
/// error.
pub fn to_ascii(name: &str) -> (r: Result<String, DnsError>)
    ensures
        match r {
            Ok(a) => spec_to_ascii(name@) == Some(a@),
            Err(e) => spec_to_ascii(name@) is None && (e matches DnsError::Usage(m) && m@
                == idn_error_text(name@)),
        },
{
    let cs = chars_of(name);
    let n = cs.len();
    let mut ascii = true;
    let mut i: usize = 0;
    while i < n
        invariant
            n == cs@.len(),
            cs@ == name@,
            i <= n,
            ascii == forall|k: int| 0 <= k < i ==> (#[trigger] cs@[k] as u32) < 128,
        decreases n - i,
    {
        if (cs[i] as u32) >= 128 {
            ascii = false;
        }
        i = i + 1;
    }
    if ascii {
        return Ok(string_of(&cs));
    }
    let dot = n > 1 && cs[n - 1] == '.';
    let bare = if dot {
        let mut b: Vec<char> = Vec::new();
        let mut j: usize = 0;
        while j < n - 1
            invariant
                n == cs@.len(),
                n > 1,
                j <= n - 1,
                b@ == cs@.take(j as int),
            decreases n - 1 - j,
        {
            b.push(cs[j]);
            j = j + 1;
            assert(b@ =~= cs@.take(j as int));
        }
        assert(b@ =~= cs@.drop_last());
        string_of(&b)
    } else {
        string_of(&cs)
    };
    match domain_to_ascii(bare.as_str()) {
        Some(a) => {
            if dot {
                let mut r = a;
                push_char(&mut r, '.');
                Ok(r)
            } else {
                Ok(a)
            }
        },
        None => {
            let mut m = String::new();
            push_lit(
                &mut m,
                vec!['i', 'n', 'v', 'a', 'l', 'i', 'd', ' ', 'i', 'n', 't', 'e', 'r', 'n', 'a', 't', 'i', 'o', 'n', 'a', 'l', 'i', 'z', 'e', 'd', ' '],
            );
            push_lit(&mut m, vec!['d', 'o', 'm', 'a', 'i', 'n', ' ', 'n', 'a', 'm', 'e', ':', ' ']);
            push_str(&mut m, name);
            Err(DnsError::Usage(m))
        },
    }
}

/// Whether `s` contains the A-label prefix `xn--`.
pub open spec fn has_ace_prefix(s: Seq<char>) -> bool {
    exists|i: int| 0 <= i && i + 4 <= s.len() && #[trigger] s.subrange(i, i + 4) == seq!['x', 'n', '-', '-']
}

/// `s` without its trailing dots.
pub open spec fn trim_end_dots(s: Seq<char>) -> Seq<char>
    decreases s.len(),
{
    if s.len() > 0 && s.last() == '.' {
        trim_end_dots(s.drop_last())
    } else {
        s
    }
}

/// The display form of a name: names without an A-label unchanged;
/// otherwise the IDNA Unicode form of the name without its trailing dots,
/// with one dot put back if the name ended with one.
pub open spec fn spec_to_unicode(name: Seq<char>) -> Seq<char> {
    if !has_ace_prefix(name) {
        name
    } else {
        let u = idna_to_unicode(trim_end_dots(name));
        if name.len() > 0 && name.last() == '.' {
            u.push('.')
        } else {
            u
        }
    }
}

/// Converts A-labels back to Unicode for display; what fails to convert is
/// shown as the converter leaves it.
pub fn to_unicode_lossy(name: &str) -> (r: String)
    ensures
        r@ == spec_to_unicode(name@),
{
    let cs = chars_of(name);
    let n = cs.len();
    let mut found = false;
    let mut i: usize = 0;
    while i <= n && n - i >= 4 && !found
        invariant
            i <= n + 1,
            n == cs@.len(),
            cs@ == name@,
            found ==> has_ace_prefix(name@),
            !found ==> forall|k: int| 0 <= k < i && k + 4 <= n ==> #[trigger] name@.subrange(k, k + 4)
                != seq!['x', 'n', '-', '-'],
        decreases n + 1 - i,
    {
        if cs[i] == 'x' && cs[i + 1] == 'n' && cs[i + 2] == '-' && cs[i + 3] == '-' {
            assert(name@.subrange(i as int, i + 4) =~= seq!['x', 'n', '-', '-']);
            found = true;
        } else {
            assert(name@.subrange(i as int, i + 4) != seq!['x', 'n', '-', '-']) by {
                if name@.subrange(i as int, i + 4) == seq!['x', 'n', '-', '-'] {
                    assert(name@.subrange(i as int, i + 4)[0] == 'x');
                    assert(name@.subrange(i as int, i + 4)[1] == 'n');
                    assert(name@.subrange(i as int, i + 4)[2] == '-');
                    assert(name@.subrange(i as int, i + 4)[3] == '-');
                }
            }
        }
        i = i + 1;
    }
    if !found {
        return string_of(&cs);
    }
    let mut end: usize = n;
    assert(cs@.take(n as int) =~= cs@);
    while end > 0 && cs[end - 1] == '.'
        invariant
            n == cs@.len(),
            end <= n,
            trim_end_dots(cs@) == trim_end_dots(cs@.take(end as int)),
        decreases end,
    {
        assert(cs@.take(end as int).drop_last() =~= cs@.take(end - 1));
        end = end - 1;
    }
    let mut b: Vec<char> = Vec::new();
    let mut j: usize = 0;
    while j < end
        invariant
            end <= n,
            n == cs@.len(),
            j <= end,
            b@ == cs@.take(j as int),
        decreases end - j,
    {
        b.push(cs[j]);
        j = j + 1;
        assert(b@ =~= cs@.take(j as int));
    }
    assert(trim_end_dots(cs@) == b@) by {
        if end > 0 {
            assert(cs@.take(end as int).last() == cs@[end - 1]);
        }
    }
    let bare = string_of(&b);
    let mut u = domain_to_unicode(bare.as_str());
    if n > 0 && cs[n - 1] == '.' {
        push_char(&mut u, '.');
    }
    u
}

} // verus!
