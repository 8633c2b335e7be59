//! DNS over HTTPS: the table of well-known providers and how a `+https`
//! argument becomes a URL.
use vstd::prelude::*;
use crate::text::{
    chars_of, has_prefix, push_lit, push_str, starts_with_chars, string_of, strings_view,
    to_lower, unicode_lower, all_ascii, ascii_lower_char,
};

verus! {

/// A well-known DoH provider: the names it is known by and its URL.
#[derive(Debug, Clone)]
pub struct DohProvider {
    pub names: Vec<String>,
    pub url: String,
}

/// The provider table: names and URL of each provider, in order. The empty
/// name makes Cloudflare the default.
pub open spec fn provider_table() -> Seq<(Seq<Seq<char>>, Seq<char>)> {
    seq![
        (seq![seq!['c', 'l', 'o', 'u', 'd', 'f', 'l', 'a', 'r', 'e'], Seq::<char>::empty()], https_url(seq!['1', '.', '1', '.', '1', '.', '1'])),
        (seq![seq!['g', 'o', 'o', 'g', 'l', 'e']], https_url(seq!['d', 'n', 's', '.', 'g', 'o', 'o', 'g', 'l', 'e'])),
        (seq![seq!['q', 'u', 'a', 'd', '9']], https_url(seq!['d', 'n', 's', '.', 'q', 'u', 'a', 'd', '9', '.', 'n', 'e', 't', ':', '5', '0', '5', '3'])),
        (seq![seq!['o', 'p', 'e', 'n', 'd', 'n', 's'], seq!['c', 'i', 's', 'c', 'o']], https_url(seq!['d', 'o', 'h', '.', 'o', 'p', 'e', 'n', 'd', 'n', 's', '.', 'c', 'o', 'm'])),
        (seq![seq!['a', 'd', 'g', 'u', 'a', 'r', 'd']], https_url(seq!['d', 'n', 's', '.', 'a', 'd', 'g', 'u', 'a', 'r', 'd', '-', 'd', 'n', 's', '.', 'c', 'o', 'm'])),
        (seq![seq!['w', 'i', 'k', 'i', 'm', 'e', 'd', 'i', 'a']], https_url(seq!['w', 'i', 'k', 'i', 'm', 'e', 'd', 'i', 'a', '-', 'd', 'n', 's', '.', 'o', 'r', 'g'])),
    ]
}

/// `https://`.
pub open spec fn https_prefix() -> Seq<char> {
    seq!['h', 't', 't', 'p', 's', ':', '/', '/']
}

/// `https://<host>/dns-query`.
pub open spec fn https_url(host: Seq<char>) -> Seq<char> {
    https_prefix() + host + seq!['/', 'd', 'n', 's', '-', 'q', 'u', 'e', 'r', 'y']
}

/// The view of a provider.
pub open spec fn provider_view(p: DohProvider) -> (Seq<Seq<char>>, Seq<char>) {
    (strings_view(p.names@), p.url@)
}

/// The well-known providers.
pub fn providers() -> (r: Vec<DohProvider>)
    ensures
        r@.map_values(|p: DohProvider| provider_view(p)) == provider_table(),
{
    let ghost t = provider_table();
    let mut v: Vec<DohProvider> = Vec::new();
    let cloudflare = string_of(&vec!['c', 'l', 'o', 'u', 'd', 'f', 'l', 'a', 'r', 'e']);
    v.push(
        DohProvider {
            names: vec![cloudflare, String::new()],
            url: url_for(vec!['1', '.', '1', '.', '1', '.', '1']),
        },
    );
    v.push(
        DohProvider {
            names: vec![string_of(&vec!['g', 'o', 'o', 'g', 'l', 'e'])],
            url: url_for(vec!['d', 'n', 's', '.', 'g', 'o', 'o', 'g', 'l', 'e']),
        },
    );
    v.push(
        DohProvider {
            names: vec![string_of(&vec!['q', 'u', 'a', 'd', '9'])],
            url: url_for(
                vec!['d', 'n', 's', '.', 'q', 'u', 'a', 'd', '9', '.', 'n', 'e', 't', ':', '5', '0', '5', '3'],
            ),
        },
    );
    v.push(
        DohProvider {
            names: vec![
                string_of(&vec!['o', 'p', 'e', 'n', 'd', 'n', 's']),
                string_of(&vec!['c', 'i', 's', 'c', 'o']),
            ],
            url: url_for(
                vec!['d', 'o', 'h', '.', 'o', 'p', 'e', 'n', 'd', 'n', 's', '.', 'c', 'o', 'm'],
            ),
        },
    );
    v.push(
        DohProvider {
            names: vec![string_of(&vec!['a', 'd', 'g', 'u', 'a', 'r', 'd'])],
            url: url_for(
                vec!['d', 'n', 's', '.', 'a', 'd', 'g', 'u', 'a', 'r', 'd', '-', 'd', 'n', 's', '.', 'c', 'o', 'm'],
            ),
        },
    );
    v.push(
        DohProvider {
            names: vec![string_of(&vec!['w', 'i', 'k', 'i', 'm', 'e', 'd', 'i', 'a'])],
            url: url_for(
                vec!['w', 'i', 'k', 'i', 'm', 'e', 'd', 'i', 'a', '-', 'd', 'n', 's', '.', 'o', 'r', 'g'],
            ),
        },
    );
    proof {
        let m = v@.map_values(|p: DohProvider| provider_view(p));
        assert forall|i: int| 0 <= i < 6 implies #[trigger] m[i] == t[i] by {
            assert(strings_view(v@[i].names@) =~= t[i].0);
        }
        assert(m =~= t);
    }
    v
}

/// `https://<host>/dns-query` for the given host.
fn url_for(host: Vec<char>) -> (r: String)
    ensures
        r@ == https_url(host@),
{
    let mut url = String::new();
    push_lit(&mut url, vec!['h', 't', 't', 'p', 's', ':', '/', '/']);
    push_lit(&mut url, host);
    push_lit(&mut url, vec!['/', 'd', 'n', 's', '-', 'q', 'u', 'e', 'r', 'y']);
    url
}

/// The first non-empty name of each provider that has one.
pub open spec fn first_names(t: Seq<(Seq<Seq<char>>, Seq<char>)>) -> Seq<Seq<char>>
    decreases t.len(),
{
    if t.len() == 0 {
        Seq::empty()
    } else {
        let rest = first_names(t.drop_last());
        match first_nonempty(t.last().0) {
            Some(n) => rest.push(n),
            None => rest,
        }
    }
}

/// The first non-empty string of a list.
pub open spec fn first_nonempty(ns: Seq<Seq<char>>) -> Option<Seq<char>>
    decreases ns.len(),
{
    if ns.len() == 0 {
        None
    } else if ns[0].len() > 0 {
        Some(ns[0])
    } else {
        first_nonempty(ns.drop_first())
    }
}

/// The primary name of every provider.
pub fn provider_names() -> (r: Vec<String>)
    ensures
        strings_view(r@) == first_names(provider_table()),
{
    let ps = providers();
    let ghost t = provider_table();
    let mut out: Vec<String> = Vec::new();
    let mut i: usize = 0;
    assert(t.take(0) =~= Seq::<(Seq<Seq<char>>, Seq<char>)>::empty());
    while i < ps.len()
        invariant
            ps@.map_values(|p: DohProvider| provider_view(p)) == t,
            i <= ps@.len(),
            strings_view(out@) == first_names(t.take(i as int)),
        decreases ps@.len() - i,
    {
        let names = &ps[i].names;
        proof {
            let m = ps@.map_values(|p: DohProvider| provider_view(p));
            assert(m[i as int] == t[i as int]);
        }
        assert(t[i as int].0 == strings_view(names@));
        let mut j: usize = 0;
        let mut found: Option<String> = None;
        assert(strings_view(names@).skip(0) =~= strings_view(names@));
        while j < names.len() && found.is_none()
            invariant
                j <= names@.len(),
                match found {
                    Some(f) => first_nonempty(strings_view(names@)) == Some(f@),
                    None => first_nonempty(strings_view(names@)) == first_nonempty(
                        strings_view(names@).skip(j as int),
                    ),
                },
            decreases names@.len() - j,
        {
            assert(strings_view(names@).skip(j as int)[0] == names@[j as int]@);
            assert(strings_view(names@).skip(j as int).drop_first() =~= strings_view(names@).skip(
                j + 1,
            ));
            let nc = chars_of(names[j].as_str());
            if nc.len() > 0 {
                found = Some(names[j].clone());
            }
            j = j + 1;
        }
        proof {
            assert(t.take(i + 1).drop_last() =~= t.take(i as int));
            assert(t.take(i + 1).last() == t[i as int]);
            if found.is_none() {
                assert(strings_view(names@).skip(j as int).len() == 0);
            }
        }
        match found {
            Some(f) => {
                proof {
                    assert(strings_view(out@.push(f)) =~= strings_view(out@).push(f@));
                }
                out.push(f);
            },
            None => {},
        }
        i = i + 1;
    }
    assert(t.take(i as int) =~= t);
    out
}

/// The provider among `t` that is known by `name`, if any.
pub open spec fn find_provider(t: Seq<(Seq<Seq<char>>, Seq<char>)>, name: Seq<char>) -> Option<Seq<char>>
    decreases t.len(),
{
    if t.len() == 0 {
        None
    } else if t[0].0.contains(name) {
        Some(t[0].1)
    } else {
        find_provider(t.drop_first(), name)
    }
}

/// The URL for a `+https` argument: a provider's URL when the argument,
/// lowercased, is one of its names; the argument itself when it already
/// starts with `https://` (in any case); otherwise `https://<arg>/dns-query`.
pub open spec fn spec_doh_url(arg: Seq<char>) -> Seq<char> {
    doh_url_for(arg, unicode_lower(arg))
}

/// The DoH URL for `arg` whose lowercase form is `lower`.
pub open spec fn doh_url_for(arg: Seq<char>, lower: Seq<char>) -> Seq<char> {
    match find_provider(provider_table(), lower) {
        Some(url) => url,
        None => if has_prefix(lower, https_prefix()) {
            arg
        } else {
            https_url(arg)
        },
    }
}

/// Resolves a provider name or URL to a DoH URL. For ASCII input the
/// lowercase form is the ASCII one.
pub fn resolve_doh_url(provider_or_url: &str) -> (r: String)
    ensures
        r@ == spec_doh_url(provider_or_url@),
        all_ascii(provider_or_url@) ==> r@ == doh_url_for(
            provider_or_url@,
            provider_or_url@.map_values(|c: char| ascii_lower_char(c)),
        ),
{
    let lower = to_lower(provider_or_url);
    let lc = chars_of(lower.as_str());
    let ps = providers();
    let ghost t = provider_table();
    let mut i: usize = 0;
    assert(t.skip(0) =~= t);
    while i < ps.len()
        invariant
            ps@.map_values(|p: DohProvider| provider_view(p)) == t,
            t == provider_table(),
            lower@ == unicode_lower(provider_or_url@),
            all_ascii(provider_or_url@) ==> lower@ == provider_or_url@.map_values(
                |c: char| ascii_lower_char(c),
            ),
            i <= ps@.len(),
            lc@ == lower@,
            find_provider(t, lower@) == find_provider(t.skip(i as int), lower@),
        decreases ps@.len() - i,
    {
        let names = &ps[i].names;
        proof {
            let m = ps@.map_values(|p: DohProvider| provider_view(p));
            assert(m[i as int] == t[i as int]);
        }
        assert(t.skip(i as int)[0] == t[i as int]);
        assert(t[i as int].0 == strings_view(names@));
        assert(t.skip(i as int).drop_first() =~= t.skip(i + 1));
        let mut j: usize = 0;
        let mut hit = false;
        while j < names.len()
            invariant
                j <= names@.len(),
                lc@ == lower@,
                hit == exists|k: int| 0 <= k < j && #[trigger] names@[k]@ == lower@,
            decreases names@.len() - j,
        {
            let nc = chars_of(names[j].as_str());
            if crate::text::chars_eq(&nc, &lc) {
                hit = true;
            }
            j = j + 1;
        }
        proof {
            if hit {
                let k = choose|k: int| 0 <= k < j && #[trigger] names@[k]@ == lower@;
                assert(strings_view(names@)[k] == lower@);
                assert(strings_view(names@).contains(lower@));
            } else {
                assert forall|k: int| 0 <= k < strings_view(names@).len() implies strings_view(
                    names@,
                )[k] != lower@ by {
                    assert(strings_view(names@)[k] == names@[k]@);
                }
            }
        }
        if hit {
            proof {
                let m = ps@.map_values(|p: DohProvider| provider_view(p));
                assert(m[i as int] == t[i as int]);
            }
            return ps[i].url.clone();
        }
        i = i + 1;
    }
    assert(t.skip(i as int).len() == 0);
    let prefix = vec!['h', 't', 't', 'p', 's', ':', '/', '/'];
    assert(prefix@ =~= https_prefix());
    if starts_with_chars(&lc, &prefix) {
        let mut r = String::new();
        push_str(&mut r, provider_or_url);
        assert(r@ =~= provider_or_url@);
        return r;
    }
    let mut r = String::new();
    push_lit(&mut r, prefix);
    push_str(&mut r, provider_or_url);
    push_lit(&mut r, vec!['/', 'd', 'n', 's', '-', 'q', 'u', 'e', 'r', 'y']);
    r
}

} // verus!
