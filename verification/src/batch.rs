//! Batch mode: each non-blank, non-comment line of a batch file is one
//! query, written as whitespace-separated tokens in any order.
use vstd::prelude::*;
use crate::protocol::types::{RecordType, spec_parse_type_upper};
use crate::text::{
    chars_of, split_tokens, string_of, strings_view, tokens, trim_chars, trim_ws, unicode_upper,
};

verus! {

/// One query of a batch: the name, the type, and the server if the line
/// names one.
#[derive(Debug, Clone)]
pub struct BatchQuery {
    pub name: String,
    pub qtype: RecordType,
    pub server: Option<String>,
}

/// The abstract content of a batch query.
pub ghost struct BatchQueryView {
    pub name: Seq<char>,
    pub qtype: RecordType,
    pub server: Option<Seq<char>>,
}

impl View for BatchQuery {
    type V = BatchQueryView;

    open spec fn view(&self) -> BatchQueryView {
        BatchQueryView {
            name: self.name@,
            qtype: self.qtype,
            server: match self.server {
                Some(s) => Some(s@),
                None => None,
            },
        }
    }
}

/// The query that a list of tokens describes, read left to right: a token
/// starting with `@` names the server, one that parses as a record type (in
/// any case) sets the type, and any other token is the name; a later token
/// of a kind replaces an earlier one. Without a name the query is for the
/// root `.`, without a type it is for `A`.
pub open spec fn batch_fold(ts: Seq<Seq<char>>) -> BatchQueryView
    decreases ts.len(),
{
    if ts.len() == 0 {
        BatchQueryView { name: seq!['.'], qtype: RecordType::A, server: None }
    } else {
        batch_step(batch_fold(ts.drop_last()), ts.last())
    }
}

/// The query after one more token.
pub open spec fn batch_step(q: BatchQueryView, p: Seq<char>) -> BatchQueryView {
    if p.len() > 0 && p[0] == '@' {
        BatchQueryView { server: Some(p.drop_first()), ..q }
    } else {
        match spec_parse_type_upper(unicode_upper(p)) {
            Some(rt) => BatchQueryView { qtype: rt, ..q },
            None => BatchQueryView { name: p, ..q },
        }
    }
}

/// Parses one batch line: `[@server] [name] [type]` in any order.
pub fn parse_batch_line(line: &str) -> (r: BatchQuery)
    ensures
        r@ == batch_fold(tokens(line@)),
{
    let parts = split_tokens(line);
    let ghost ts = strings_view(parts@);
    let mut name = string_of(&vec!['.']);
    assert(name@ =~= seq!['.']);
    let mut qtype = RecordType::A;
    let mut server: Option<String> = None;
    let mut i: usize = 0;
    assert(ts.take(0) =~= Seq::<Seq<char>>::empty());
    while i < parts.len()
        invariant
            ts == strings_view(parts@),
            i <= parts@.len(),
            (BatchQuery { name, qtype, server })@ == batch_fold(ts.take(i as int)),
        decreases parts@.len() - i,
    {
        let part = &parts[i];
        let cs = chars_of(part.as_str());
        proof {
            assert(ts.take(i + 1).drop_last() =~= ts.take(i as int));
            assert(ts.take(i + 1).last() == part@);
        }
        if cs.len() > 0 && cs[0] == '@' {
            let mut rest: Vec<char> = Vec::new();
            let mut j: usize = 1;
            while j < cs.len()
                invariant
                    1 <= j <= cs@.len(),
                    rest@ == cs@.subrange(1, j as int),
                decreases cs@.len() - j,
            {
                rest.push(cs[j]);
                j = j + 1;
                assert(rest@ =~= cs@.subrange(1, j as int));
            }
            assert(rest@ =~= cs@.drop_first());
            server = Some(string_of(&rest));
        } else {
            match RecordType::parse_name(part.as_str()) {
                Some(rt) => {
                    qtype = rt;
                },
                None => {
                    name = part.clone();
                },
            }
        }
        i = i + 1;
    }
    assert(ts.take(i as int) =~= ts);
    BatchQuery { name, qtype, server }
}

/// `s` split at every newline (a trailing newline leaves a final empty
/// piece).
pub open spec fn split_lines(s: Seq<char>) -> Seq<Seq<char>>
    decreases s.len(),
{
    if s.len() == 0 {
        seq![Seq::empty()]
    } else {
        let l = split_lines(s.drop_last());
        if s.last() == '\n' {
            l.push(Seq::empty())
        } else {
            l.update(l.len() - 1, l.last().push(s.last()))
        }
    }
}

/// Whether a trimmed line holds a query: it is neither blank nor a `#`
/// comment.
pub open spec fn is_query_line(t: Seq<char>) -> bool {
    t.len() > 0 && t[0] != '#'
}

/// The queries of the first `n` lines.
pub open spec fn batch_queries(ls: Seq<Seq<char>>) -> Seq<BatchQueryView>
    decreases ls.len(),
{
    if ls.len() == 0 {
        Seq::empty()
    } else {
        let rest = batch_queries(ls.drop_last());
        let t = trim_ws(ls.last());
        if is_query_line(t) {
            rest.push(batch_fold(tokens(t)))
        } else {
            rest
        }
    }
}

/// The views of a list of batch queries.
pub open spec fn batch_view(v: Seq<BatchQuery>) -> Seq<BatchQueryView> {
    v.map_values(|q: BatchQuery| q@)
}

/// Splitting text at newlines always gives at least one piece.
pub proof fn lemma_split_lines_nonempty(s: Seq<char>)
    ensures
        split_lines(s).len() >= 1,
    decreases s.len(),
{
    if s.len() > 0 {
        lemma_split_lines_nonempty(s.drop_last());
    }
}

/// The queries of a batch file's text: one per line that, once trimmed, is
/// neither blank nor a comment.
pub fn parse_batch_text(text: &str) -> (r: Vec<BatchQuery>)
    ensures
        batch_view(r@) == batch_queries(split_lines(text@)),
{
    let cs = chars_of(text);
    let n = cs.len();
    let mut out: Vec<BatchQuery> = Vec::new();
    let mut cur: Vec<char> = Vec::new();
    let mut i: usize = 0;
    assert(cs@.take(0) =~= Seq::<char>::empty());
    while i < n
        invariant
            n == cs@.len(),
            cs@ == text@,
            i <= n,
            split_lines(cs@.take(i as int)).len() >= 1,
            cur@ == split_lines(cs@.take(i as int)).last(),
            batch_view(out@) == batch_queries(split_lines(cs@.take(i as int)).drop_last()),
        decreases n - i,
    {
        let ghost l0 = split_lines(cs@.take(i as int));
        let c = cs[i];
        proof {
            assert(cs@.take(i + 1).drop_last() =~= cs@.take(i as int));
            assert(cs@.take(i + 1).last() == c);
            lemma_split_lines_nonempty(cs@.take(i as int));
        }
        if c == '\n' {
            let t = trim_chars(&cur);
            if t.len() > 0 && t[0] != '#' {
                let line = string_of(&t);
                let q = parse_batch_line(line.as_str());
                proof {
                    assert(batch_view(out@.push(q)) =~= batch_view(out@).push(q@));
                    assert(l0.push(Seq::<char>::empty()).drop_last() =~= l0);
                    assert(l0 =~= l0.drop_last().push(l0.last()));
                }
                out.push(q);
            } else {
                proof {
                    assert(l0.push(Seq::<char>::empty()).drop_last() =~= l0);
                    assert(l0 =~= l0.drop_last().push(l0.last()));
                }
            }
            cur = Vec::new();
            assert(cur@ =~= Seq::<char>::empty());
        } else {
            cur.push(c);
            proof {
                let l1 = l0.update(l0.len() - 1, l0.last().push(c));
                assert(l1.drop_last() =~= l0.drop_last());
            }
        }
        i = i + 1;
    }
    assert(cs@.take(n as int) =~= cs@);
    let ghost lf = split_lines(cs@);
    proof {
        lemma_split_lines_nonempty(cs@);
        assert(lf =~= lf.drop_last().push(lf.last()));
    }
    let t = trim_chars(&cur);
    if t.len() > 0 && t[0] != '#' {
        let line = string_of(&t);
        let q = parse_batch_line(line.as_str());
        proof {
            assert(batch_view(out@.push(q)) =~= batch_view(out@).push(q@));
        }
        out.push(q);
    }
    out
}


/// Splits text at every newline.
pub fn lines_of(text: &str) -> (r: Vec<String>)
    ensures
        strings_view(r@) == split_lines(text@),
{
    let cs = chars_of(text);
    let n = cs.len();
    let mut done: Vec<String> = Vec::new();
    let mut cur: Vec<char> = Vec::new();
    let mut i: usize = 0;
    assert(cs@.take(0) =~= Seq::<char>::empty());
    assert(split_lines(Seq::<char>::empty()) =~= seq![Seq::<char>::empty()]);
    assert(strings_view(done@) + seq![cur@] =~= split_lines(cs@.take(0)));
    while i < n
        invariant
            n == cs@.len(),
            cs@ == text@,
            i <= n,
            strings_view(done@) + seq![cur@] == split_lines(cs@.take(i as int)),
        decreases n - i,
    {
        let ghost l0 = split_lines(cs@.take(i as int));
        let ghost d0 = done@;
        let c = cs[i];
        proof {
            assert(cs@.take(i + 1).drop_last() =~= cs@.take(i as int));
            assert(cs@.take(i + 1).last() == c);
        }
        if c == '\n' {
            done.push(string_of(&cur));
            cur = Vec::new();
            assert(strings_view(done@) + seq![cur@] =~= l0.push(Seq::<char>::empty()));
        } else {
            cur.push(c);
            assert(strings_view(done@) + seq![cur@] =~= l0.update(l0.len() - 1, l0.last().push(c)));
        }
        i = i + 1;
    }
    assert(cs@.take(n as int) =~= cs@);
    let ghost d1 = done@;
    done.push(string_of(&cur));
    assert(strings_view(done@) =~= strings_view(d1) + seq![cur@]);
    done
}


/// The kind of a batch token: 0 for a server, 1 for a type, 2 for a name.
pub open spec fn token_kind(p: Seq<char>) -> nat {
    if p.len() > 0 && p[0] == '@' {
        0
    } else if spec_parse_type_upper(unicode_upper(p)) is Some {
        1
    } else {
        2
    }
}

/// Tokens of different kinds may come in either order: swapping two
/// neighbours of different kinds gives the same query.
pub proof fn lemma_batch_tokens_commute(ts: Seq<Seq<char>>, a: Seq<char>, b: Seq<char>)
    requires
        token_kind(a) != token_kind(b),
    ensures
        batch_fold(ts.push(a).push(b)) == batch_fold(ts.push(b).push(a)),
{
    assert(ts.push(a).push(b).drop_last() =~= ts.push(a));
    assert(ts.push(b).push(a).drop_last() =~= ts.push(b));
    assert(ts.push(a).drop_last() =~= ts);
    assert(ts.push(b).drop_last() =~= ts);
    let q = batch_fold(ts);
    assert(batch_fold(ts.push(a)) == batch_step(q, a));
    assert(batch_fold(ts.push(b)) == batch_step(q, b));
    assert(batch_step(batch_step(q, a), b) == batch_step(batch_step(q, b), a));
}

/// Of two tokens of the same kind, the later one wins.
pub proof fn lemma_batch_last_token_wins(ts: Seq<Seq<char>>, a: Seq<char>, b: Seq<char>)
    requires
        token_kind(a) == token_kind(b),
    ensures
        batch_fold(ts.push(a).push(b)) == batch_fold(ts.push(b)),
{
    assert(ts.push(a).push(b).drop_last() =~= ts.push(a));
    assert(ts.push(a).drop_last() =~= ts);
    assert(ts.push(b).drop_last() =~= ts);
    let q = batch_fold(ts);
    assert(batch_fold(ts.push(a)) == batch_step(q, a));
    assert(batch_fold(ts.push(b)) == batch_step(q, b));
    assert(batch_step(batch_step(q, a), b) == batch_step(q, b));
}

} // verus!
