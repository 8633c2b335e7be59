//! Watch mode: the same query repeated, with changes between answers
//! counted. The waiting and the queries are the caller's business.
use vstd::prelude::*;
use crate::protocol::message::{DnsMessage, records_view};
use crate::protocol::presentation::rdata_text;
use crate::protocol::record::ResourceRecordView;
use crate::protocol::types::{RecordType, type_text};
use crate::output::records_fit;
use crate::text::{decimal, lemma_decimal_digits, push_char, push_decimal, push_str, strings_view};

verus! {

/// `1h2m3s`, `2m3s` or `3s`: hours and minutes only when they matter.
pub open spec fn duration_text(total_secs: u64) -> Seq<char> {
    let h = total_secs / 3600;
    let m = (total_secs % 3600) / 60;
    let s = total_secs % 60;
    if h > 0 {
        decimal(h as nat).push('h') + decimal(m as nat).push('m') + decimal(s as nat).push('s')
    } else if m > 0 {
        decimal(m as nat).push('m') + decimal(s as nat).push('s')
    } else {
        decimal(s as nat).push('s')
    }
}

/// Formats an uptime given in whole seconds.
pub fn format_duration(total_secs: u64) -> (r: String)
    ensures
        r@ == duration_text(total_secs),
{
    let hours = total_secs / 3600;
    let minutes = (total_secs % 3600) / 60;
    let secs = total_secs % 60;
    let mut s = String::new();
    if hours > 0 {
        push_decimal(&mut s, hours);
        push_char(&mut s, 'h');
        let ghost a = s@;
        push_decimal(&mut s, minutes);
        push_char(&mut s, 'm');
        push_decimal(&mut s, secs);
        push_char(&mut s, 's');
    } else if minutes > 0 {
        push_decimal(&mut s, minutes);
        push_char(&mut s, 'm');
        push_decimal(&mut s, secs);
        push_char(&mut s, 's');
    } else {
        push_decimal(&mut s, secs);
        push_char(&mut s, 's');
    }
    assert(s@ =~= duration_text(total_secs));
    s
}

/// How an answer is compared between rounds: its type and RDATA.
pub open spec fn answer_line(r: ResourceRecordView) -> Seq<char> {
    type_text(r.rtype) + seq![' '] + rdata_text(r.rdata)
}

/// The comparable form of each answer.
pub open spec fn answer_lines(rs: Seq<ResourceRecordView>) -> Seq<Seq<char>> {
    rs.map_values(|r: ResourceRecordView| answer_line(r))
}

/// The text of a type holds no space.
proof fn lemma_type_text_has_no_space(t: RecordType)
    ensures
        forall|i: int| 0 <= i < type_text(t).len() ==> #[trigger] type_text(t)[i] != ' ',
{
    match t {
        RecordType::Unknown(n) => {
            lemma_decimal_digits(n as nat);
            let s = type_text(t);
            assert forall|i: int| 0 <= i < s.len() implies #[trigger] s[i] != ' ' by {
                if i >= 4 {
                    assert(s[i] == decimal(n as nat)[i - 4]);
                }
            }
        },
        _ => {},
    }
}

/// Two answers compare equal exactly when they have the same type text and
/// the same RDATA text; the owner name and TTL play no part.
pub proof fn lemma_answer_line_compares_type_and_rdata(a: ResourceRecordView, b: ResourceRecordView)
    ensures
        answer_line(a) == answer_line(b) <==> (type_text(a.rtype) == type_text(b.rtype) && rdata_text(
            a.rdata,
        ) == rdata_text(b.rdata)),
{
    let ta = type_text(a.rtype);
    let tb = type_text(b.rtype);
    let la = answer_line(a);
    let lb = answer_line(b);
    if la == lb {
        lemma_type_text_has_no_space(a.rtype);
        lemma_type_text_has_no_space(b.rtype);
        if ta.len() < tb.len() {
            assert(la[ta.len() as int] == ' ');
            assert(lb[ta.len() as int] == tb[ta.len() as int]);
        }
        if tb.len() < ta.len() {
            assert(lb[tb.len() as int] == ' ');
            assert(la[tb.len() as int] == ta[tb.len() as int]);
        }
        assert(ta =~= la.take(ta.len() as int));
        assert(tb =~= lb.take(tb.len() as int));
        assert(rdata_text(a.rdata) =~= la.skip(ta.len() + 1int));
        assert(rdata_text(b.rdata) =~= lb.skip(tb.len() + 1int));
    }
}

/// Two answer lists have the same signature exactly when they have as many
/// answers and, answer by answer, the same type and RDATA texts: a change
/// of any RDATA is seen.
pub proof fn lemma_signature_sees_rdata(a: Seq<ResourceRecordView>, b: Seq<ResourceRecordView>)
    ensures
        answer_lines(a) == answer_lines(b) <==> (a.len() == b.len() && forall|i: int|
            0 <= i < a.len() ==> type_text((#[trigger] a[i]).rtype) == type_text(b[i].rtype)
                && rdata_text(a[i].rdata) == rdata_text(b[i].rdata)),
{
    if answer_lines(a) == answer_lines(b) {
        assert(a.len() == answer_lines(a).len());
        assert forall|i: int| 0 <= i < a.len() implies type_text((#[trigger] a[i]).rtype) == type_text(
            b[i].rtype,
        ) && rdata_text(a[i].rdata) == rdata_text(b[i].rdata) by {
            assert(answer_lines(a)[i] == answer_line(a[i]));
            assert(answer_lines(b)[i] == answer_line(b[i]));
            lemma_answer_line_compares_type_and_rdata(a[i], b[i]);
        }
    }
    if a.len() == b.len() && forall|i: int|
        0 <= i < a.len() ==> type_text((#[trigger] a[i]).rtype) == type_text(b[i].rtype)
            && rdata_text(a[i].rdata) == rdata_text(b[i].rdata) {
        assert forall|i: int| 0 <= i < a.len() implies #[trigger] answer_lines(a)[i] == answer_lines(b)[i] by {
            lemma_answer_line_compares_type_and_rdata(a[i], b[i]);
        }
        assert(answer_lines(a) =~= answer_lines(b));
    }
}

/// The comparable form of a response's answers.
pub fn answer_signature(message: &DnsMessage) -> (r: Vec<String>)
    requires
        records_fit(message@.answers),
    ensures
        strings_view(r@) == answer_lines(message@.answers),
{
    let ans = &message.answers;
    let ghost av = records_view(ans@);
    let mut out: Vec<String> = Vec::new();
    let mut i: usize = 0;
    while i < ans.len()
        invariant
            av == records_view(ans@),
            records_fit(av),
            i <= ans@.len(),
            strings_view(out@) == answer_lines(av).take(i as int),
        decreases ans@.len() - i,
    {
        let rr = &ans[i];
        assert(av[i as int] == rr@);
        assert(crate::protocol::presentation::rdata_fits(av[i as int].rdata));
        let mut t = rr.rtype.to_string();
        push_char(&mut t, ' ');
        let d = rr.rdata.to_string();
        push_str(&mut t, d.as_str());
        proof {
            assert(t@ =~= answer_line(rr@));
            assert(strings_view(out@.push(t)) =~= strings_view(out@).push(t@));
        }
        out.push(t);
        i = i + 1;
        assert(strings_view(out@) =~= answer_lines(av).take(i as int));
    }
    assert(answer_lines(av).take(i as int) =~= answer_lines(av));
    out
}

/// Whether two lists of strings are equal.
pub fn strings_equal(a: &Vec<String>, b: &Vec<String>) -> (r: bool)
    ensures
        r == (strings_view(a@) == strings_view(b@)),
{
    if a.len() != b.len() {
        assert(strings_view(a@).len() != strings_view(b@).len());
        return false;
    }
    let mut i: usize = 0;
    while i < a.len()
        invariant
            a@.len() == b@.len(),
            i <= a@.len(),
            forall|k: int| 0 <= k < i ==> a@[k]@ == b@[k]@,
        decreases a@.len() - i,
    {
        let x = crate::text::chars_of(a[i].as_str());
        let y = crate::text::chars_of(b[i].as_str());
        if !crate::text::chars_eq(&x, &y) {
            assert(strings_view(a@)[i as int] != strings_view(b@)[i as int]);
            return false;
        }
        i = i + 1;
    }
    assert(strings_view(a@) =~= strings_view(b@));
    true
}

/// The state of a watch: rounds made, changes seen, the last answers.
#[derive(Debug)]
pub struct WatchState {
    pub query_num: u64,
    pub changes: u64,
    pub prev_answers: Option<Vec<String>>,
}

impl WatchState {
    /// A watch that has made no round yet.
    pub fn new() -> (r: Self)
        ensures
            r.query_num == 0,
            r.changes == 0,
            r.prev_answers is None,
    {
        WatchState { query_num: 0, changes: 0, prev_answers: None }
    }

    /// Starts a round.
    pub fn start_round(&mut self)
        requires
            old(self).query_num < u64::MAX,
        ensures
            final(self).query_num == old(self).query_num + 1,
            final(self).changes == old(self).changes,
            final(self).prev_answers == old(self).prev_answers,
    {
        self.query_num = self.query_num + 1;
    }

    /// Records a round's answers; returns whether they differ from the
    /// previous round's (the first round is no change).
    pub fn observe(&mut self, current: Vec<String>) -> (changed: bool)
        requires
            old(self).changes < u64::MAX,
        ensures
            changed == (match old(self).prev_answers {
                Some(p) => strings_view(p@) != strings_view(current@),
                None => false,
            }),
            final(self).changes == old(self).changes + (if changed { 1int } else { 0int }),
            final(self).query_num == old(self).query_num,
            final(self).prev_answers == Some(current),
    {
        let changed = match &self.prev_answers {
            Some(p) => !strings_equal(p, &current),
            None => false,
        };
        if changed {
            self.changes = self.changes + 1;
        }
        self.prev_answers = Some(current);
        changed
    }
}

} // verus!
