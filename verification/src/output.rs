//! Rendering results as text: colour handling, the record table, and the
//! standard, short, TSV and query views. Every renderer appends to a
//! `String`; writing it out is the caller's business.
use vstd::prelude::*;
use vstd::utf8::encode_utf8;
use crate::protocol::edns::{EdnsInfoView, nsid_text, subnet_text};
use crate::protocol::message::{DnsMessage, MessageView, records_view};
use crate::protocol::presentation::{rdata_fits, rdata_text};
use crate::protocol::question::QuestionView;
use crate::protocol::record::{RData, RDataView, ResourceRecord, ResourceRecordView};
use crate::protocol::types::{Rcode, class_text, rcode_text, type_text};
use crate::transport::{QueryResult, transport_text};
use crate::text::{
    decimal, join, push_char, push_chars, push_decimal, push_joined, push_lit, push_str,
    strings_view,
};

verus! {

/// Resets all attributes.
pub const RESET: &'static str = "\x1b[0m";
/// Dim text.
pub const DIM: &'static str = "\x1b[2m";
/// Red text.
pub const RED: &'static str = "\x1b[31m";
/// Green text.
pub const GREEN: &'static str = "\x1b[32m";
/// Yellow text.
pub const YELLOW: &'static str = "\x1b[33m";
/// Blue text.
pub const BLUE: &'static str = "\x1b[34m";
/// Magenta text.
pub const MAGENTA: &'static str = "\x1b[35m";
/// Cyan text.
pub const CYAN: &'static str = "\x1b[36m";
/// Bold red text.
pub const BOLD_RED: &'static str = "\x1b[1;31m";
/// Bold cyan text.
pub const BOLD_CYAN: &'static str = "\x1b[1;36m";
/// Bold white text.
pub const BOLD_WHITE: &'static str = "\x1b[1;37m";
/// Bold green text.
pub const BOLD_GREEN: &'static str = "\x1b[1;32m";
/// Bold yellow text.
pub const BOLD_YELLOW: &'static str = "\x1b[1;33m";

/// When to colour the output.
#[derive(Debug, Clone, Copy, PartialEq, Eq, Structural)]
pub enum ColorMode {
    Auto,
    Always,
    Never,
}

impl Default for ColorMode {
    /// Automatic colour.
    fn default() -> (r: Self)
        ensures
            r == ColorMode::Auto,
    {
        ColorMode::Auto
    }
}

/// Whether output is coloured: `Always` and `Never` decide by themselves;
/// `Auto` colours a terminal unless `NO_COLOR` is set.
pub open spec fn spec_color_enabled(mode: ColorMode, is_terminal: bool, no_color: bool) -> bool {
    match mode {
        ColorMode::Always => true,
        ColorMode::Never => false,
        ColorMode::Auto => is_terminal && !no_color,
    }
}

/// Decides whether to colour output.
pub fn color_enabled(mode: ColorMode, is_terminal: bool, no_color: bool) -> (r: bool)
    ensures
        r == spec_color_enabled(mode, is_terminal, no_color),
{
    match mode {
        ColorMode::Always => true,
        ColorMode::Never => false,
        ColorMode::Auto => is_terminal && !no_color,
    }
}

/// The number stored for a colour mode.
pub open spec fn mode_code(mode: ColorMode) -> u8 {
    match mode {
        ColorMode::Auto => 0,
        ColorMode::Always => 1,
        ColorMode::Never => 2,
    }
}

/// The number under which a colour mode is stored process-wide.
pub fn set_color_mode(mode: ColorMode) -> (r: u8)
    ensures
        r == mode_code(mode),
{
    match mode {
        ColorMode::Auto => 0,
        ColorMode::Always => 1,
        ColorMode::Never => 2,
    }
}

/// The colour mode a stored number stands for (unknown numbers mean
/// `Auto`).
pub fn color_mode_from_code(code: u8) -> (r: ColorMode)
    ensures
        code == 1 ==> r == ColorMode::Always,
        code == 2 ==> r == ColorMode::Never,
        code != 1 && code != 2 ==> r == ColorMode::Auto,
{
    if code == 1 {
        ColorMode::Always
    } else if code == 2 {
        ColorMode::Never
    } else {
        ColorMode::Auto
    }
}

/// Applies colour codes, or not.
pub struct Painter {
    pub color: bool,
}

/// `text` wrapped in `code` and a reset when colouring, else `text` alone.
pub open spec fn painted(color: bool, code: Seq<char>, text: Seq<char>) -> Seq<char> {
    if color {
        code + text + RESET@
    } else {
        text
    }
}

impl Painter {
    /// A painter with an explicit colour decision.
    pub fn with_color(color: bool) -> (r: Self)
        ensures
            r.color == color,
    {
        Painter { color }
    }

    /// `text` in the given colour, when colouring.
    pub fn paint(&self, code: &str, text: &str) -> (r: String)
        ensures
            r@ == painted(self.color, code@, text@),
    {
        let mut s = String::new();
        if self.color {
            push_str(&mut s, code);
            push_str(&mut s, text);
            push_str(&mut s, RESET);
        } else {
            push_str(&mut s, text);
        }
        assert(s@ =~= painted(self.color, code@, text@));
        s
    }
}

/// Appends painted text.
fn push_painted(out: &mut String, painter: &Painter, code: &str, text: &str)
    ensures
        final(out)@ == old(out)@ + painted(painter.color, code@, text@),
{
    let p = painter.paint(code, text);
    push_str(out, p.as_str());
}

/// `t` padded with spaces on the right to `w` characters.
pub open spec fn pad_to(t: Seq<char>, w: nat) -> Seq<char> {
    if t.len() < w {
        t + Seq::new((w - t.len()) as nat, |i: int| ' ')
    } else {
        t
    }
}

/// A string padded with spaces on the right to `w` characters.
pub fn pad_string(t: &str, w: usize) -> (r: String)
    ensures
        r@ == pad_to(t@, w as nat),
{
    let mut s = String::new();
    push_str(&mut s, t);
    let n = t.unicode_len();
    let mut k: usize = n;
    while k < w
        invariant
            n == t@.len(),
            n <= k || w <= k,
            k <= w || k == n,
            s@ == t@ + Seq::new((if k > n { k - n } else { 0 }) as nat, |i: int| ' '),
        decreases w - k,
    {
        push_char(&mut s, ' ');
        k = k + 1;
        assert(s@ =~= t@ + Seq::new((k - n) as nat, |i: int| ' '));
    }
    assert(s@ =~= pad_to(t@, w as nat));
    s
}

/// The UTF-8 length of a text, which is what `str::len` measures.
pub open spec fn utf8_len(t: Seq<char>) -> nat {
    encode_utf8(t).len()
}

/// The UTF-8 length of a string.
pub fn byte_len(s: &str) -> (r: usize)
    ensures
        r == utf8_len(s@),
{
    s.as_bytes().len()
}

/// Human-readable TTL units: days, hours, minutes, seconds, each only if
/// non-zero.
pub open spec fn ttl_parts(s: u32) -> Seq<Seq<char>> {
    let d = s / 86400;
    let h = (s % 86400) / 3600;
    let m = (s % 3600) / 60;
    let x = s % 60;
    (if d > 0 { seq![decimal(d as nat).push('d')] } else { Seq::empty() }) + (if h > 0 {
        seq![decimal(h as nat).push('h')]
    } else {
        Seq::empty()
    }) + (if m > 0 { seq![decimal(m as nat).push('m')] } else { Seq::empty() }) + (if x > 0 {
        seq![decimal(x as nat).push('s')]
    } else {
        Seq::empty()
    })
}

/// A human-readable TTL: `0s` for zero, else the two largest non-zero units
/// separated by a space (`1h 1m`, `1d`).
pub open spec fn ttl_text(s: u32) -> Seq<char> {
    if s == 0 {
        seq!['0', 's']
    } else {
        let p = ttl_parts(s);
        join(if p.len() > 2 { p.take(2) } else { p }, seq![' '])
    }
}

/// A number followed by a unit letter.
fn unit(n: u32, u: char) -> (r: String)
    ensures
        r@ == decimal(n as nat).push(u),
{
    let mut s = String::new();
    push_decimal(&mut s, n as u64);
    push_char(&mut s, u);
    s
}

/// Formats a TTL for people.
pub fn format_ttl(seconds: u32) -> (r: String)
    ensures
        r@ == ttl_text(seconds),
{
    if seconds == 0 {
        let mut s = String::new();
        push_lit(&mut s, vec!['0', 's']);
        return s;
    }
    let days = seconds / 86400;
    let hours = (seconds % 86400) / 3600;
    let minutes = (seconds % 3600) / 60;
    let secs = seconds % 60;
    let mut parts: Vec<String> = Vec::new();
    if days > 0 {
        parts.push(unit(days, 'd'));
    }
    if hours > 0 {
        parts.push(unit(hours, 'h'));
    }
    if minutes > 0 {
        parts.push(unit(minutes, 'm'));
    }
    if secs > 0 {
        parts.push(unit(secs, 's'));
    }
    assert(strings_view(parts@) =~= ttl_parts(seconds));
    if parts.len() > 2 {
        parts.truncate(2);
        assert(strings_view(parts@) =~= ttl_parts(seconds).take(2));
    }
    let mut s = String::new();
    let sep = vec![' '];
    assert(sep@ =~= seq![' ']);
    push_joined(&mut s, &parts, &sep);
    s
}

/// How a character is written in a TSV field: backslash, tab, newline and
/// carriage return are escaped.
pub open spec fn tsv_char(c: char) -> Seq<char> {
    if c == '\\' {
        seq!['\\', '\\']
    } else if c == '\t' {
        seq!['\\', 't']
    } else if c == '\n' {
        seq!['\\', 'n']
    } else if c == '\r' {
        seq!['\\', 'r']
    } else {
        seq![c]
    }
}

/// A value escaped for a TSV field.
pub open spec fn tsv_escape(s: Seq<char>) -> Seq<char>
    decreases s.len(),
{
    if s.len() == 0 {
        Seq::empty()
    } else {
        tsv_escape(s.drop_last()) + tsv_char(s.last())
    }
}

/// Escapes the separators of a TSV field, so that a field never spans
/// columns or lines.
pub fn escape_tsv_field(value: &str) -> (r: String)
    ensures
        r@ == tsv_escape(value@),
{
    let cs = crate::text::chars_of(value);
    let mut s = String::new();
    let mut i: usize = 0;
    while i < cs.len()
        invariant
            cs@ == value@,
            i <= cs@.len(),
            s@ == tsv_escape(cs@.take(i as int)),
        decreases cs@.len() - i,
    {
        let c = cs[i];
        if c == '\\' {
            push_lit(&mut s, vec!['\\', '\\']);
        } else if c == '\t' {
            push_lit(&mut s, vec!['\\', 't']);
        } else if c == '\n' {
            push_lit(&mut s, vec!['\\', 'n']);
        } else if c == '\r' {
            push_lit(&mut s, vec!['\\', 'r']);
        } else {
            push_char(&mut s, c);
        }
        assert(cs@.take(i + 1).drop_last() =~= cs@.take(i as int));
        i = i + 1;
        assert(s@ =~= tsv_escape(cs@.take(i as int)));
    }
    assert(cs@.take(i as int) =~= cs@);
    s
}

/// The colour of a response code: green for NOERROR, bold red for NXDOMAIN
/// and SERVFAIL, red for the others.
pub open spec fn rcode_color(r: Rcode) -> Seq<char> {
    match r {
        Rcode::NoError => GREEN@,
        Rcode::NxDomain => BOLD_RED@,
        Rcode::ServFail => BOLD_RED@,
        _ => RED@,
    }
}

/// A response code in its colour.
pub open spec fn rcode_painted(color: bool, r: Rcode) -> Seq<char> {
    painted(color, rcode_color(r), rcode_text(r))
}

/// Formats a response code in its colour.
pub fn format_rcode(painter: &Painter, rcode: &Rcode) -> (r: String)
    ensures
        r@ == rcode_painted(painter.color, *rcode),
{
    let text = rcode.to_string();
    match rcode {
        Rcode::NoError => painter.paint(GREEN, text.as_str()),
        Rcode::NxDomain | Rcode::ServFail => painter.paint(BOLD_RED, text.as_str()),
        _ => painter.paint(RED, text.as_str()),
    }
}

/// Whether RDATA centres on a domain name.
pub open spec fn view_is_name(v: RDataView) -> bool {
    v is NS || v is CNAME || v is PTR || v is MX || v is SRV || v is SVCB || v is HTTPS
}

/// Whether RDATA belongs to DNSSEC.
pub open spec fn view_is_dnssec(v: RDataView) -> bool {
    v is RRSIG || v is DNSKEY || v is DS || v is NSEC || v is NSEC3 || v is NSEC3PARAM
}

/// Whether RDATA is shown as text.
pub open spec fn view_is_text(v: RDataView) -> bool {
    v is TXT || v is SOA || v is Unknown
}

/// RDATA in the colour of its kind: addresses green, names yellow, DNSSEC
/// blue, text magenta, anything else plain.
pub open spec fn rdata_painted(color: bool, v: RDataView) -> Seq<char> {
    let t = rdata_text(v);
    if v is A || v is AAAA {
        painted(color, GREEN@, t)
    } else if view_is_name(v) {
        painted(color, YELLOW@, t)
    } else if view_is_dnssec(v) {
        painted(color, BLUE@, t)
    } else if view_is_text(v) {
        painted(color, MAGENTA@, t)
    } else {
        t
    }
}

/// Formats RDATA in the colour of its kind.
pub fn format_rdata_colored(painter: &Painter, rdata: &RData) -> (r: String)
    requires
        rdata_fits(rdata@),
    ensures
        r@ == rdata_painted(painter.color, rdata@),
{
    let text = rdata.to_string();
    let is_addr = match rdata {
        RData::A(_) | RData::AAAA(_) => true,
        _ => false,
    };
    if is_addr {
        painter.paint(GREEN, text.as_str())
    } else if rdata.is_name() {
        painter.paint(YELLOW, text.as_str())
    } else if rdata.is_dnssec() {
        painter.paint(BLUE, text.as_str())
    } else if rdata.is_text() {
        painter.paint(MAGENTA, text.as_str())
    } else {
        text
    }
}

/// Whether every record's RDATA can be shown.
pub open spec fn records_fit(rs: Seq<ResourceRecordView>) -> bool {
    forall|i: int| 0 <= i < rs.len() ==> rdata_fits(#[trigger] rs[i].rdata)
}

/// The widest of `floor` and the UTF-8 length of each record's type text.
pub open spec fn type_width(rs: Seq<ResourceRecordView>, floor: nat) -> nat
    decreases rs.len(),
{
    if rs.len() == 0 {
        floor
    } else {
        let w = type_width(rs.drop_last(), floor);
        let l = utf8_len(type_text(rs.last().rtype));
        if l > w {
            l
        } else {
            w
        }
    }
}

/// The widest of `floor` and the UTF-8 length of each record's name.
pub open spec fn name_width(rs: Seq<ResourceRecordView>, floor: nat) -> nat
    decreases rs.len(),
{
    if rs.len() == 0 {
        floor
    } else {
        let w = name_width(rs.drop_last(), floor);
        let l = utf8_len(rs.last().name);
        if l > w {
            l
        } else {
            w
        }
    }
}

/// The widest of `floor` and the UTF-8 length of each record's TTL text.
pub open spec fn ttl_width(rs: Seq<ResourceRecordView>, floor: nat) -> nat
    decreases rs.len(),
{
    if rs.len() == 0 {
        floor
    } else {
        let w = ttl_width(rs.drop_last(), floor);
        let l = utf8_len(ttl_text(rs.last().ttl));
        if l > w {
            l
        } else {
            w
        }
    }
}

/// `acc` followed by one row of the record table.
pub open spec fn row_onto(acc: Seq<char>, color: bool, r: ResourceRecordView, tw: nat, nw: nat, lw: nat) -> Seq<char> {
    let a = acc.push(' ') + painted(color, BOLD_CYAN@, pad_to(type_text(r.rtype), tw));
    let a = a + "   "@ + pad_to(r.name, nw);
    let a = a + "   "@ + painted(color, DIM@, pad_to(ttl_text(r.ttl), lw));
    let a = a + "   "@ + rdata_painted(color, r.rdata);
    a.push('\n')
}

/// `acc` followed by the rows for the records.
pub open spec fn rows_onto(acc: Seq<char>, color: bool, rs: Seq<ResourceRecordView>, tw: nat, nw: nat, lw: nat) -> Seq<char>
    decreases rs.len(),
{
    if rs.len() == 0 {
        acc
    } else {
        row_onto(rows_onto(acc, color, rs.drop_last(), tw, nw, lw), color, rs.last(), tw, nw, lw)
    }
}

/// `acc` followed by the record table: a dim header row (TYPE, NAME, TTL,
/// VALUE), then one row per record, columns padded to their widest entry.
pub open spec fn table_onto(acc: Seq<char>, color: bool, rs: Seq<ResourceRecordView>) -> Seq<char> {
    let tw = type_width(rs, 4);
    let nw = name_width(rs, 4);
    let lw = ttl_width(rs, 3);
    let a = acc.push(' ') + painted(color, DIM@, pad_to("TYPE"@, tw));
    let a = a + "   "@ + painted(color, DIM@, pad_to("NAME"@, nw));
    let a = a + "   "@ + painted(color, DIM@, pad_to("TTL"@, lw));
    let a = a + "   "@ + painted(color, DIM@, "VALUE"@);
    rows_onto(a.push('\n'), color, rs, tw, nw, lw)
}

/// Appends one row of the record table.
fn push_table_row(out: &mut String, painter: &Painter, r: &ResourceRecord, tw: usize, nw: usize, lw: usize)
    requires
        rdata_fits(r@.rdata),
    ensures
        final(out)@ == row_onto(old(out)@, painter.color, r@, tw as nat, nw as nat, lw as nat),
{
    push_char(out, ' ');
    let t = r.rtype.to_string();
    let tp = pad_string(t.as_str(), tw);
    push_painted(out, painter, BOLD_CYAN, tp.as_str());
    push_str(out, "   ");
    let np = pad_string(r.name.as_str(), nw);
    push_str(out, np.as_str());
    push_str(out, "   ");
    let ttl = format_ttl(r.ttl);
    let lp = pad_string(ttl.as_str(), lw);
    push_painted(out, painter, DIM, lp.as_str());
    push_str(out, "   ");
    let v = format_rdata_colored(painter, &r.rdata);
    push_str(out, v.as_str());
    push_char(out, '\n');
}

/// Appends the record table.
pub fn print_record_table(out: &mut String, painter: &Painter, records: &[ResourceRecord])
    requires
        records_fit(records_view(records@)),
    ensures
        final(out)@ == table_onto(old(out)@, painter.color, records_view(records@)),
{
    let ghost rs = records_view(records@);
    let n = records.len();
    let mut tw: usize = 4;
    let mut nw: usize = 4;
    let mut lw: usize = 3;
    let mut i: usize = 0;
    while i < n
        invariant
            n == records@.len(),
            rs == records_view(records@),
            i <= n,
            tw == type_width(rs.take(i as int), 4),
            nw == name_width(rs.take(i as int), 4),
            lw == ttl_width(rs.take(i as int), 3),
        decreases n - i,
    {
        let r = &records[i];
        proof {
            assert(rs.take(i + 1).drop_last() =~= rs.take(i as int));
            assert(rs.take(i + 1).last() == r@);
        }
        let t = r.rtype.to_string();
        let tl = byte_len(t.as_str());
        if tl > tw {
            tw = tl;
        }
        let nl = byte_len(r.name.as_str());
        if nl > nw {
            nw = nl;
        }
        let ttl = format_ttl(r.ttl);
        let ll = byte_len(ttl.as_str());
        if ll > lw {
            lw = ll;
        }
        i = i + 1;
    }
    assert(rs.take(n as int) =~= rs);
    push_char(out, ' ');
    let h1 = pad_string("TYPE", tw);
    push_painted(out, painter, DIM, h1.as_str());
    push_str(out, "   ");
    let h2 = pad_string("NAME", nw);
    push_painted(out, painter, DIM, h2.as_str());
    push_str(out, "   ");
    let h3 = pad_string("TTL", lw);
    push_painted(out, painter, DIM, h3.as_str());
    push_str(out, "   ");
    push_painted(out, painter, DIM, "VALUE");
    push_char(out, '\n');
    let ghost head = out@;
    let mut j: usize = 0;
    while j < n
        invariant
            n == records@.len(),
            rs == records_view(records@),
            records_fit(rs),
            j <= n,
            out@ == rows_onto(head, painter.color, rs.take(j as int), tw as nat, nw as nat, lw as nat),
        decreases n - j,
    {
        let r = &records[j];
        proof {
            assert(rs.take(j + 1).drop_last() =~= rs.take(j as int));
            assert(rs.take(j + 1).last() == r@);
            assert(rdata_fits(rs[j as int].rdata));
        }
        push_table_row(out, painter, r, tw, nw, lw);
        j = j + 1;
    }
    assert(rs.take(n as int) =~= rs);
}

} // verus!

verus! {

/// Whether every record of a message can be shown.
pub open spec fn message_fits(m: MessageView) -> bool {
    records_fit(m.answers) && records_fit(m.authority) && records_fit(m.additional)
}

/// The short view: each answer's RDATA on a line of its own.
pub open spec fn short_text(rs: Seq<ResourceRecordView>) -> Seq<char>
    decreases rs.len(),
{
    if rs.len() == 0 {
        Seq::empty()
    } else {
        short_text(rs.drop_last()) + rdata_text(rs.last().rdata) + seq!['\n']
    }
}

/// Appends the short view of a result.
pub fn write_short(out: &mut String, result: &QueryResult)
    requires
        records_fit(result.message@.answers),
    ensures
        final(out)@ == old(out)@ + short_text(result.message@.answers),
{
    let answers = &result.message.answers;
    let ghost rs = records_view(answers@);
    let mut i: usize = 0;
    while i < answers.len()
        invariant
            rs == records_view(answers@),
            records_fit(rs),
            i <= answers@.len(),
            out@ == old(out)@ + short_text(rs.take(i as int)),
        decreases answers@.len() - i,
    {
        proof {
            assert(rs.take(i + 1).drop_last() =~= rs.take(i as int));
            assert(rs.take(i + 1).last() == answers@[i as int]@);
            assert(rdata_fits(rs[i as int].rdata));
        }
        let t = answers[i].rdata.to_string();
        push_str(out, t.as_str());
        push_char(out, '\n');
        i = i + 1;
        assert(out@ =~= old(out)@ + short_text(rs.take(i as int)));
    }
    assert(rs.take(i as int) =~= rs);
}

/// One TSV line: name, raw TTL, class, type and escaped RDATA, separated by
/// tabs.
pub open spec fn tsv_line(r: ResourceRecordView) -> Seq<char> {
    r.name + seq!['\t'] + decimal(r.ttl as nat) + seq!['\t'] + class_text(r.rclass) + seq!['\t']
        + type_text(r.rtype) + seq!['\t'] + tsv_escape(rdata_text(r.rdata)) + seq!['\n']
}

/// The TSV view: one line per answer.
pub open spec fn tsv_text(rs: Seq<ResourceRecordView>) -> Seq<char>
    decreases rs.len(),
{
    if rs.len() == 0 {
        Seq::empty()
    } else {
        tsv_text(rs.drop_last()) + tsv_line(rs.last())
    }
}

/// Appends the TSV view of a result: one answer per line, five tab-separated
/// fields, no header, no colour.
pub fn write_tsv(out: &mut String, result: &QueryResult)
    requires
        records_fit(result.message@.answers),
    ensures
        final(out)@ == old(out)@ + tsv_text(result.message@.answers),
{
    let answers = &result.message.answers;
    let ghost rs = records_view(answers@);
    let mut i: usize = 0;
    while i < answers.len()
        invariant
            rs == records_view(answers@),
            records_fit(rs),
            i <= answers@.len(),
            out@ == old(out)@ + tsv_text(rs.take(i as int)),
        decreases answers@.len() - i,
    {
        let rr = &answers[i];
        proof {
            assert(rs.take(i + 1).drop_last() =~= rs.take(i as int));
            assert(rs.take(i + 1).last() == rr@);
            assert(rdata_fits(rs[i as int].rdata));
        }
        let ghost o0 = out@;
        push_str(out, rr.name.as_str());
        push_char(out, '\t');
        push_decimal(out, rr.ttl as u64);
        push_char(out, '\t');
        let c = rr.rclass.to_string();
        push_str(out, c.as_str());
        push_char(out, '\t');
        let t = rr.rtype.to_string();
        push_str(out, t.as_str());
        push_char(out, '\t');
        let d = rr.rdata.to_string();
        let e = escape_tsv_field(d.as_str());
        push_str(out, e.as_str());
        push_char(out, '\n');
        assert(out@ =~= o0 + tsv_line(rr@));
        i = i + 1;
        assert(out@ =~= old(out)@ + tsv_text(rs.take(i as int)));
    }
    assert(rs.take(i as int) =~= rs);
}

/// `acc` followed by the words for two flags, separated by a space.
pub open spec fn flags_onto(acc: Seq<char>, a: bool, a_word: Seq<char>, b: bool, b_word: Seq<char>) -> Seq<char> {
    let x = if a {
        if b {
            (acc + a_word).push(' ')
        } else {
            acc + a_word
        }
    } else {
        acc
    };
    if b {
        x + b_word
    } else {
        x
    }
}

/// Appends the words for two flags.
fn push_flag_words(out: &mut String, a: bool, a_word: &str, b: bool, b_word: &str)
    ensures
        final(out)@ == flags_onto(old(out)@, a, a_word@, b, b_word@),
{
    if a {
        push_str(out, a_word);
        if b {
            push_char(out, ' ');
        }
    }
    if b {
        push_str(out, b_word);
    }
}

/// `acc` followed by one question line of the query view: name, class,
/// type.
pub open spec fn question_onto(acc: Seq<char>, color: bool, q: QuestionView) -> Seq<char> {
    (acc.push(' ') + q.name + "  "@ + class_text(q.qclass) + "  "@ + painted(
        color,
        BOLD_CYAN@,
        type_text(q.qtype),
    )).push('\n')
}

/// `acc` followed by the question lines.
pub open spec fn questions_onto(acc: Seq<char>, color: bool, qs: Seq<QuestionView>) -> Seq<char>
    decreases qs.len(),
{
    if qs.len() == 0 {
        acc
    } else {
        question_onto(questions_onto(acc, color, qs.drop_last()), color, qs.last())
    }
}

/// `acc` followed by the EDNS line: version, flags (`do` when set) and
/// payload size, then, with `extras`, the Client Subnet scope and the NSID
/// when present.
pub open spec fn edns_onto(acc: Seq<char>, color: bool, e: EdnsInfoView, extras: bool) -> Seq<char> {
    let a = acc.push(' ') + painted(color, DIM@, "EDNS"@) + " version "@ + decimal(e.version as nat)
        + "; flags: "@;
    let a = if e.dnssec_ok {
        a + "do"@
    } else {
        a
    };
    let a = a + "; udp: "@ + decimal(e.udp_payload_size as nat);
    let a = if extras {
        match e.subnet {
            Some(c) => a + "; subnet: "@ + subnet_text(c),
            None => a,
        }
    } else {
        a
    };
    let a = if extras {
        match e.nsid {
            Some(n) => a + "; nsid: "@ + nsid_text(n),
            None => a,
        }
    } else {
        a
    };
    a.push('\n')
}

/// Appends the EDNS line.
fn push_edns_line(out: &mut String, painter: &Painter, e: &crate::protocol::edns::EdnsInfo, extras: bool)
    ensures
        final(out)@ == edns_onto(old(out)@, painter.color, e@, extras),
{
    push_char(out, ' ');
    push_painted(out, painter, DIM, "EDNS");
    push_str(out, " version ");
    push_decimal(out, e.version as u64);
    push_str(out, "; flags: ");
    if e.dnssec_ok {
        push_str(out, "do");
    }
    push_str(out, "; udp: ");
    push_decimal(out, e.udp_payload_size as u64);
    if extras {
        match &e.subnet {
            Some(c) => {
                push_str(out, "; subnet: ");
                let t = c.to_string();
                push_str(out, t.as_str());
            },
            None => {},
        }
    }
    if extras {
        match &e.nsid {
            Some(n) => {
                push_str(out, "; nsid: ");
                let t = n.to_string();
                push_str(out, t.as_str());
            },
            None => {},
        }
    }
    push_char(out, '\n');
}

/// `acc` followed by the query view (`+qr`): the destination, the header
/// flags and counts, the questions, and the EDNS line when the query
/// carries OPT.
pub open spec fn query_onto(acc: Seq<char>, color: bool, m: MessageView, server: Seq<char>, port: u16) -> Seq<char> {
    let h = m.header;
    let a = acc.push('\n').push(' ') + painted(color, BOLD_WHITE@, "QUERY"@);
    let a = a.push(' ') + painted(color, DIM@, "\u{2192}"@);
    let a = (a.push(' ') + server).push(':') + decimal(port as nat);
    let a = a.push('\n').push(' ') + painted(color, DIM@, "flags:"@);
    let a = flags_onto(a.push(' '), h.rd, "rd"@, h.cd, "cd"@);
    let a = a + "; QUESTION: "@ + decimal(h.qdcount as nat) + ", ADDITIONAL: "@ + decimal(
        h.arcount as nat,
    );
    let a = questions_onto(a.push('\n'), color, m.questions);
    match m.edns {
        Some(e) => edns_onto(a, color, e, false),
        None => a,
    }
}

/// Appends the query view of an outgoing message.
pub fn write_query(out: &mut String, painter: &Painter, message: &DnsMessage, server: &str, port: u16)
    ensures
        final(out)@ == query_onto(old(out)@, painter.color, message@, server@, port),
{
    push_char(out, '\n');
    push_char(out, ' ');
    push_painted(out, painter, BOLD_WHITE, "QUERY");
    push_char(out, ' ');
    push_painted(out, painter, DIM, "\u{2192}");
    push_char(out, ' ');
    push_str(out, server);
    push_char(out, ':');
    push_decimal(out, port as u64);
    push_char(out, '\n');
    push_char(out, ' ');
    push_painted(out, painter, DIM, "flags:");
    push_char(out, ' ');
    let h = &message.header;
    push_flag_words(out, h.rd, "rd", h.cd, "cd");
    push_str(out, "; QUESTION: ");
    push_decimal(out, h.qdcount as u64);
    push_str(out, ", ADDITIONAL: ");
    push_decimal(out, h.arcount as u64);
    push_char(out, '\n');
    let ghost head = out@;
    let qs = &message.questions;
    let ghost qv = message@.questions;
    let mut i: usize = 0;
    while i < qs.len()
        invariant
            qv == crate::protocol::message::questions_view(qs@),
            i <= qs@.len(),
            out@ == questions_onto(head, painter.color, qv.take(i as int)),
        decreases qs@.len() - i,
    {
        let q = &qs[i];
        proof {
            assert(qv.take(i + 1).drop_last() =~= qv.take(i as int));
            assert(qv.take(i + 1).last() == q@);
        }
        push_char(out, ' ');
        push_str(out, q.name.as_str());
        push_str(out, "  ");
        let c = q.qclass.to_string();
        push_str(out, c.as_str());
        push_str(out, "  ");
        let t = q.qtype.to_string();
        push_painted(out, painter, BOLD_CYAN, t.as_str());
        push_char(out, '\n');
        i = i + 1;
    }
    assert(qv.take(i as int) =~= qv);
    match &message.edns {
        Some(e) => {
            push_edns_line(out, painter, e, false);
        },
        None => {},
    }
}

/// `acc` followed by a section of the standard view: a blank line, the
/// bold title, the table.
pub open spec fn section_onto(acc: Seq<char>, color: bool, title: Seq<char>, rs: Seq<ResourceRecordView>) -> Seq<char> {
    table_onto((acc.push('\n').push(' ') + painted(color, BOLD_WHITE@, title)).push('\n'), color, rs)
}

/// `acc` followed by the status footer of the standard view: server and
/// transport, response code, time and size, between dim separators.
pub open spec fn stats_onto(
    acc: Seq<char>,
    color: bool,
    server: Seq<char>,
    port: u16,
    r: Rcode,
    protocol: crate::transport::TransportProtocol,
    ms: u64,
    bytes: usize,
) -> Seq<char> {
    let sep = painted(color, DIM@, "\u{2500}\u{2500}"@);
    let info = (server.push(':') + decimal(port as nat) + " ("@ + transport_text(protocol)).push(')');
    let a = acc.push('\n').push(' ') + sep;
    let a = a.push(' ') + painted(color, DIM@, info);
    let a = a.push(' ') + sep;
    let a = a.push(' ') + rcode_painted(color, r);
    let a = a.push(' ') + sep;
    let a = a.push(' ') + painted(color, DIM@, decimal(ms as nat) + "ms"@);
    let a = a.push(' ') + sep;
    let a = a.push(' ') + painted(color, DIM@, decimal(bytes as nat).push('B'));
    let a = a.push(' ') + sep;
    a.push('\n')
}

/// `acc` followed by the standard view: the answer section, the authority
/// and additional sections when asked for, the EDNS line, the DNSSEC flags
/// line when AD or CD is set, and the status footer when asked for. Empty
/// sections are left out.
pub open spec fn full_onto(
    acc: Seq<char>,
    color: bool,
    res: QueryResult,
    server: Seq<char>,
    port: u16,
    show_authority: bool,
    show_additional: bool,
    show_stats: bool,
) -> Seq<char> {
    let m = res.message@;
    let h = m.header;
    let a = if m.answers.len() > 0 {
        section_onto(acc, color, "ANSWER"@, m.answers)
    } else {
        acc
    };
    let a = if show_authority && m.authority.len() > 0 {
        section_onto(a, color, "AUTHORITY"@, m.authority)
    } else {
        a
    };
    let a = if show_additional && m.additional.len() > 0 {
        section_onto(a, color, "ADDITIONAL"@, m.additional)
    } else {
        a
    };
    let a = match m.edns {
        Some(e) => edns_onto(a.push('\n'), color, e, true),
        None => a,
    };
    let a = if h.ad || h.cd {
        flags_onto(
            a.push(' ') + painted(color, DIM@, "flags:"@).push(' '),
            h.ad,
            "ad"@,
            h.cd,
            "cd"@,
        ).push('\n')
    } else {
        a
    };
    if show_stats {
        stats_onto(a, color, server, port, h.rcode, res.protocol, res.elapsed_ms, res.bytes)
    } else {
        a
    }
}

/// Appends a titled section.
fn push_section(out: &mut String, painter: &Painter, title: &str, records: &[ResourceRecord])
    requires
        records_fit(records_view(records@)),
    ensures
        final(out)@ == section_onto(old(out)@, painter.color, title@, records_view(records@)),
{
    push_char(out, '\n');
    push_char(out, ' ');
    push_painted(out, painter, BOLD_WHITE, title);
    push_char(out, '\n');
    print_record_table(out, painter, records);
}

/// Appends the status footer.
fn push_stats(out: &mut String, painter: &Painter, result: &QueryResult, server: &str, port: u16)
    ensures
        final(out)@ == stats_onto(
            old(out)@,
            painter.color,
            server@,
            port,
            result.message.header.rcode,
            result.protocol,
            result.elapsed_ms,
            result.bytes,
        ),
{
    let sep = painter.paint(DIM, "\u{2500}\u{2500}");
    let mut info = String::new();
    push_str(&mut info, server);
    push_char(&mut info, ':');
    push_decimal(&mut info, port as u64);
    push_str(&mut info, " (");
    let p = result.protocol.to_string();
    push_str(&mut info, p.as_str());
    push_char(&mut info, ')');
    let mut timing = String::new();
    push_decimal(&mut timing, result.elapsed_ms);
    push_str(&mut timing, "ms");
    let mut size = String::new();
    push_decimal(&mut size, result.bytes as u64);
    push_char(&mut size, 'B');
    push_char(out, '\n');
    push_char(out, ' ');
    push_str(out, sep.as_str());
    push_char(out, ' ');
    push_painted(out, painter, DIM, info.as_str());
    push_char(out, ' ');
    push_str(out, sep.as_str());
    push_char(out, ' ');
    let rc = format_rcode(painter, &result.message.header.rcode);
    push_str(out, rc.as_str());
    push_char(out, ' ');
    push_str(out, sep.as_str());
    push_char(out, ' ');
    push_painted(out, painter, DIM, timing.as_str());
    push_char(out, ' ');
    push_str(out, sep.as_str());
    push_char(out, ' ');
    push_painted(out, painter, DIM, size.as_str());
    push_char(out, ' ');
    push_str(out, sep.as_str());
    push_char(out, '\n');
}

/// Appends the standard view of a result.
pub fn write_full(
    out: &mut String,
    painter: &Painter,
    result: &QueryResult,
    server: &str,
    port: u16,
    show_authority: bool,
    show_additional: bool,
    show_stats: bool,
)
    requires
        message_fits(result.message@),
    ensures
        final(out)@ == full_onto(
            old(out)@,
            painter.color,
            *result,
            server@,
            port,
            show_authority,
            show_additional,
            show_stats,
        ),
{
    let m = &result.message;
    if m.answers.len() > 0 {
        push_section(out, painter, "ANSWER", m.answers.as_slice());
    }
    if show_authority && m.authority.len() > 0 {
        push_section(out, painter, "AUTHORITY", m.authority.as_slice());
    }
    if show_additional && m.additional.len() > 0 {
        push_section(out, painter, "ADDITIONAL", m.additional.as_slice());
    }
    match &m.edns {
        Some(e) => {
            push_char(out, '\n');
            push_edns_line(out, painter, e, true);
        },
        None => {},
    }
    let h = &m.header;
    if h.ad || h.cd {
        push_char(out, ' ');
        push_painted(out, painter, DIM, "flags:");
        push_char(out, ' ');
        push_flag_words(out, h.ad, "ad", h.cd, "cd");
        push_char(out, '\n');
    }
    if show_stats {
        push_stats(out, painter, result, server, port);
    }
}

} // verus!

verus! {

/// `acc` followed by the sections of a trace hop that have records.
pub open spec fn hop_sections_onto(acc: Seq<char>, color: bool, m: MessageView) -> Seq<char> {
    let a = if m.answers.len() > 0 {
        table_onto((acc.push(' ') + painted(color, BOLD_WHITE@, "ANSWER"@)).push('\n'), color, m.answers)
    } else {
        acc
    };
    let a = if m.authority.len() > 0 {
        table_onto((a.push(' ') + painted(color, BOLD_WHITE@, "AUTHORITY"@)).push('\n'), color, m.authority)
    } else {
        a
    };
    if m.additional.len() > 0 {
        table_onto((a.push(' ') + painted(color, BOLD_WHITE@, "ADDITIONAL"@)).push('\n'), color, m.additional)
    } else {
        a
    }
}

/// `acc` followed by hop number `num` of a trace: the server, the time, and
/// the sections that have records.
pub open spec fn hop_onto(acc: Seq<char>, color: bool, h: crate::trace::TraceHop, num: nat) -> Seq<char> {
    let a = acc.push('\n').push(' ') + painted(color, BOLD_WHITE@, "HOP "@ + decimal(num));
    let a = a.push(' ') + painted(color, DIM@, "from"@);
    let a = (a.push(' ') + painted(color, BOLD_GREEN@, h.server@)).push('\n');
    let a = (a.push(' ') + painted(color, DIM@, "time:"@)).push(' ') + decimal(
        h.result.elapsed_ms as nat,
    ) + "ms"@;
    hop_sections_onto(a.push('\n'), color, h.result.message@)
}

/// `acc` followed by the hops, numbered from 1.
pub open spec fn hops_onto(acc: Seq<char>, color: bool, hs: Seq<crate::trace::TraceHop>) -> Seq<char>
    decreases hs.len(),
{
    if hs.len() == 0 {
        acc
    } else {
        hop_onto(hops_onto(acc, color, hs.drop_last()), color, hs.last(), hs.len())
    }
}

/// Whether every hop's records can be shown.
pub open spec fn hops_fit(hs: Seq<crate::trace::TraceHop>) -> bool {
    forall|i: int| 0 <= i < hs.len() ==> message_fits(#[trigger] hs[i].result.message@)
}

/// Appends the sections of a hop.
fn push_hop_sections(out: &mut String, painter: &Painter, m: &DnsMessage)
    requires
        message_fits(m@),
    ensures
        final(out)@ == hop_sections_onto(old(out)@, painter.color, m@),
{
    if m.answers.len() > 0 {
        push_char(out, ' ');
        push_painted(out, painter, BOLD_WHITE, "ANSWER");
        push_char(out, '\n');
        print_record_table(out, painter, m.answers.as_slice());
    }
    if m.authority.len() > 0 {
        push_char(out, ' ');
        push_painted(out, painter, BOLD_WHITE, "AUTHORITY");
        push_char(out, '\n');
        print_record_table(out, painter, m.authority.as_slice());
    }
    if m.additional.len() > 0 {
        push_char(out, ' ');
        push_painted(out, painter, BOLD_WHITE, "ADDITIONAL");
        push_char(out, '\n');
        print_record_table(out, painter, m.additional.as_slice());
    }
}

/// Appends the trace view: each hop in turn, then a blank line.
pub fn write_trace(out: &mut String, painter: &Painter, hops: &[crate::trace::TraceHop])
    requires
        hops_fit(hops@),
        hops@.len() < usize::MAX,
    ensures
        final(out)@ == hops_onto(old(out)@, painter.color, hops@).push('\n'),
{
    let mut i: usize = 0;
    while i < hops.len()
        invariant
            hops_fit(hops@),
            hops@.len() < usize::MAX,
            i <= hops@.len(),
            out@ == hops_onto(old(out)@, painter.color, hops@.take(i as int)),
        decreases hops@.len() - i,
    {
        let hop = &hops[i];
        proof {
            assert(hops@.take(i + 1).drop_last() =~= hops@.take(i as int));
            assert(hops@.take(i + 1).last() == *hop);
            assert(message_fits(hops@[i as int].result.message@));
        }
        push_char(out, '\n');
        push_char(out, ' ');
        let mut title = String::new();
        push_str(&mut title, "HOP ");
        push_decimal(&mut title, (i + 1) as u64);
        push_painted(out, painter, BOLD_WHITE, title.as_str());
        push_char(out, ' ');
        push_painted(out, painter, DIM, "from");
        push_char(out, ' ');
        push_painted(out, painter, BOLD_GREEN, hop.server.as_str());
        push_char(out, '\n');
        push_char(out, ' ');
        push_painted(out, painter, DIM, "time:");
        push_char(out, ' ');
        push_decimal(out, hop.result.elapsed_ms);
        push_str(out, "ms");
        push_char(out, '\n');
        push_hop_sections(out, painter, &hop.result.message);
        i = i + 1;
    }
    assert(hops@.take(i as int) =~= hops@);
    push_char(out, '\n');
}

/// `acc` followed by the zone transfer view: the title with the record
/// count, the table, a blank line.
pub open spec fn axfr_onto(acc: Seq<char>, color: bool, rs: Seq<ResourceRecordView>) -> Seq<char> {
    let a = acc.push('\n').push(' ') + painted(color, BOLD_WHITE@, "ZONE TRANSFER"@) + " ("@
        + decimal(rs.len()) + " records)"@;
    table_onto(a.push('\n').push('\n'), color, rs).push('\n')
}

/// Appends the zone transfer view.
pub fn write_axfr(out: &mut String, painter: &Painter, records: &[ResourceRecord])
    requires
        records_fit(records_view(records@)),
    ensures
        final(out)@ == axfr_onto(old(out)@, painter.color, records_view(records@)),
{
    push_char(out, '\n');
    push_char(out, ' ');
    push_painted(out, painter, BOLD_WHITE, "ZONE TRANSFER");
    push_str(out, " (");
    push_decimal(out, records.len() as u64);
    push_str(out, " records)");
    push_char(out, '\n');
    push_char(out, '\n');
    print_record_table(out, painter, records);
    push_char(out, '\n');
}

/// The RDATA text of each record.
pub open spec fn rdata_texts(rs: Seq<ResourceRecordView>) -> Seq<Seq<char>> {
    rs.map_values(|r: ResourceRecordView| rdata_text(r.rdata))
}

/// `acc` followed by one line of the batch view: type and name, then the
/// response code, time and the answers joined by `, `; or the error.
pub open spec fn batch_result_onto(
    acc: Seq<char>,
    color: bool,
    name: Seq<char>,
    qtype: crate::protocol::types::RecordType,
    result: Result<QueryResult, crate::error::DnsError>,
) -> Seq<char> {
    let a = ((acc.push(' ') + painted(color, BOLD_CYAN@, type_text(qtype))).push(' ') + name).push(
        ' ',
    );
    match result {
        Ok(r) => ((a + rcode_painted(color, r.message@.header.rcode)).push(' ') + decimal(
            r.elapsed_ms as nat,
        ) + "ms "@ + painted(color, GREEN@, join(rdata_texts(r.message@.answers), ", "@))).push(
            '\n',
        ),
        Err(e) => (a + painted(color, RED@, "error: "@ + crate::error::spec_message(e))).push('\n'),
    }
}

/// The RDATA text of each answer.
fn rdata_strings(rs: &Vec<ResourceRecord>) -> (r: Vec<String>)
    requires
        records_fit(records_view(rs@)),
    ensures
        strings_view(r@) == rdata_texts(records_view(rs@)),
{
    let ghost v = records_view(rs@);
    let mut out: Vec<String> = Vec::new();
    let mut i: usize = 0;
    while i < rs.len()
        invariant
            v == records_view(rs@),
            records_fit(v),
            i <= rs@.len(),
            strings_view(out@) == rdata_texts(v).take(i as int),
        decreases rs@.len() - i,
    {
        assert(v[i as int] == rs@[i as int]@);
        assert(crate::protocol::presentation::rdata_fits(v[i as int].rdata));
        let t = rs[i].rdata.to_string();
        proof {
            assert(strings_view(out@.push(t)) =~= strings_view(out@).push(t@));
        }
        out.push(t);
        i = i + 1;
        assert(strings_view(out@) =~= rdata_texts(v).take(i as int));
    }
    assert(rdata_texts(v).take(i as int) =~= rdata_texts(v));
    out
}

/// Appends one line of the batch view.
pub fn write_batch_result(
    out: &mut String,
    painter: &Painter,
    name: &str,
    qtype: &crate::protocol::types::RecordType,
    result: &Result<QueryResult, crate::error::DnsError>,
)
    requires
        result matches Ok(r) ==> records_fit(r.message@.answers),
    ensures
        final(out)@ == batch_result_onto(old(out)@, painter.color, name@, *qtype, *result),
{
    push_char(out, ' ');
    let t = qtype.to_string();
    push_painted(out, painter, BOLD_CYAN, t.as_str());
    push_char(out, ' ');
    push_str(out, name);
    push_char(out, ' ');
    match result {
        Ok(r) => {
            let rc = format_rcode(painter, &r.message.header.rcode);
            push_str(out, rc.as_str());
            push_char(out, ' ');
            push_decimal(out, r.elapsed_ms);
            push_str(out, "ms ");
            let values = rdata_strings(&r.message.answers);
            let mut joined = String::new();
            let sep = crate::text::chars_of(", ");
            push_joined(&mut joined, &values, &sep);
            push_painted(out, painter, GREEN, joined.as_str());
            push_char(out, '\n');
        },
        Err(e) => {
            let mut m = String::new();
            push_str(&mut m, "error: ");
            let t = e.to_string();
            push_str(&mut m, t.as_str());
            push_painted(out, painter, RED, m.as_str());
            push_char(out, '\n');
        },
    }
}

} // verus!

verus! {

/// Whether two strings are equal.
pub fn str_eq(a: &String, b: &String) -> (r: bool)
    ensures
        r == (a@ == b@),
{
    let x = crate::text::chars_of(a.as_str());
    let y = crate::text::chars_of(b.as_str());
    crate::text::chars_eq(&x, &y)
}

/// How a comparison shows an answer: type, owner name and RDATA.
pub open spec fn compared_line(r: ResourceRecordView) -> Seq<char> {
    type_text(r.rtype) + " "@ + r.name + " "@ + rdata_text(r.rdata)
}

/// The answers of a server, as compared: none for a failed query.
pub open spec fn compared_answers(c: crate::compare::ComparisonResult) -> Seq<Seq<char>> {
    match c.result {
        Ok(r) => r.message@.answers.map_values(|x: ResourceRecordView| compared_line(x)),
        Err(_) => Seq::empty(),
    }
}

/// Whether every server gave the same answers as the first.
pub open spec fn all_identical(cs: Seq<crate::compare::ComparisonResult>) -> bool {
    forall|j: int| 0 <= j < cs.len() ==> compared_answers(#[trigger] cs[j]) == compared_answers(cs[0])
}

/// The fastest successful server and its time; among equally fast ones the
/// first.
pub open spec fn fastest(cs: Seq<crate::compare::ComparisonResult>) -> Option<(Seq<char>, u64)>
    decreases cs.len(),
{
    if cs.len() == 0 {
        None
    } else {
        let f = fastest(cs.drop_last());
        match cs.last().result {
            Ok(r) => match f {
                Some((s, ms)) => if ms <= r.elapsed_ms {
                    f
                } else {
                    Some((cs.last().server@, r.elapsed_ms))
                },
                None => Some((cs.last().server@, r.elapsed_ms)),
            },
            Err(_) => f,
        }
    }
}

/// The fastest server is one whose query succeeded, no successful query
/// was faster, and every server listed before it was slower or failed;
/// there is none exactly when every query failed.
pub proof fn lemma_fastest_is_fastest(cs: Seq<crate::compare::ComparisonResult>)
    ensures
        fastest(cs) is None <==> forall|i: int| 0 <= i < cs.len() ==> (#[trigger] cs[i]).result is Err,
        fastest(cs) matches Some((s, ms)) ==> exists|i: int|
            0 <= i < cs.len() && (#[trigger] cs[i]).result is Ok && cs[i].result->Ok_0.elapsed_ms
                == ms && cs[i].server@ == s && (forall|j: int|
                0 <= j < i && (#[trigger] cs[j]).result is Ok ==> cs[j].result->Ok_0.elapsed_ms
                    > ms),
        fastest(cs) matches Some((s, ms)) ==> forall|i: int|
            0 <= i < cs.len() && (#[trigger] cs[i]).result is Ok ==> ms <= cs[i].result->Ok_0.elapsed_ms,
    decreases cs.len(),
{
    if cs.len() > 0 {
        let p = cs.drop_last();
        lemma_fastest_is_fastest(p);
        let k = cs.len() - 1;
        assert forall|i: int| 0 <= i < p.len() implies #[trigger] p[i] == cs[i] by {}
        match fastest(p) {
            Some((s0, m0)) => {
                let i0 = choose|i: int|
                    0 <= i < p.len() && (#[trigger] p[i]).result is Ok && p[i].result->Ok_0.elapsed_ms
                        == m0 && p[i].server@ == s0 && (forall|j: int|
                        0 <= j < i && (#[trigger] p[j]).result is Ok ==> p[j].result->Ok_0.elapsed_ms
                            > m0);
                assert(cs[i0] == p[i0]);
                assert forall|j: int| 0 <= j < i0 && (#[trigger] cs[j]).result is Ok implies cs[j].result->Ok_0.elapsed_ms > m0 by {
                    assert(p[j] == cs[j]);
                }
                match cs[k].result {
                    Ok(r) => {
                        if r.elapsed_ms < m0 {
                            assert forall|j: int| 0 <= j < k && (#[trigger] cs[j]).result is Ok implies cs[j].result->Ok_0.elapsed_ms > r.elapsed_ms by {
                                assert(p[j] == cs[j]);
                            }
                        }
                    },
                    Err(_) => {},
                }
            },
            None => {
                match cs[k].result {
                    Ok(r) => {
                        assert forall|j: int| 0 <= j < k && (#[trigger] cs[j]).result is Ok implies cs[j].result->Ok_0.elapsed_ms > r.elapsed_ms by {
                            assert(p[j] == cs[j]);
                        }
                    },
                    Err(_) => {
                        assert forall|i: int| 0 <= i < cs.len() implies (#[trigger] cs[i]).result is Err by {
                            if i < k {
                                assert(p[i] == cs[i]);
                            }
                        }
                    },
                }
            },
        }
        match fastest(cs) {
            Some((_, ms)) => {
                assert forall|i: int| 0 <= i < cs.len() && (#[trigger] cs[i]).result is Ok implies ms
                    <= cs[i].result->Ok_0.elapsed_ms by {
                    if i < k {
                        assert(p[i] == cs[i]);
                    }
                }
            },
            None => {},
        }
    }
}

/// Whether every successful result's records can be shown.
pub open spec fn comparisons_fit(cs: Seq<crate::compare::ComparisonResult>) -> bool {
    forall|i: int| 0 <= i < cs.len() ==> ((#[trigger] cs[i]).result matches Ok(r) ==> message_fits(
        r.message@,
    ))
}

/// `acc` followed by one server's part of the comparison: its response code
/// and time and its answers, or its error.
pub open spec fn comparison_entry_onto(acc: Seq<char>, color: bool, c: crate::compare::ComparisonResult) -> Seq<char> {
    let a = (acc.push('\n').push(' ') + painted(color, BOLD_YELLOW@, "@"@ + c.server@)).push(' ');
    match c.result {
        Ok(r) => {
            let a = (a + rcode_painted(color, r.message@.header.rcode) + " ("@ + decimal(
                r.elapsed_ms as nat,
            ) + "ms)"@).push('\n');
            if r.message@.answers.len() > 0 {
                table_onto(a, color, r.message@.answers)
            } else {
                a
            }
        },
        Err(e) => (a + painted(color, RED@, "error: "@ + crate::error::spec_message(e))).push('\n'),
    }
}

/// `acc` followed by each server's part.
pub open spec fn comparison_entries_onto(acc: Seq<char>, color: bool, cs: Seq<crate::compare::ComparisonResult>) -> Seq<char>
    decreases cs.len(),
{
    if cs.len() == 0 {
        acc
    } else {
        comparison_entry_onto(comparison_entries_onto(acc, color, cs.drop_last()), color, cs.last())
    }
}

/// `acc` followed by the comparison summary: whether the answers agree and
/// which server was fastest.
pub open spec fn comparison_summary_onto(acc: Seq<char>, color: bool, cs: Seq<crate::compare::ComparisonResult>) -> Seq<char> {
    let a = (acc.push('\n').push(' ') + painted(color, BOLD_WHITE@, "SUMMARY"@)).push('\n')
        + " answers: "@ + (if all_identical(cs) {
        painted(color, GREEN@, "identical"@)
    } else {
        painted(color, YELLOW@, "differ"@)
    });
    let a = a.push('\n');
    match fastest(cs) {
        Some((s, ms)) => (a + " fastest: "@ + painted(color, GREEN@, "@"@ + s) + " ("@ + decimal(
            ms as nat,
        ) + "ms)"@).push('\n'),
        None => a,
    }
}

/// `acc` followed by the comparison view: the title, each server's part,
/// the summary when there are at least two servers, a blank line.
pub open spec fn comparison_onto(
    acc: Seq<char>,
    color: bool,
    cs: Seq<crate::compare::ComparisonResult>,
    name: Seq<char>,
    qtype: Seq<char>,
) -> Seq<char> {
    let a = acc.push('\n').push(' ') + painted(color, BOLD_WHITE@, "COMPARING"@);
    let a = (a.push(' ') + painted(color, CYAN@, name)).push(' ') + painted(color, BOLD_CYAN@, qtype);
    let a = comparison_entries_onto(a.push('\n'), color, cs);
    let a = if cs.len() >= 2 {
        comparison_summary_onto(a, color, cs)
    } else {
        a
    };
    a.push('\n')
}

/// The compared answers of one server.
fn compared_answer_strings(c: &crate::compare::ComparisonResult) -> (r: Vec<String>)
    requires
        c.result matches Ok(q) ==> message_fits(q.message@),
    ensures
        strings_view(r@) == compared_answers(*c),
{
    let mut out: Vec<String> = Vec::new();
    match &c.result {
        Ok(q) => {
            let rs = &q.message.answers;
            let ghost v = records_view(rs@);
            let ghost want = q.message@.answers.map_values(|x: ResourceRecordView| compared_line(x));
            let mut i: usize = 0;
            while i < rs.len()
                invariant
                    v == records_view(rs@),
                    records_fit(v),
                    want == v.map_values(|x: ResourceRecordView| compared_line(x)),
                    i <= rs@.len(),
                    strings_view(out@) == want.take(i as int),
                decreases rs@.len() - i,
            {
                let rr = &rs[i];
                assert(v[i as int] == rr@);
                assert(crate::protocol::presentation::rdata_fits(v[i as int].rdata));
                let mut t = rr.rtype.to_string();
                push_str(&mut t, " ");
                push_str(&mut t, rr.name.as_str());
                push_str(&mut t, " ");
                let d = rr.rdata.to_string();
                push_str(&mut t, d.as_str());
                proof {
                    assert(t@ == compared_line(rr@));
                    assert(strings_view(out@.push(t)) =~= strings_view(out@).push(t@));
                }
                out.push(t);
                i = i + 1;
                assert(strings_view(out@) =~= want.take(i as int));
            }
            assert(want.take(i as int) =~= want);
        },
        Err(_) => {
            assert(strings_view(out@) =~= Seq::<Seq<char>>::empty());
        },
    }
    out
}

/// Appends one server's part of the comparison.
fn push_comparison_entry(out: &mut String, painter: &Painter, c: &crate::compare::ComparisonResult)
    requires
        c.result matches Ok(q) ==> message_fits(q.message@),
    ensures
        final(out)@ == comparison_entry_onto(old(out)@, painter.color, *c),
{
    push_char(out, '\n');
    push_char(out, ' ');
    let mut at = String::new();
    push_str(&mut at, "@");
    push_str(&mut at, c.server.as_str());
    push_painted(out, painter, BOLD_YELLOW, at.as_str());
    push_char(out, ' ');
    match &c.result {
        Ok(r) => {
            let rc = format_rcode(painter, &r.message.header.rcode);
            push_str(out, rc.as_str());
            push_str(out, " (");
            push_decimal(out, r.elapsed_ms);
            push_str(out, "ms)");
            push_char(out, '\n');
            if r.message.answers.len() > 0 {
                print_record_table(out, painter, r.message.answers.as_slice());
            }
        },
        Err(e) => {
            let mut m = String::new();
            push_str(&mut m, "error: ");
            let t = e.to_string();
            push_str(&mut m, t.as_str());
            push_painted(out, painter, RED, m.as_str());
            push_char(out, '\n');
        },
    }
}

/// Appends the comparison view.
pub fn write_comparison(
    out: &mut String,
    painter: &Painter,
    results: &[crate::compare::ComparisonResult],
    name: &str,
    qtype: &str,
)
    requires
        comparisons_fit(results@),
    ensures
        final(out)@ == comparison_onto(old(out)@, painter.color, results@, name@, qtype@),
{
    let ghost cs = results@;
    push_char(out, '\n');
    push_char(out, ' ');
    push_painted(out, painter, BOLD_WHITE, "COMPARING");
    push_char(out, ' ');
    push_painted(out, painter, CYAN, name);
    push_char(out, ' ');
    push_painted(out, painter, BOLD_CYAN, qtype);
    push_char(out, '\n');
    let ghost head = out@;
    let n = results.len();
    let mut i: usize = 0;
    while i < n
        invariant
            n == cs.len(),
            cs == results@,
            comparisons_fit(cs),
            i <= n,
            out@ == comparison_entries_onto(head, painter.color, cs.take(i as int)),
        decreases n - i,
    {
        proof {
            assert(cs.take(i + 1).drop_last() =~= cs.take(i as int));
            assert(cs.take(i + 1).last() == cs[i as int]);
            assert((cs[i as int].result matches Ok(r) ==> message_fits(r.message@)));
        }
        push_comparison_entry(out, painter, &results[i]);
        i = i + 1;
    }
    assert(cs.take(n as int) =~= cs);
    if n >= 2 {
        let first = compared_answer_strings(&results[0]);
        assert((cs[0].result matches Ok(r) ==> message_fits(r.message@)));
        let mut identical = true;
        let mut j: usize = 0;
        while j < n
            invariant
                n == cs.len(),
                cs == results@,
                comparisons_fit(cs),
                n >= 2,
                j <= n,
                strings_view(first@) == compared_answers(cs[0]),
                identical == forall|k: int| 0 <= k < j ==> compared_answers(#[trigger] cs[k]) == compared_answers(cs[0]),
            decreases n - j,
        {
            assert((cs[j as int].result matches Ok(r) ==> message_fits(r.message@)));
            let other = compared_answer_strings(&results[j]);
            if !crate::watch::strings_equal(&other, &first) {
                identical = false;
            }
            j = j + 1;
        }
        let mut best: Option<(usize, u64)> = None;
        let mut k: usize = 0;
        while k < n
            invariant
                n == cs.len(),
                cs == results@,
                k <= n,
                match best {
                    Some((b, ms)) => b < k && fastest(cs.take(k as int)) == Some((cs[b as int].server@, ms)),
                    None => fastest(cs.take(k as int)) is None,
                },
            decreases n - k,
        {
            proof {
                assert(cs.take(k + 1).drop_last() =~= cs.take(k as int));
                assert(cs.take(k + 1).last() == cs[k as int]);
            }
            match &results[k].result {
                Ok(r) => {
                    let better = match best {
                        Some((_, ms)) => r.elapsed_ms < ms,
                        None => true,
                    };
                    if better {
                        best = Some((k, r.elapsed_ms));
                    }
                },
                Err(_) => {},
            }
            k = k + 1;
        }
        assert(cs.take(n as int) =~= cs);
        push_char(out, '\n');
        push_char(out, ' ');
        push_painted(out, painter, BOLD_WHITE, "SUMMARY");
        push_char(out, '\n');
        push_str(out, " answers: ");
        if identical {
            push_painted(out, painter, GREEN, "identical");
        } else {
            push_painted(out, painter, YELLOW, "differ");
        }
        push_char(out, '\n');
        match best {
            Some((b, ms)) => {
                push_str(out, " fastest: ");
                let mut at = String::new();
                push_str(&mut at, "@");
                push_str(&mut at, results[b].server.as_str());
                push_painted(out, painter, GREEN, at.as_str());
                push_str(out, " (");
                push_decimal(out, ms);
                push_str(out, "ms)");
                push_char(out, '\n');
            },
            None => {},
        }
    }
    push_char(out, '\n');
}

} // verus!

verus! {

/// How propagation groups an answer: type and RDATA.
pub open spec fn key_line(r: ResourceRecordView) -> Seq<char> {
    type_text(r.rtype) + " "@ + rdata_text(r.rdata)
}

/// The answers of a response as one key: the records' lines joined by `; `.
pub open spec fn answer_key(m: MessageView) -> Seq<char> {
    join(m.answers.map_values(|x: ResourceRecordView| key_line(x)), "; "@)
}

/// The keys of the successful results, in order.
pub open spec fn result_keys(ps: Seq<crate::propagation::PropagationResult>) -> Seq<Seq<char>>
    decreases ps.len(),
{
    if ps.len() == 0 {
        Seq::empty()
    } else {
        match ps.last().result {
            Ok(r) => result_keys(ps.drop_last()).push(answer_key(r.message@)),
            Err(_) => result_keys(ps.drop_last()),
        }
    }
}

/// The number of failed results.
pub open spec fn error_count(ps: Seq<crate::propagation::PropagationResult>) -> nat
    decreases ps.len(),
{
    if ps.len() == 0 {
        0
    } else {
        error_count(ps.drop_last()) + if ps.last().result is Err {
            1nat
        } else {
            0nat
        }
    }
}

/// The number of different keys.
pub open spec fn distinct_count(ks: Seq<Seq<char>>) -> nat
    decreases ks.len(),
{
    if ks.len() == 0 {
        0
    } else {
        distinct_count(ks.drop_last()) + if ks.drop_last().contains(ks.last()) {
            0nat
        } else {
            1nat
        }
    }
}

/// How many times `k` occurs among `ks`.
pub open spec fn count_of(ks: Seq<Seq<char>>, k: Seq<char>) -> nat
    decreases ks.len(),
{
    if ks.len() == 0 {
        0
    } else {
        count_of(ks.drop_last(), k) + if ks.last() == k {
            1nat
        } else {
            0nat
        }
    }
}

/// The largest number of times any of `sel` occurs among `all`.
pub open spec fn max_count(all: Seq<Seq<char>>, sel: Seq<Seq<char>>) -> nat
    decreases sel.len(),
{
    if sel.len() == 0 {
        0
    } else {
        let m = max_count(all, sel.drop_last());
        let c = count_of(all, sel.last());
        if c > m {
            c
        } else {
            m
        }
    }
}

/// `count_of` counts occurrences: it is the multiplicity in the multiset of
/// the keys.
proof fn lemma_count_of_multiset(ks: Seq<Seq<char>>, k: Seq<char>)
    ensures
        count_of(ks, k) == ks.to_multiset().count(k),
    decreases ks.len(),
{
    broadcast use vstd::seq_lib::group_to_multiset_ensures;
    if ks.len() == 0 {
        assert(ks.to_multiset() =~= vstd::multiset::Multiset::empty());
    } else {
        lemma_count_of_multiset(ks.drop_last(), k);
        assert(ks.drop_last().push(ks.last()) =~= ks);
        ks.drop_last().to_multiset_ensures();
    }
}

/// `max_count(all, sel)` is the count of one of `sel` and no smaller than
/// the count of any of them.
proof fn lemma_max_count_bounds(all: Seq<Seq<char>>, sel: Seq<Seq<char>>)
    ensures
        forall|i: int| 0 <= i < sel.len() ==> count_of(all, #[trigger] sel[i]) <= max_count(all, sel),
        sel.len() > 0 ==> exists|i: int| 0 <= i < sel.len() && count_of(all, #[trigger] sel[i]) == max_count(all, sel),
        sel.len() == 0 ==> max_count(all, sel) == 0,
    decreases sel.len(),
{
    if sel.len() > 0 {
        let p = sel.drop_last();
        lemma_max_count_bounds(all, p);
        assert forall|i: int| 0 <= i < sel.len() implies count_of(all, #[trigger] sel[i]) <= max_count(all, sel) by {
            if i < p.len() {
                assert(p[i] == sel[i]);
            }
        }
        let m = max_count(all, p);
        let c = count_of(all, sel.last());
        if c > m || p.len() == 0 {
            assert(count_of(all, sel[sel.len() - 1]) == max_count(all, sel));
        } else {
            let i = choose|i: int| 0 <= i < p.len() && count_of(all, #[trigger] p[i]) == max_count(all, p);
            assert(p[i] == sel[i]);
            assert(count_of(all, sel[i]) == max_count(all, sel));
        }
    }
}

/// The size of the largest group of equal keys: how many times the most
/// frequent key occurs (zero for no keys). `count_of` is the number of
/// occurrences, `max_count(ks, ks)` is at least the count of every key and
/// equals the count of one of them.
pub proof fn lemma_largest_group(ks: Seq<Seq<char>>)
    ensures
        forall|k: Seq<char>| #[trigger] count_of(ks, k) == ks.to_multiset().count(k),
        forall|i: int| 0 <= i < ks.len() ==> ks.to_multiset().count(#[trigger] ks[i]) <= max_count(ks, ks),
        ks.len() > 0 ==> exists|i: int|
            0 <= i < ks.len() && ks.to_multiset().count(#[trigger] ks[i]) == max_count(ks, ks),
        ks.len() == 0 ==> max_count(ks, ks) == 0,
{
    assert forall|k: Seq<char>| #[trigger] count_of(ks, k) == ks.to_multiset().count(k) by {
        lemma_count_of_multiset(ks, k);
    }
    lemma_max_count_bounds(ks, ks);
    assert forall|i: int| 0 <= i < ks.len() implies ks.to_multiset().count(#[trigger] ks[i]) <= max_count(ks, ks) by {
        lemma_count_of_multiset(ks, ks[i]);
    }
    if ks.len() > 0 {
        let i = choose|i: int| 0 <= i < ks.len() && count_of(ks, #[trigger] ks[i]) == max_count(ks, ks);
        lemma_count_of_multiset(ks, ks[i]);
    }
}

/// The width of the resolver column: the longest name in bytes, or 8 when
/// there is none.
pub open spec fn resolver_width(ps: Seq<crate::propagation::PropagationResult>) -> nat
    decreases ps.len(),
{
    if ps.len() == 0 {
        8
    } else if ps.len() == 1 {
        utf8_len(ps[0].resolver_name@)
    } else {
        let w = resolver_width(ps.drop_last());
        let l = utf8_len(ps.last().resolver_name@);
        if l > w {
            l
        } else {
            w
        }
    }
}

/// `acc` followed by the answer lines of one resolver: type and coloured
/// RDATA.
pub open spec fn answer_lines_onto(acc: Seq<char>, color: bool, rs: Seq<ResourceRecordView>) -> Seq<char>
    decreases rs.len(),
{
    if rs.len() == 0 {
        acc
    } else {
        let a = answer_lines_onto(acc, color, rs.drop_last());
        ((a + "   "@ + painted(color, BOLD_CYAN@, type_text(rs.last().rtype))).push(' ')
            + rdata_painted(color, rs.last().rdata)).push('\n')
    }
}

/// `acc` followed by one resolver's part: the padded name and address, then
/// the response code, time and answers, or the error.
pub open spec fn prop_entry_onto(acc: Seq<char>, color: bool, p: crate::propagation::PropagationResult, w: nat) -> Seq<char> {
    let label = (pad_to(p.resolver_name@, w) + " ("@ + p.resolver_ip@).push(')');
    let a = (acc.push('\n').push(' ') + painted(color, BOLD_YELLOW@, label)).push(' ');
    match p.result {
        Ok(r) => answer_lines_onto(
            ((a + rcode_painted(color, r.message@.header.rcode)).push(' ') + decimal(
                r.elapsed_ms as nat,
            ) + "ms"@).push('\n'),
            color,
            r.message@.answers,
        ),
        Err(e) => (a + painted(color, RED@, "error: "@ + crate::error::spec_message(e))).push('\n'),
    }
}

/// `acc` followed by each resolver's part.
pub open spec fn prop_entries_onto(acc: Seq<char>, color: bool, ps: Seq<crate::propagation::PropagationResult>, w: nat) -> Seq<char>
    decreases ps.len(),
{
    if ps.len() == 0 {
        acc
    } else {
        prop_entry_onto(prop_entries_onto(acc, color, ps.drop_last(), w), color, ps.last(), w)
    }
}

/// `acc` followed by the unreachable line when some resolvers failed.
pub open spec fn unreachable_onto(acc: Seq<char>, color: bool, errors: nat) -> Seq<char> {
    if errors > 0 {
        (acc + " "@ + painted(color, RED@, decimal(errors)) + " resolver(s) unreachable"@).push('\n')
    } else {
        acc
    }
}

/// `acc` followed by the propagation summary: when all successful
/// resolvers agree, how many and that propagation is complete; otherwise
/// how many share the most common answer and that it is incomplete; and how
/// many resolvers failed, if any.
pub open spec fn prop_summary_onto(acc: Seq<char>, color: bool, ps: Seq<crate::propagation::PropagationResult>) -> Seq<char> {
    let keys = result_keys(ps);
    let errors = error_count(ps);
    let total = ps.len();
    let a = (acc.push('\n').push(' ') + painted(color, BOLD_WHITE@, "SUMMARY"@)).push('\n');
    if distinct_count(keys) == 1 {
        unreachable_onto(
            (a + " "@ + decimal((total - errors) as nat) + "/"@ + decimal(total)
                + " resolvers agree "@ + painted(color, GREEN@, "\u{2014}"@)
                + " propagation complete"@).push('\n'),
            color,
            errors,
        )
    } else {
        unreachable_onto(
            ((a + " "@ + decimal(max_count(keys, keys)) + "/"@ + decimal(total) + " resolvers agree "@
                + painted(color, YELLOW@, "\u{2014}"@)).push(' ') + painted(
                color,
                YELLOW@,
                "propagation incomplete"@,
            )).push('\n'),
            color,
            errors,
        )
    }
}

/// `acc` followed by the propagation view: the title, each resolver's part,
/// the summary, a blank line.
pub open spec fn propagation_onto(
    acc: Seq<char>,
    color: bool,
    ps: Seq<crate::propagation::PropagationResult>,
    name: Seq<char>,
    qtype: Seq<char>,
) -> Seq<char> {
    let a = acc.push('\n').push(' ') + painted(color, BOLD_WHITE@, "PROPAGATION CHECK"@);
    let a = (a.push(' ') + painted(color, CYAN@, name)).push(' ') + painted(color, BOLD_CYAN@, qtype);
    let a = prop_entries_onto(a.push('\n'), color, ps, resolver_width(ps));
    prop_summary_onto(a, color, ps).push('\n')
}

/// Whether every successful result's answers can be shown.
pub open spec fn propagation_fits(ps: Seq<crate::propagation::PropagationResult>) -> bool {
    forall|i: int| 0 <= i < ps.len() ==> ((#[trigger] ps[i]).result matches Ok(r) ==> records_fit(
        r.message@.answers,
    ))
}

/// The key of a response.
fn answer_key_string(m: &DnsMessage) -> (r: String)
    requires
        records_fit(m@.answers),
    ensures
        r@ == answer_key(m@),
{
    let rs = &m.answers;
    let ghost v = records_view(rs@);
    let ghost want = v.map_values(|x: ResourceRecordView| key_line(x));
    let mut items: Vec<String> = Vec::new();
    let mut i: usize = 0;
    while i < rs.len()
        invariant
            v == records_view(rs@),
            records_fit(v),
            want == v.map_values(|x: ResourceRecordView| key_line(x)),
            i <= rs@.len(),
            strings_view(items@) == want.take(i as int),
        decreases rs@.len() - i,
    {
        let rr = &rs[i];
        assert(v[i as int] == rr@);
        assert(crate::protocol::presentation::rdata_fits(v[i as int].rdata));
        let mut t = rr.rtype.to_string();
        push_str(&mut t, " ");
        let d = rr.rdata.to_string();
        push_str(&mut t, d.as_str());
        proof {
            assert(strings_view(items@.push(t)) =~= strings_view(items@).push(t@));
        }
        items.push(t);
        i = i + 1;
        assert(strings_view(items@) =~= want.take(i as int));
    }
    assert(want.take(i as int) =~= want);
    let mut s = String::new();
    let sep = crate::text::chars_of("; ");
    push_joined(&mut s, &items, &sep);
    s
}

/// Appends the answer lines of one resolver.
fn push_answer_lines(out: &mut String, painter: &Painter, rs: &Vec<ResourceRecord>)
    requires
        records_fit(records_view(rs@)),
    ensures
        final(out)@ == answer_lines_onto(old(out)@, painter.color, records_view(rs@)),
{
    let ghost v = records_view(rs@);
    let mut i: usize = 0;
    while i < rs.len()
        invariant
            v == records_view(rs@),
            records_fit(v),
            i <= rs@.len(),
            out@ == answer_lines_onto(old(out)@, painter.color, v.take(i as int)),
        decreases rs@.len() - i,
    {
        let rr = &rs[i];
        proof {
            assert(v.take(i + 1).drop_last() =~= v.take(i as int));
            assert(v.take(i + 1).last() == rr@);
            assert(crate::protocol::presentation::rdata_fits(v[i as int].rdata));
        }
        push_str(out, "   ");
        let t = rr.rtype.to_string();
        push_painted(out, painter, BOLD_CYAN, t.as_str());
        push_char(out, ' ');
        let d = format_rdata_colored(painter, &rr.rdata);
        push_str(out, d.as_str());
        push_char(out, '\n');
        i = i + 1;
    }
    assert(v.take(i as int) =~= v);
}

/// Appends one resolver's part.
fn push_prop_entry(out: &mut String, painter: &Painter, p: &crate::propagation::PropagationResult, w: usize)
    requires
        p.result matches Ok(r) ==> records_fit(r.message@.answers),
    ensures
        final(out)@ == prop_entry_onto(old(out)@, painter.color, *p, w as nat),
{
    let mut label = pad_string(p.resolver_name.as_str(), w);
    push_str(&mut label, " (");
    push_str(&mut label, p.resolver_ip.as_str());
    push_char(&mut label, ')');
    push_char(out, '\n');
    push_char(out, ' ');
    push_painted(out, painter, BOLD_YELLOW, label.as_str());
    push_char(out, ' ');
    match &p.result {
        Ok(r) => {
            let rc = format_rcode(painter, &r.message.header.rcode);
            push_str(out, rc.as_str());
            push_char(out, ' ');
            push_decimal(out, r.elapsed_ms);
            push_str(out, "ms");
            push_char(out, '\n');
            push_answer_lines(out, painter, &r.message.answers);
        },
        Err(e) => {
            let mut m = String::new();
            push_str(&mut m, "error: ");
            let t = e.to_string();
            push_str(&mut m, t.as_str());
            push_painted(out, painter, RED, m.as_str());
            push_char(out, '\n');
        },
    }
}

/// Appends the unreachable line when some resolvers failed.
fn push_unreachable(out: &mut String, painter: &Painter, errors: usize)
    ensures
        final(out)@ == unreachable_onto(old(out)@, painter.color, errors as nat),
{
    if errors > 0 {
        push_str(out, " ");
        let mut n = String::new();
        push_decimal(&mut n, errors as u64);
        push_painted(out, painter, RED, n.as_str());
        push_str(out, " resolver(s) unreachable");
        push_char(out, '\n');
    }
}

/// The number of different keys and the size of the largest group.
fn key_stats(keys: &Vec<String>) -> (r: (usize, usize))
    ensures
        r.0 == distinct_count(strings_view(keys@)),
        r.1 == max_count(strings_view(keys@), strings_view(keys@)),
{
    let ghost ks = strings_view(keys@);
    let n = keys.len();
    let mut distinct: usize = 0;
    let mut best: usize = 0;
    let mut j: usize = 0;
    while j < n
        invariant
            n == keys@.len(),
            ks == strings_view(keys@),
            j <= n,
            distinct == distinct_count(ks.take(j as int)),
            distinct <= j,
            best == max_count(ks, ks.take(j as int)),
            best <= n,
        decreases n - j,
    {
        proof {
            assert(ks.take(j + 1).drop_last() =~= ks.take(j as int));
            assert(ks.take(j + 1).last() == ks[j as int]);
            assert(ks[j as int] == keys@[j as int]@);
        }
        let mut seen = false;
        let mut k: usize = 0;
        while k < j
            invariant
                n == keys@.len(),
                ks == strings_view(keys@),
                k <= j < n,
                seen == exists|q: int| 0 <= q < k && ks[q] == ks[j as int],
            decreases j - k,
        {
            assert(ks[k as int] == keys@[k as int]@);
            assert(ks[j as int] == keys@[j as int]@);
            if str_eq(&keys[k], &keys[j]) {
                seen = true;
            }
            k = k + 1;
        }
        proof {
            if seen {
                let q = choose|q: int| 0 <= q < j && ks[q] == ks[j as int];
                assert(ks.take(j as int)[q] == ks[j as int]);
            } else {
                assert forall|q: int| 0 <= q < ks.take(j as int).len() implies ks.take(j as int)[q]
                    != ks[j as int] by {
                    assert(ks.take(j as int)[q] == ks[q]);
                }
            }
        }
        if !seen {
            distinct = distinct + 1;
        }
        let mut count: usize = 0;
        let mut m: usize = 0;
        while m < n
            invariant
                n == keys@.len(),
                ks == strings_view(keys@),
                j < n,
                m <= n,
                count == count_of(ks.take(m as int), ks[j as int]),
                count <= m,
            decreases n - m,
        {
            proof {
                assert(ks.take(m + 1).drop_last() =~= ks.take(m as int));
                assert(ks.take(m + 1).last() == ks[m as int]);
            }
            assert(ks[m as int] == keys@[m as int]@);
            assert(ks[j as int] == keys@[j as int]@);
            if str_eq(&keys[m], &keys[j]) {
                count = count + 1;
            }
            m = m + 1;
        }
        assert(ks.take(n as int) =~= ks);
        if count > best {
            best = count;
        }
        j = j + 1;
    }
    assert(ks.take(n as int) =~= ks);
    (distinct, best)
}

/// Appends the propagation view.
pub fn write_propagation(
    out: &mut String,
    painter: &Painter,
    results: &[crate::propagation::PropagationResult],
    name: &str,
    qtype: &str,
)
    requires
        propagation_fits(results@),
    ensures
        final(out)@ == propagation_onto(old(out)@, painter.color, results@, name@, qtype@),
{
    let ghost ps = results@;
    let n = results.len();
    let mut w: usize = 8;
    let mut i: usize = 0;
    while i < n
        invariant
            n == ps.len(),
            ps == results@,
            i <= n,
            i == 0 ==> w == 8,
            i > 0 ==> w == resolver_width(ps.take(i as int)),
        decreases n - i,
    {
        proof {
            assert(ps.take(i + 1).drop_last() =~= ps.take(i as int));
            assert(ps.take(i + 1).last() == ps[i as int]);
            if i == 0 {
                assert(ps.take(1)[0] == ps[0]);
            }
        }
        let l = byte_len(results[i].resolver_name.as_str());
        if i == 0 || l > w {
            w = l;
        }
        i = i + 1;
    }
    assert(ps.take(n as int) =~= ps);
    push_char(out, '\n');
    push_char(out, ' ');
    push_painted(out, painter, BOLD_WHITE, "PROPAGATION CHECK");
    push_char(out, ' ');
    push_painted(out, painter, CYAN, name);
    push_char(out, ' ');
    push_painted(out, painter, BOLD_CYAN, qtype);
    push_char(out, '\n');
    let ghost head = out@;
    let mut keys: Vec<String> = Vec::new();
    let mut errors: usize = 0;
    let mut k: usize = 0;
    while k < n
        invariant
            n == ps.len(),
            ps == results@,
            propagation_fits(ps),
            w == resolver_width(ps),
            k <= n,
            errors <= k,
            errors == error_count(ps.take(k as int)),
            strings_view(keys@) == result_keys(ps.take(k as int)),
            out@ == prop_entries_onto(head, painter.color, ps.take(k as int), w as nat),
        decreases n - k,
    {
        let p = &results[k];
        proof {
            assert(ps.take(k + 1).drop_last() =~= ps.take(k as int));
            assert(ps.take(k + 1).last() == *p);
            assert((ps[k as int].result matches Ok(r) ==> records_fit(r.message@.answers)));
        }
        push_prop_entry(out, painter, p, w);
        match &p.result {
            Ok(r) => {
                let key = answer_key_string(&r.message);
                proof {
                    assert(strings_view(keys@.push(key)) =~= strings_view(keys@).push(key@));
                }
                keys.push(key);
            },
            Err(_) => {
                errors = errors + 1;
            },
        }
        k = k + 1;
    }
    assert(ps.take(n as int) =~= ps);
    let (groups, max_group) = key_stats(&keys);
    let total = n;
    let successful = total - errors;
    push_char(out, '\n');
    push_char(out, ' ');
    push_painted(out, painter, BOLD_WHITE, "SUMMARY");
    push_char(out, '\n');
    if groups == 1 {
        push_str(out, " ");
        push_decimal(out, successful as u64);
        push_str(out, "/");
        push_decimal(out, total as u64);
        push_str(out, " resolvers agree ");
        push_painted(out, painter, GREEN, "\u{2014}");
        push_str(out, " propagation complete");
        push_char(out, '\n');
        push_unreachable(out, painter, errors);
    } else {
        push_str(out, " ");
        push_decimal(out, max_group as u64);
        push_str(out, "/");
        push_decimal(out, total as u64);
        push_str(out, " resolvers agree ");
        push_painted(out, painter, YELLOW, "\u{2014}");
        push_char(out, ' ');
        push_painted(out, painter, YELLOW, "propagation incomplete");
        push_char(out, '\n');
        push_unreachable(out, painter, errors);
    }
    push_char(out, '\n');
}

} // verus!
