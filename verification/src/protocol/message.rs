//! Whole messages: building a query, and parsing a response into its
//! sections with the EDNS information pulled out of the OPT record.
use vstd::prelude::*;
use vstd::utf8::encode_utf8;
use rand::Rng;
use crate::error::DnsError;
use crate::protocol::edns::{
    EdnsInfo, EdnsInfoView, EdnsOptions, decode_opt_record, encode_opt_record, options_len,
    options_view, options_wire, options_found, spec_decode_opt, spec_opt_record,
    lemma_opt_record_roundtrip, lemma_options_roundtrip,
};
use crate::protocol::header::{Header, header_bytes, spec_decode_header, lemma_header_roundtrip, lemma_u16_bytes_roundtrip};
use crate::protocol::name::{labels_wire, spec_decode_name, spec_name_text, lemma_name_wire_roundtrip};
use crate::protocol::question::{Question, QuestionView, spec_decode_question, spec_encode_question, lemma_question_roundtrip};
use crate::protocol::record::{RData, RDataView, ResourceRecord, ResourceRecordView, spec_decode_record, spec_parse_rdata};
use crate::protocol::types::{
    Rcode, RecordClass, RecordType, spec_class_to_u16, spec_rcode_code, spec_rcode_from_u16,
    spec_class_from_u16, spec_type_from_u16, spec_type_to_u16, is_canonical_rcode, lemma_class_roundtrip,
};
use crate::protocol::wire::{be16, be32, extend_bytes};

verus! {

/// A parsed message. The OPT record of a response is not kept among the
/// additional records; its content is in `edns`.
#[derive(Debug)]
pub struct DnsMessage {
    pub header: Header,
    pub questions: Vec<Question>,
    pub answers: Vec<ResourceRecord>,
    pub authority: Vec<ResourceRecord>,
    pub additional: Vec<ResourceRecord>,
    pub edns: Option<EdnsInfo>,
}

/// The abstract content of a message.
pub ghost struct MessageView {
    pub header: Header,
    pub questions: Seq<QuestionView>,
    pub answers: Seq<ResourceRecordView>,
    pub authority: Seq<ResourceRecordView>,
    pub additional: Seq<ResourceRecordView>,
    pub edns: Option<EdnsInfoView>,
}

/// The views of a list of questions.
pub open spec fn questions_view(v: Seq<Question>) -> Seq<QuestionView> {
    v.map_values(|q: Question| q@)
}

/// The views of a list of records.
pub open spec fn records_view(v: Seq<ResourceRecord>) -> Seq<ResourceRecordView> {
    v.map_values(|r: ResourceRecord| r@)
}

impl View for DnsMessage {
    type V = MessageView;

    open spec fn view(&self) -> MessageView {
        MessageView {
            header: self.header,
            questions: questions_view(self.questions@),
            answers: records_view(self.answers@),
            authority: records_view(self.authority@),
            additional: records_view(self.additional@),
            edns: match self.edns {
                Some(e) => Some(e@),
                None => None,
            },
        }
    }
}

/// `count` questions one after another from `offset`, and the offset after
/// them, or `None` if one is malformed.
pub open spec fn questions_at(buf: Seq<u8>, offset: int, count: nat) -> Option<(Seq<QuestionView>, int)>
    decreases count,
{
    if count == 0 {
        Some((Seq::empty(), offset))
    } else {
        match questions_at(buf, offset, (count - 1) as nat) {
            Some((qs, off)) => match spec_decode_question(buf, off) {
                Some((q, n)) => Some((qs.push(q), off + n)),
                None => None,
            },
            None => None,
        }
    }
}

/// `count` records one after another from `offset`, and the offset after
/// them, or `None` if one is malformed.
pub open spec fn records_at(buf: Seq<u8>, offset: int, count: nat) -> Option<(Seq<ResourceRecordView>, int)>
    decreases count,
{
    if count == 0 {
        Some((Seq::empty(), offset))
    } else {
        match records_at(buf, offset, (count - 1) as nat) {
            Some((rs, off)) => match spec_decode_record(buf, off) {
                Some((r, n)) => Some((rs.push(r), off + n)),
                None => None,
            },
            None => None,
        }
    }
}

/// The EDNS information of the last OPT record among `rs`, if any.
pub open spec fn opt_info(rs: Seq<ResourceRecordView>) -> Option<EdnsInfoView>
    decreases rs.len(),
{
    if rs.len() == 0 {
        None
    } else {
        match rs.last().rdata {
            RDataView::OPT(d) => Some(
                spec_decode_opt(spec_class_to_u16(rs.last().rclass), rs.last().ttl, d),
            ),
            _ => opt_info(rs.drop_last()),
        }
    }
}

/// The records of `rs` that are not of type OPT, in order.
pub open spec fn without_opt(rs: Seq<ResourceRecordView>) -> Seq<ResourceRecordView>
    decreases rs.len(),
{
    if rs.len() == 0 {
        Seq::empty()
    } else if rs.last().rtype == RecordType::OPT {
        without_opt(rs.drop_last())
    } else {
        without_opt(rs.drop_last()).push(rs.last())
    }
}

/// The header with the OPT record's upper eight RCODE bits folded into the
/// 4-bit RCODE (RFC 6891 §6.1.3), when they are not zero.
pub open spec fn fold_rcode(h: Header, edns: Option<EdnsInfoView>) -> Header {
    match edns {
        Some(e) => if e.extended_rcode != 0 {
            Header {
                rcode: spec_rcode_from_u16(
                    (e.extended_rcode as int * 16 + spec_rcode_code(h.rcode) % 16) as u16,
                ),
                ..h
            }
        } else {
            h
        },
        None => h,
    }
}

/// The message that `buf` holds, or `None` when it is malformed or
/// truncated.
pub open spec fn spec_parse_message(buf: Seq<u8>) -> Option<MessageView> {
    if buf.len() < 12 {
        None
    } else {
        let h = spec_decode_header(buf);
        match questions_at(buf, 12, h.qdcount as nat) {
            Some((qs, o1)) => match records_at(buf, o1, h.ancount as nat) {
                Some((an, o2)) => match records_at(buf, o2, h.nscount as nat) {
                    Some((ns, o3)) => match records_at(buf, o3, h.arcount as nat) {
                        Some((ar, _)) => Some(
                            MessageView {
                                header: fold_rcode(h, opt_info(ar)),
                                questions: qs,
                                answers: an,
                                authority: ns,
                                additional: without_opt(ar),
                                edns: opt_info(ar),
                            },
                        ),
                        None => None,
                    },
                    None => None,
                },
                None => None,
            },
            None => None,
        }
    }
}

/// The header of a query: a standard query header with the CD bit as
/// given and one additional record when EDNS is used.
pub open spec fn query_header(id: u16, rd: bool, cd: bool, edns: bool) -> Header {
    Header {
        id,
        qr: false,
        opcode: 0,
        aa: false,
        tc: false,
        rd,
        ra: false,
        ad: false,
        cd,
        rcode: Rcode::NoError,
        qdcount: 1,
        ancount: 0,
        nscount: 0,
        arcount: if edns { 1 } else { 0 },
    }
}

/// The OPT record of a query's EDNS options.
pub open spec fn opt_record_of(o: EdnsOptions) -> Seq<u8> {
    spec_opt_record(o.udp_payload_size, o.version, o.dnssec_ok, options_view(o.options@))
}

/// Whether the options' total length fits in memory sizes.
pub open spec fn edns_fits(edns_opts: Option<&EdnsOptions>) -> bool {
    match edns_opts {
        Some(o) => options_len(options_view(o.options@)) <= usize::MAX,
        None => true,
    }
}

/// The bytes of a query with the given ID, or `None` when the name cannot
/// be encoded: header, question, and the OPT record when EDNS is used.
pub open spec fn spec_query(
    id: u16,
    name: Seq<char>,
    qtype: RecordType,
    qclass: RecordClass,
    rd: bool,
    cd: bool,
    edns_opts: Option<&EdnsOptions>,
) -> Option<Seq<u8>> {
    match spec_encode_question(encode_utf8(name), qtype, qclass) {
        Some(q) => Some(
            header_bytes(query_header(id, rd, cd, edns_opts is Some)) + q + match edns_opts {
                Some(o) => opt_record_of(*o),
                None => Seq::empty(),
            },
        ),
        None => None,
    }
}

/// A random transaction ID. Wraps `rand::thread_rng().gen::<u16>()`; nothing
/// is stated of the value, which is drawn at random.
#[verifier::external_body]
fn random_query_id() -> u16 {
    rand::thread_rng().gen::<u16>()
}

impl DnsMessage {
    /// A class-IN query with a random ID, without the CD bit. Returns the
    /// bytes and the ID.
    pub fn build_query(name: &str, qtype: RecordType, rd: bool, edns_opts: Option<&EdnsOptions>) -> (r: Result<
        (Vec<u8>, u16),
        DnsError,
    >)
        requires
            edns_fits(edns_opts),
        ensures
            match r {
                Ok((b, id)) => spec_query(id, name@, qtype, RecordClass::IN, rd, false, edns_opts)
                    == Some(b@),
                Err(e) => spec_encode_question(encode_utf8(name@), qtype, RecordClass::IN) is None
                    && e is Protocol,
            },
    {
        Self::build_query_with_class(name, qtype, RecordClass::IN, rd, false, edns_opts)
    }

    /// A query with a random ID. Returns the bytes and the ID.
    pub fn build_query_with_class(
        name: &str,
        qtype: RecordType,
        qclass: RecordClass,
        rd: bool,
        cd: bool,
        edns_opts: Option<&EdnsOptions>,
    ) -> (r: Result<(Vec<u8>, u16), DnsError>)
        requires
            edns_fits(edns_opts),
        ensures
            match r {
                Ok((b, id)) => spec_query(id, name@, qtype, qclass, rd, cd, edns_opts) == Some(b@),
                Err(e) => spec_encode_question(encode_utf8(name@), qtype, qclass) is None
                    && e is Protocol,
            },
    {
        let id = random_query_id();
        match Self::build_query_with_id(id, name, qtype, qclass, rd, cd, edns_opts) {
            Ok(b) => Ok((b, id)),
            Err(e) => Err(e),
        }
    }

    /// The bytes of a query with the given ID.
    pub fn build_query_with_id(
        id: u16,
        name: &str,
        qtype: RecordType,
        qclass: RecordClass,
        rd: bool,
        cd: bool,
        edns_opts: Option<&EdnsOptions>,
    ) -> (r: Result<Vec<u8>, DnsError>)
        requires
            edns_fits(edns_opts),
        ensures
            match r {
                Ok(b) => spec_query(id, name@, qtype, qclass, rd, cd, edns_opts) == Some(b@),
                Err(e) => spec_encode_question(encode_utf8(name@), qtype, qclass) is None
                    && e is Protocol,
            },
    {
        let mut header = Header::new_query(id, rd);
        header.cd = cd;
        if edns_opts.is_some() {
            header.arcount = 1;
        }
        assert(header == query_header(id, rd, cd, edns_opts is Some));
        let question = Question::new_with_class(name, qtype, qclass);
        let mut buf = header.encode();
        let q = match question.encode() {
            Ok(q) => q,
            Err(e) => return Err(e),
        };
        extend_bytes(&mut buf, q.as_slice());
        match edns_opts {
            Some(opts) => {
                let o = encode_opt_record(opts);
                extend_bytes(&mut buf, o.as_slice());
            },
            None => {
                assert(buf@ + Seq::<u8>::empty() =~= buf@);
            },
        }
        Ok(buf)
    }

    /// Parses a whole message. Every section is decoded in order; the OPT
    /// record among the additional records becomes `edns`, and its upper
    /// RCODE bits are folded into the header's RCODE.
    pub fn parse(buf: &[u8]) -> (r: Result<Self, DnsError>)
        ensures
            match r {
                Ok(m) => spec_parse_message(buf@) == Some(m@),
                Err(e) => spec_parse_message(buf@) is None && e is Protocol,
            },
    {
        let blen = buf.len();
        let mut header = match Header::decode(buf) {
            Ok(h) => h,
            Err(e) => return Err(e),
        };
        let ghost h0 = header;
        let mut offset: usize = 12;
        let mut questions: Vec<Question> = Vec::new();
        let mut i: u16 = 0;
        while i < header.qdcount
            invariant
                blen == buf@.len(),
                blen >= 12,
                header == h0,
                h0 == spec_decode_header(buf@),
                i <= header.qdcount,
                offset <= blen,
                questions_at(buf@, 12, i as nat) == Some((questions_view(questions@), offset as int)),
            decreases header.qdcount - i,
        {
            let (q, consumed) = match Question::decode(buf, offset) {
                Ok(x) => x,
                Err(e) => {
                    proof {
                        lemma_questions_fail(buf@, i as nat, (h0.qdcount) as nat);
                    }
                    return Err(e);
                },
            };
            proof {
                assert(questions_view(questions@.push(q)) =~= questions_view(questions@).push(q@));
            }
            questions.push(q);
            offset = offset + consumed;
            i = i + 1;
        }
        let ghost o1 = offset as int;
        let answers = match Self::parse_records(buf, offset, header.ancount) {
            Ok((v, o)) => {
                offset = o;
                v
            },
            Err(e) => return Err(e),
        };
        let ghost o2 = offset as int;
        let authority = match Self::parse_records(buf, offset, header.nscount) {
            Ok((v, o)) => {
                offset = o;
                v
            },
            Err(e) => return Err(e),
        };
        let all_additional = match Self::parse_records(buf, offset, header.arcount) {
            Ok((v, _)) => v,
            Err(e) => return Err(e),
        };
        let mut additional: Vec<ResourceRecord> = Vec::new();
        let mut edns_info: Option<EdnsInfo> = None;
        let mut rest = all_additional;
        let ghost all = records_view(rest@);
        let ghost mut k: int = 0;
        while rest.len() > 0
            invariant
                0 <= k <= all.len(),
                records_view(rest@) == all.skip(k),
                records_view(additional@) == without_opt(all.take(k)),
                match edns_info {
                    Some(e) => opt_info(all.take(k)) == Some(e@),
                    None => opt_info(all.take(k)) is None,
                },
            decreases rest.len(),
        {
            let ghost before = rest@;
            let rr = rest.remove(0);
            proof {
                assert(records_view(rest@) =~= records_view(before).skip(1));
                assert(all.skip(k).skip(1) =~= all.skip(k + 1));
                assert(all.take(k + 1).drop_last() =~= all.take(k));
                assert(all.take(k + 1).last() == all.skip(k)[0]);
                assert(records_view(before)[0] == rr@);
            }
            match &rr.rdata {
                RData::OPT(rdata) => {
                    edns_info = Some(decode_opt_record(rr.rclass.to_u16(), rr.ttl, rdata.as_slice()));
                },
                _ => {},
            }
            if rr.rtype != RecordType::OPT {
                let ghost rv = rr@;
                proof {
                    assert(records_view(additional@.push(rr)) =~= records_view(additional@).push(rv));
                }
                additional.push(rr);
            }
            proof {
                k = k + 1;
            }
        }
        proof {
            assert(all.skip(k).len() == 0);
            assert(all.take(k) =~= all);
        }
        match &edns_info {
            Some(edns) => {
                if edns.extended_rcode != 0 {
                    let full: u16 = (edns.extended_rcode as u16) * 16 + (header.rcode.code() % 16);
                    header.rcode = Rcode::from_u16(full);
                }
            },
            None => {},
        }
        Ok(
            DnsMessage {
                header,
                questions,
                answers,
                authority,
                additional,
                edns: edns_info,
            },
        )
    }

    /// Decodes `count` records from `offset`, returning them and the offset
    /// after them.
    fn parse_records(buf: &[u8], offset: usize, count: u16) -> (r: Result<
        (Vec<ResourceRecord>, usize),
        DnsError,
    >)
        requires
            offset <= buf@.len(),
        ensures
            match r {
                Ok((v, o)) => records_at(buf@, offset as int, count as nat) == Some(
                    (records_view(v@), o as int),
                ) && o <= buf@.len(),
                Err(e) => records_at(buf@, offset as int, count as nat) is None && e is Protocol,
            },
    {
        let blen = buf.len();
        let mut records: Vec<ResourceRecord> = Vec::new();
        let mut pos: usize = offset;
        let mut i: u16 = 0;
        while i < count
            invariant
                blen == buf@.len(),
                i <= count,
                pos <= blen,
                records_at(buf@, offset as int, i as nat) == Some((records_view(records@), pos as int)),
            decreases count - i,
        {
            let (rr, consumed) = match ResourceRecord::decode(buf, pos) {
                Ok(x) => x,
                Err(e) => {
                    proof {
                        lemma_records_fail(buf@, offset as int, i as nat, count as nat);
                    }
                    return Err(e);
                },
            };
            proof {
                assert(records_view(records@.push(rr)) =~= records_view(records@).push(rr@));
            }
            records.push(rr);
            pos = pos + consumed;
            i = i + 1;
        }
        Ok((records, pos))
    }
}

/// Once a question fails to decode, every longer run of questions fails.
proof fn lemma_questions_fail(buf: Seq<u8>, i: nat, count: nat)
    requires
        i < count,
        questions_at(buf, 12, i) matches Some((_, off)) && spec_decode_question(buf, off) is None,
    ensures
        questions_at(buf, 12, count) is None,
    decreases count - i,
{
    if i + 1 < count {
        lemma_questions_stay_failed(buf, (i + 1) as nat, count);
    }
}

/// A failed run of questions stays failed when extended.
proof fn lemma_questions_stay_failed(buf: Seq<u8>, i: nat, count: nat)
    requires
        i <= count,
        questions_at(buf, 12, i) is None,
    ensures
        questions_at(buf, 12, count) is None,
    decreases count - i,
{
    if i < count {
        lemma_questions_stay_failed(buf, (i + 1) as nat, count);
    }
}

/// Once a record fails to decode, every longer run of records fails.
proof fn lemma_records_fail(buf: Seq<u8>, offset: int, i: nat, count: nat)
    requires
        i < count,
        records_at(buf, offset, i) matches Some((_, off)) && spec_decode_record(buf, off) is None,
    ensures
        records_at(buf, offset, count) is None,
    decreases count - i,
{
    if i + 1 < count {
        lemma_records_stay_failed(buf, offset, (i + 1) as nat, count);
    }
}

/// A failed run of records stays failed when extended.
proof fn lemma_records_stay_failed(buf: Seq<u8>, offset: int, i: nat, count: nat)
    requires
        i <= count,
        records_at(buf, offset, i) is None,
    ensures
        records_at(buf, offset, count) is None,
    decreases count - i,
{
    if i < count {
        lemma_records_stay_failed(buf, offset, (i + 1) as nat, count);
    }
}

/// The EDNS information that a query's OPT record reads back as: the
/// advertised payload size, extended RCODE 0, the version and DO flag, and
/// the Client Subnet and NSID that its options hold (the last of each kind).
pub open spec fn query_edns_view(o: EdnsOptions) -> EdnsInfoView {
    let (subnet, nsid) = options_found(options_view(o.options@), None, None);
    EdnsInfoView {
        udp_payload_size: o.udp_payload_size,
        extended_rcode: 0,
        version: o.version,
        dnssec_ok: o.dnssec_ok,
        subnet,
        nsid,
    }
}

/// A query header is read back whatever follows it.
proof fn lemma_query_header_read(h: Header, rest: Seq<u8>)
    requires
        h.opcode < 16,
        spec_rcode_code(h.rcode) < 16,
        is_canonical_rcode(h.rcode),
    ensures
        header_bytes(h).len() == 12,
        spec_decode_header(header_bytes(h) + rest) == h,
{
    lemma_header_roundtrip(h);
    let hb = header_bytes(h);
    let w = hb + rest;
    assert(forall|i: int| 0 <= i < 12 ==> w[i] == hb[i]);
    assert(spec_decode_header(w) == spec_decode_header(hb));
}

/// An OPT record of the root at `p0` that runs to the end of `buf` is
/// decoded as such.
#[verifier::rlimit(40)]
proof fn lemma_decode_root_opt(buf: Seq<u8>, p0: int)
    requires
        0 <= p0,
        p0 + 11 <= buf.len(),
        spec_decode_name(buf, p0) == Some((seq!['.'], 1int)),
        be16(buf[p0 + 1], buf[p0 + 2]) == 41,
        p0 + 11 + be16(buf[p0 + 9], buf[p0 + 10]) == buf.len(),
    ensures
        spec_decode_record(buf, p0) == Some(
            (
                ResourceRecordView {
                    name: seq!['.'],
                    rtype: RecordType::OPT,
                    rclass: spec_class_from_u16(be16(buf[p0 + 3], buf[p0 + 4])),
                    ttl: be32(buf[p0 + 5], buf[p0 + 6], buf[p0 + 7], buf[p0 + 8]),
                    rdata: RDataView::OPT(buf.skip(p0 + 11)),
                    raw_rdata: buf.skip(p0 + 11),
                },
                buf.len() - p0,
            ),
        ),
{
    reveal(spec_decode_record);
    assert(spec_type_from_u16(41) == RecordType::OPT);
    let rs = p0 + 11;
    let len = buf.len() - rs;
    assert(buf.subrange(rs, rs + len) =~= buf.skip(rs));
    assert(spec_parse_rdata(buf, rs, len, RecordType::OPT) == Some(RDataView::OPT(buf.skip(rs))));
}

/// The bytes of a query's OPT record, wherever it stands: the root name,
/// TYPE 41, CLASS the payload size, an RDLENGTH that reaches the end, the
/// option list as RDATA, and a TTL that reads back as `query_edns_view`.
proof fn lemma_query_opt_bytes(o: EdnsOptions, pre: Seq<u8>)
    requires
        options_len(options_view(o.options@)) <= 0xFFFF,
    ensures
        ({
            let w = pre + opt_record_of(o);
            let p0 = pre.len() as int;
            &&& p0 + 11 <= w.len()
            &&& spec_decode_name(w, p0) == Some((seq!['.'], 1int))
            &&& be16(w[p0 + 1], w[p0 + 2]) == 41
            &&& p0 + 11 + be16(w[p0 + 9], w[p0 + 10]) == w.len()
            &&& be16(w[p0 + 3], w[p0 + 4]) == o.udp_payload_size
            &&& w.skip(p0 + 11) == options_wire(options_view(o.options@))
            &&& spec_decode_opt(
                o.udp_payload_size,
                be32(w[p0 + 5], w[p0 + 6], w[p0 + 7], w[p0 + 8]),
                w.skip(p0 + 11),
            ) == query_edns_view(o)
        }),
{
    let os = options_view(o.options@);
    let r = opt_record_of(o);
    lemma_opt_record_roundtrip(o.udp_payload_size, o.version, o.dnssec_ok, os);
    lemma_options_roundtrip(os);
    let w = pre + r;
    let p0 = pre.len() as int;
    assert(labels_wire(Seq::<Seq<u8>>::empty()) =~= Seq::<u8>::empty());
    assert(w =~= pre + labels_wire(Seq::<Seq<u8>>::empty()).push(0u8) + r.skip(1));
    lemma_name_wire_roundtrip(Seq::empty(), pre, r.skip(1));
    assert(forall|k: int| 0 <= k < r.len() ==> w[p0 + k] == r[k]);
    lemma_u16_bytes_roundtrip(41);
    lemma_u16_bytes_roundtrip(o.udp_payload_size);
    assert(w.skip(p0 + 11) =~= r.skip(11));
}

/// A query's OPT record, wherever it stands, is read as one OPT record
/// whose EDNS information is `query_edns_view`, and it ends the buffer.
proof fn lemma_query_opt_read(o: EdnsOptions, pre: Seq<u8>)
    requires
        options_len(options_view(o.options@)) <= 0xFFFF,
    ensures
        ({
            let w = pre + opt_record_of(o);
            &&& records_at(w, pre.len() as int, 1) matches Some((rs, end))
            &&& end == w.len()
            &&& rs.len() == 1
            &&& opt_info(rs) == Some(query_edns_view(o))
            &&& without_opt(rs) == Seq::<ResourceRecordView>::empty()
        }),
{
    let w = pre + opt_record_of(o);
    let p0 = pre.len() as int;
    lemma_query_opt_bytes(o, pre);
    lemma_decode_root_opt(w, p0);
    let rclass = spec_class_from_u16(be16(w[p0 + 3], w[p0 + 4]));
    let ttl = be32(w[p0 + 5], w[p0 + 6], w[p0 + 7], w[p0 + 8]);
    let d = w.skip(p0 + 11);
    let rv = ResourceRecordView {
        name: seq!['.'],
        rtype: RecordType::OPT,
        rclass,
        ttl,
        rdata: RDataView::OPT(d),
        raw_rdata: d,
    };
    assert(records_at(w, p0, 0) == Some((Seq::<ResourceRecordView>::empty(), p0)));
    assert(Seq::<ResourceRecordView>::empty().push(rv) =~= seq![rv]);
    assert(records_at(w, p0, 1) == Some((seq![rv], w.len() as int)));
    lemma_class_roundtrip(o.udp_payload_size, RecordClass::IN);
    assert(spec_class_to_u16(rclass) == o.udp_payload_size);
    assert(seq![rv].drop_last() =~= Seq::<ResourceRecordView>::empty());
    assert(opt_info(seq![rv]) == Some(spec_decode_opt(o.udp_payload_size, ttl, d)));
    assert(opt_info(seq![rv]) == Some(query_edns_view(o)));
    assert(seq![rv].last() == rv);
    assert(without_opt(seq![rv]) == without_opt(Seq::<ResourceRecordView>::empty()));
    assert(without_opt(seq![rv]) =~= Seq::<ResourceRecordView>::empty());
}

/// Parsing a query as it was built gives back its header (the ID, RD and
/// CD as asked, one question, one additional record with EDNS), its one
/// question as `lemma_question_roundtrip` reads it, no records, and with
/// EDNS the information of `query_edns_view`, when the option list fits its
/// 16-bit length field.
pub proof fn lemma_query_roundtrip(
    id: u16,
    name: Seq<char>,
    qtype: RecordType,
    qclass: RecordClass,
    rd: bool,
    cd: bool,
    edns_opts: Option<&EdnsOptions>,
)
    requires
        spec_query(id, name, qtype, qclass, rd, cd, edns_opts) is Some,
        match edns_opts {
            Some(o) => options_len(options_view(o.options@)) <= 0xFFFF,
            None => true,
        },
    ensures
        spec_parse_message(spec_query(id, name, qtype, qclass, rd, cd, edns_opts)->0) == Some(
            MessageView {
                header: query_header(id, rd, cd, edns_opts is Some),
                questions: seq![
                    QuestionView {
                        name: spec_name_text(name),
                        qtype: spec_type_from_u16(spec_type_to_u16(qtype)),
                        qclass: spec_class_from_u16(spec_class_to_u16(qclass)),
                    },
                ],
                answers: Seq::empty(),
                authority: Seq::empty(),
                additional: Seq::empty(),
                edns: match edns_opts {
                    Some(o) => Some(query_edns_view(*o)),
                    None => None,
                },
            },
        ),
{
    let h = query_header(id, rd, cd, edns_opts is Some);
    let q = spec_encode_question(encode_utf8(name), qtype, qclass)->0;
    let ob = match edns_opts {
        Some(o) => opt_record_of(*o),
        None => Seq::<u8>::empty(),
    };
    let hb = header_bytes(h);
    let w = hb + q + ob;
    assert(spec_query(id, name, qtype, qclass, rd, cd, edns_opts)->0 == w);
    assert(w =~= hb + (q + ob));
    lemma_query_header_read(h, q + ob);
    lemma_question_roundtrip(name, qtype, qclass, hb, ob);
    let qv = QuestionView {
        name: spec_name_text(name),
        qtype: spec_type_from_u16(spec_type_to_u16(qtype)),
        qclass: spec_class_from_u16(spec_class_to_u16(qclass)),
    };
    assert(questions_at(w, 12, 0) == Some((Seq::<QuestionView>::empty(), 12int)));
    assert(Seq::<QuestionView>::empty().push(qv) =~= seq![qv]);
    let o1 = (12 + q.len()) as int;
    assert(questions_at(w, 12, 1) == Some((seq![qv], o1)));
    assert(records_at(w, o1, 0) == Some((Seq::<ResourceRecordView>::empty(), o1)));
    match edns_opts {
        Some(o) => {
            assert(w =~= (hb + q) + opt_record_of(*o));
            lemma_query_opt_read(*o, hb + q);
        },
        None => {},
    }
}

} // verus!
