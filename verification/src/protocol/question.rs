//! The question section entry: name, type and class.
use vstd::prelude::*;
use vstd::utf8::encode_utf8;
use crate::error::{DnsError, protocol_error};
use crate::protocol::name::{decode_name, encode_name, spec_encode_name, spec_decode_name, lemma_decoded_span, spec_name_text, lemma_name_text_roundtrip};
use crate::protocol::header::lemma_u16_bytes_roundtrip;
use crate::protocol::types::{RecordClass, RecordType, spec_type_from_u16, spec_class_from_u16, spec_type_to_u16, spec_class_to_u16, is_canonical_type, is_canonical_class, lemma_type_value_roundtrip, lemma_class_roundtrip};
use crate::protocol::wire::{be16, u16_bytes, read_u16, push_u16, extend_bytes};

verus! {

/// A question: the name asked about, its type and its class.
#[derive(Debug, Clone)]
pub struct Question {
    pub name: String,
    pub qtype: RecordType,
    pub qclass: RecordClass,
}

/// The abstract content of a question.
pub ghost struct QuestionView {
    pub name: Seq<char>,
    pub qtype: RecordType,
    pub qclass: RecordClass,
}

impl View for Question {
    type V = QuestionView;

    open spec fn view(&self) -> QuestionView {
        QuestionView { name: self.name@, qtype: self.qtype, qclass: self.qclass }
    }
}

/// The wire form of a question whose name is given as UTF-8 bytes.
pub open spec fn spec_encode_question(name: Seq<u8>, qtype: RecordType, qclass: RecordClass) -> Option<Seq<u8>> {
    match spec_encode_name(name) {
        Some(w) => Some(w + u16_bytes(spec_type_to_u16(qtype)) + u16_bytes(spec_class_to_u16(qclass))),
        None => None,
    }
}

/// The question at `offset` and the bytes it occupies, if well-formed.
pub open spec fn spec_decode_question(buf: Seq<u8>, offset: int) -> Option<(QuestionView, int)> {
    match spec_decode_name(buf, offset) {
        Some((name, n)) => {
            let pos = offset + n;
            if pos + 4 > buf.len() {
                None
            } else {
                Some((QuestionView {
                    name,
                    qtype: spec_type_from_u16(be16(buf[pos], buf[pos + 1])),
                    qclass: spec_class_from_u16(be16(buf[pos + 2], buf[pos + 3])),
                }, n + 4))
            }
        },
        None => None,
    }
}

impl Question {
    /// A question of class IN.
    pub fn new(name: &str, qtype: RecordType) -> (r: Self)
        ensures
            r@ == (QuestionView { name: name@, qtype, qclass: RecordClass::IN }),
    {
        Self::new_with_class(name, qtype, RecordClass::IN)
    }

    /// A question of the given class.
    pub fn new_with_class(name: &str, qtype: RecordType, qclass: RecordClass) -> (r: Self)
        ensures
            r@ == (QuestionView { name: name@, qtype, qclass }),
    {
        Question { name: name.to_owned(), qtype, qclass }
    }

    /// The wire form: the uncompressed name, then type and class.
    pub fn encode(&self) -> (r: Result<Vec<u8>, DnsError>)
        ensures
            match r {
                Ok(v) => spec_encode_question(encode_utf8(self.name@), self.qtype, self.qclass)
                    == Some(v@),
                Err(e) => spec_encode_question(encode_utf8(self.name@), self.qtype, self.qclass) is None
                    && e is Protocol,
            },
    {
        let mut buf = encode_name(self.name.as_str())?;
        push_u16(&mut buf, self.qtype.to_u16());
        push_u16(&mut buf, self.qclass.to_u16());
        Ok(buf)
    }

    /// Decodes the question at `offset`, returning it and the bytes it
    /// occupies.
    pub fn decode(buf: &[u8], offset: usize) -> (r: Result<(Self, usize), DnsError>)
        ensures
            match r {
                Ok((q, n)) => spec_decode_question(buf@, offset as int) == Some((q@, n as int)),
                Err(e) => spec_decode_question(buf@, offset as int) is None && e is Protocol,
            },
    {
        let (name, name_len) = match decode_name(buf, offset) {
            Ok(x) => x,
            Err(e) => return Err(e),
        };
        proof {
            assert(spec_decode_name(buf@, offset as int) == Some((name@, name_len as int)));
            lemma_decoded_span(buf@, offset as int);
            assert(name_len <= buf@.len() - offset);
            assert(buf@.len() == buf.len());
        }
        let pos = offset + name_len;
        if buf.len() - pos < 4 {
            return Err(protocol_error("truncated question section"));
        }
        let qtype = RecordType::from_u16(read_u16(buf, pos));
        let qclass = RecordClass::from_u16(read_u16(buf, pos + 2));
        Ok((Question { name, qtype, qclass }, name_len + 4))
    }
}

/// Decoding an encoded question, wherever it stands in a buffer, gives
/// back its name as it reads once encoded (without trailing dots, with one
/// final dot), its type and class as their wire numbers give them, which is
/// the same type and class for every one that decoding can produce, and the
/// length of the encoding.
pub proof fn lemma_question_roundtrip(
    name: Seq<char>,
    qtype: RecordType,
    qclass: RecordClass,
    pre: Seq<u8>,
    rest: Seq<u8>,
)
    requires
        spec_encode_question(encode_utf8(name), qtype, qclass) is Some,
    ensures
        spec_decode_question(
            pre + spec_encode_question(encode_utf8(name), qtype, qclass)->0 + rest,
            pre.len() as int,
        ) == Some(
            (
                QuestionView {
                    name: spec_name_text(name),
                    qtype: spec_type_from_u16(spec_type_to_u16(qtype)),
                    qclass: spec_class_from_u16(spec_class_to_u16(qclass)),
                },
                spec_encode_question(encode_utf8(name), qtype, qclass)->0.len() as int,
            ),
        ),
        is_canonical_type(qtype) ==> spec_type_from_u16(spec_type_to_u16(qtype)) == qtype,
        is_canonical_class(qclass) ==> spec_class_from_u16(spec_class_to_u16(qclass)) == qclass,
{
    let nw = spec_encode_name(encode_utf8(name))->0;
    let tail = u16_bytes(spec_type_to_u16(qtype)) + u16_bytes(spec_class_to_u16(qclass));
    let q = spec_encode_question(encode_utf8(name), qtype, qclass)->0;
    let w = pre + q + rest;
    assert(q =~= nw + tail);
    assert(w =~= pre + nw + (tail + rest));
    lemma_name_text_roundtrip(name, pre, tail + rest);
    lemma_u16_bytes_roundtrip(spec_type_to_u16(qtype));
    lemma_u16_bytes_roundtrip(spec_class_to_u16(qclass));
    let at = (pre.len() + nw.len()) as int;
    assert(w[at] == tail[0]);
    assert(w[at + 1] == tail[1]);
    assert(w[at + 2] == tail[2]);
    assert(w[at + 3] == tail[3]);
    if is_canonical_type(qtype) {
        lemma_type_value_roundtrip(qtype);
    }
    if is_canonical_class(qclass) {
        lemma_class_roundtrip(0, qclass);
    }
}

/// An encoded question cut short by one to four bytes, so that its type and
/// class are incomplete, fails to decode.
pub proof fn lemma_question_truncated(name: Seq<char>, qtype: RecordType, qclass: RecordClass, k: int)
    requires
        spec_encode_question(encode_utf8(name), qtype, qclass) is Some,
        1 <= k <= 4,
    ensures
        ({
            let q = spec_encode_question(encode_utf8(name), qtype, qclass)->0;
            spec_decode_question(q.take(q.len() - k), 0) is None
        }),
{
    let nw = spec_encode_name(encode_utf8(name))->0;
    let tail = u16_bytes(spec_type_to_u16(qtype)) + u16_bytes(spec_class_to_u16(qclass));
    let q = spec_encode_question(encode_utf8(name), qtype, qclass)->0;
    let rest = tail.take(4 - k);
    assert(q.take(q.len() - k) =~= Seq::<u8>::empty() + nw + rest);
    lemma_name_text_roundtrip(name, Seq::empty(), rest);
}

} // verus!
