//! The fixed 12-byte message header (RFC 1035 §4.1.1, RFC 4035 AD/CD bits).
use vstd::prelude::*;
use crate::error::{DnsError, protocol_error};
use crate::protocol::types::{Rcode, spec_rcode_from_u16, spec_rcode_code, is_canonical_rcode, lemma_rcode_roundtrip};
use crate::protocol::wire::{be16, u16_bytes, read_u16, push_u16};

verus! {

/// A message header.
#[derive(Debug, Clone, Copy, PartialEq, Eq, Structural)]
pub struct Header {
    pub id: u16,
    /// false = query, true = response
    pub qr: bool,
    /// 4 bits
    pub opcode: u8,
    /// authoritative answer
    pub aa: bool,
    /// truncated
    pub tc: bool,
    /// recursion desired
    pub rd: bool,
    /// recursion available
    pub ra: bool,
    /// authenticated data (DNSSEC)
    pub ad: bool,
    /// checking disabled (DNSSEC)
    pub cd: bool,
    pub rcode: Rcode,
    pub qdcount: u16,
    pub ancount: u16,
    pub nscount: u16,
    pub arcount: u16,
}

/// The third header byte: QR, OPCODE (low 4 bits kept), AA, TC, RD.
pub open spec fn flags1_byte(h: Header) -> u8 {
    ((if h.qr { 0x80u8 } else { 0u8 }) | ((h.opcode & 0x0F) << 3u8) | (if h.aa { 0x04u8 } else {
        0u8
    }) | (if h.tc { 0x02u8 } else { 0u8 }) | (if h.rd { 0x01u8 } else { 0u8 })) as u8
}

/// The fourth header byte: RA, AD, CD and the low 4 bits of the RCODE.
pub open spec fn flags2_byte(h: Header) -> u8 {
    ((if h.ra { 0x80u8 } else { 0u8 }) | (if h.ad { 0x20u8 } else { 0u8 }) | (if h.cd {
        0x10u8
    } else {
        0u8
    }) | ((spec_rcode_code(h.rcode) & 0x0F) as u8)) as u8
}

/// The 12 wire bytes of a header.
pub open spec fn header_bytes(h: Header) -> Seq<u8> {
    u16_bytes(h.id) + seq![flags1_byte(h), flags2_byte(h)] + u16_bytes(h.qdcount) + u16_bytes(
        h.ancount,
    ) + u16_bytes(h.nscount) + u16_bytes(h.arcount)
}

/// The header that the first 12 bytes of `b` describe.
pub open spec fn spec_decode_header(b: Seq<u8>) -> Header {
    let f1 = b[2];
    let f2 = b[3];
    Header {
        id: be16(b[0], b[1]),
        qr: f1 & 0x80 != 0,
        opcode: (f1 >> 3u8) & 0x0F,
        aa: f1 & 0x04 != 0,
        tc: f1 & 0x02 != 0,
        rd: f1 & 0x01 != 0,
        ra: f2 & 0x80 != 0,
        ad: f2 & 0x20 != 0,
        cd: f2 & 0x10 != 0,
        rcode: spec_rcode_from_u16((f2 & 0x0F) as u16),
        qdcount: be16(b[4], b[5]),
        ancount: be16(b[6], b[7]),
        nscount: be16(b[8], b[9]),
        arcount: be16(b[10], b[11]),
    }
}

impl Header {
    /// The header of a standard query with one question.
    pub fn new_query(id: u16, rd: bool) -> (r: Self)
        ensures
            r == (Header {
                id,
                qr: false,
                opcode: 0,
                aa: false,
                tc: false,
                rd,
                ra: false,
                ad: false,
                cd: false,
                rcode: Rcode::NoError,
                qdcount: 1,
                ancount: 0,
                nscount: 0,
                arcount: 0,
            }),
    {
        Header {
            id,
            qr: false,
            opcode: 0,
            aa: false,
            tc: false,
            rd,
            ra: false,
            ad: false,
            cd: false,
            rcode: Rcode::NoError,
            qdcount: 1,
            ancount: 0,
            nscount: 0,
            arcount: 0,
        }
    }

    /// The 12-byte wire form.
    pub fn encode(&self) -> (r: Vec<u8>)
        ensures
            r@ == header_bytes(*self),
    {
        let mut buf: Vec<u8> = Vec::with_capacity(12);
        push_u16(&mut buf, self.id);
        let flags1: u8 = (if self.qr { 0x80u8 } else { 0u8 }) | ((self.opcode & 0x0F) << 3u8) | (
        if self.aa {
            0x04u8
        } else {
            0u8
        }) | (if self.tc { 0x02u8 } else { 0u8 }) | (if self.rd { 0x01u8 } else { 0u8 });
        buf.push(flags1);
        let flags2: u8 = (if self.ra { 0x80u8 } else { 0u8 }) | (if self.ad { 0x20u8 } else {
            0u8
        }) | (if self.cd { 0x10u8 } else { 0u8 }) | ((self.rcode.code() & 0x0F) as u8);
        buf.push(flags2);
        push_u16(&mut buf, self.qdcount);
        push_u16(&mut buf, self.ancount);
        push_u16(&mut buf, self.nscount);
        push_u16(&mut buf, self.arcount);
        assert(buf@ =~= header_bytes(*self));
        buf
    }

    /// Decodes the header at the start of a message; a buffer shorter than
    /// 12 bytes is a protocol error.
    pub fn decode(buf: &[u8]) -> (r: Result<Self, DnsError>)
        ensures
            match r {
                Ok(h) => buf@.len() >= 12 && h == spec_decode_header(buf@),
                Err(e) => buf@.len() < 12 && e is Protocol,
            },
    {
        if buf.len() < 12 {
            return Err(protocol_error("message too short for header"));
        }
        let id = read_u16(buf, 0);
        let flags1 = buf[2];
        let flags2 = buf[3];
        assert((flags2 & 0x0F) & 0x0F == flags2 & 0x0F) by (bit_vector);
        Ok(Header {
            id,
            qr: flags1 & 0x80 != 0,
            opcode: (flags1 >> 3u8) & 0x0F,
            aa: flags1 & 0x04 != 0,
            tc: flags1 & 0x02 != 0,
            rd: flags1 & 0x01 != 0,
            ra: flags2 & 0x80 != 0,
            ad: flags2 & 0x20 != 0,
            cd: flags2 & 0x10 != 0,
            rcode: Rcode::from_u8(flags2 & 0x0F),
            qdcount: read_u16(buf, 4),
            ancount: read_u16(buf, 6),
            nscount: read_u16(buf, 8),
            arcount: read_u16(buf, 10),
        })
    }
}

/// The big-endian bytes of a 16-bit value read back give the value.
pub proof fn lemma_u16_bytes_roundtrip(v: u16)
    ensures
        be16(u16_bytes(v)[0], u16_bytes(v)[1]) == v,
{
}

/// Decoding an encoded header gives the header back, for every header whose
/// opcode fits in 4 bits and whose response code fits the header's 4-bit
/// field (larger codes need the EDNS extension).
pub proof fn lemma_header_roundtrip(h: Header)
    requires
        h.opcode < 16,
        spec_rcode_code(h.rcode) < 16,
        is_canonical_rcode(h.rcode),
    ensures
        header_bytes(h).len() == 12,
        spec_decode_header(header_bytes(h)) == h,
{
    let b = header_bytes(h);
    lemma_u16_bytes_roundtrip(h.id);
    lemma_u16_bytes_roundtrip(h.qdcount);
    lemma_u16_bytes_roundtrip(h.ancount);
    lemma_u16_bytes_roundtrip(h.nscount);
    lemma_u16_bytes_roundtrip(h.arcount);
    let f1 = flags1_byte(h);
    let f2 = flags2_byte(h);
    let qr = h.qr;
    let aa = h.aa;
    let tc = h.tc;
    let rd = h.rd;
    let op = h.opcode;
    assert(op < 16 ==> {
        let f = ((if qr { 0x80u8 } else { 0u8 }) | ((op & 0x0F) << 3u8) | (if aa { 0x04u8 } else {
            0u8
        }) | (if tc { 0x02u8 } else { 0u8 }) | (if rd { 0x01u8 } else { 0u8 }));
        &&& (f & 0x80 != 0) == qr
        &&& ((f >> 3u8) & 0x0F) == op
        &&& (f & 0x04 != 0) == aa
        &&& (f & 0x02 != 0) == tc
        &&& (f & 0x01 != 0) == rd
    }) by (bit_vector);
    let ra = h.ra;
    let ad = h.ad;
    let cd = h.cd;
    let rc = spec_rcode_code(h.rcode);
    assert(rc < 16 ==> {
        let f = ((if ra { 0x80u8 } else { 0u8 }) | (if ad { 0x20u8 } else { 0u8 }) | (if cd {
            0x10u8
        } else {
            0u8
        }) | ((rc & 0x0F) as u8));
        &&& (f & 0x80 != 0) == ra
        &&& (f & 0x20 != 0) == ad
        &&& (f & 0x10 != 0) == cd
        &&& ((f & 0x0F) as u16) == rc
    }) by (bit_vector);
    assert(b[2] == f1);
    assert(b[3] == f2);
}

/// Where each header field stands on the wire (RFC 1035 §4.1.1, RFC 4035
/// §3.2): decoding reads the ID from bytes 0-1; QR, OPCODE, AA, TC and RD
/// from byte 2 (bits 0x80, 0x78, 0x04, 0x02, 0x01); RA, AD, CD and the RCODE
/// from byte 3 (bits 0x80, 0x20, 0x10, 0x0F); and the four counts from
/// bytes 4-11, most significant byte first.
pub proof fn lemma_header_wire_fields(b: Seq<u8>)
    requires
        b.len() >= 12,
    ensures
        spec_decode_header(b).id == b[0] as int * 256 + b[1] as int,
        spec_decode_header(b).qr == (b[2] & 0x80u8 != 0),
        spec_decode_header(b).opcode == (b[2] >> 3u8) & 0x0Fu8,
        spec_decode_header(b).aa == (b[2] & 0x04u8 != 0),
        spec_decode_header(b).tc == (b[2] & 0x02u8 != 0),
        spec_decode_header(b).rd == (b[2] & 0x01u8 != 0),
        spec_decode_header(b).ra == (b[3] & 0x80u8 != 0),
        spec_decode_header(b).ad == (b[3] & 0x20u8 != 0),
        spec_decode_header(b).cd == (b[3] & 0x10u8 != 0),
        spec_rcode_code(spec_decode_header(b).rcode) == (b[3] & 0x0Fu8) as u16,
        spec_decode_header(b).qdcount == b[4] as int * 256 + b[5] as int,
        spec_decode_header(b).ancount == b[6] as int * 256 + b[7] as int,
        spec_decode_header(b).nscount == b[8] as int * 256 + b[9] as int,
        spec_decode_header(b).arcount == b[10] as int * 256 + b[11] as int,
{
    lemma_rcode_roundtrip((b[3] & 0x0Fu8) as u16, Rcode::NoError);
}

/// Encoding puts each flag at its wire bit: QR, AA, TC, RD at 0x80, 0x04,
/// 0x02, 0x01 of byte 2 and the opcode in its bits 0x78; RA, AD, CD at 0x80,
/// 0x20, 0x10 of byte 3 and the low four RCODE bits in its bits 0x0F.
pub proof fn lemma_header_bytes_fields(h: Header)
    requires
        h.opcode < 16,
    ensures
        header_bytes(h).len() == 12,
        header_bytes(h)[0] as int * 256 + header_bytes(h)[1] as int == h.id,
        (header_bytes(h)[2] & 0x80u8 != 0) == h.qr,
        (header_bytes(h)[2] >> 3u8) & 0x0Fu8 == h.opcode,
        (header_bytes(h)[2] & 0x04u8 != 0) == h.aa,
        (header_bytes(h)[2] & 0x02u8 != 0) == h.tc,
        (header_bytes(h)[2] & 0x01u8 != 0) == h.rd,
        (header_bytes(h)[3] & 0x80u8 != 0) == h.ra,
        (header_bytes(h)[3] & 0x20u8 != 0) == h.ad,
        (header_bytes(h)[3] & 0x10u8 != 0) == h.cd,
        (header_bytes(h)[3] & 0x0Fu8) as u16 == spec_rcode_code(h.rcode) % 16,
{
    lemma_u16_bytes_roundtrip(h.id);
    let qr = h.qr;
    let aa = h.aa;
    let tc = h.tc;
    let rd = h.rd;
    let op = h.opcode;
    assert(op < 16 ==> {
        let f = ((if qr { 0x80u8 } else { 0u8 }) | ((op & 0x0F) << 3u8) | (if aa { 0x04u8 } else {
            0u8
        }) | (if tc { 0x02u8 } else { 0u8 }) | (if rd { 0x01u8 } else { 0u8 }));
        &&& (f & 0x80 != 0) == qr
        &&& ((f >> 3u8) & 0x0F) == op
        &&& (f & 0x04 != 0) == aa
        &&& (f & 0x02 != 0) == tc
        &&& (f & 0x01 != 0) == rd
    }) by (bit_vector);
    let ra = h.ra;
    let ad = h.ad;
    let cd = h.cd;
    let rc = spec_rcode_code(h.rcode);
    assert({
        let f = ((if ra { 0x80u8 } else { 0u8 }) | (if ad { 0x20u8 } else { 0u8 }) | (if cd {
            0x10u8
        } else {
            0u8
        }) | ((rc & 0x0F) as u8));
        &&& (f & 0x80 != 0) == ra
        &&& (f & 0x20 != 0) == ad
        &&& (f & 0x10 != 0) == cd
        &&& ((f & 0x0F) as u16) == rc % 16
    }) by (bit_vector);
    assert(header_bytes(h)[2] == flags1_byte(h));
    assert(header_bytes(h)[3] == flags2_byte(h));
}

} // verus!
