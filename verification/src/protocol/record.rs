//! Resource records and their RDATA: the typed payloads of each supported
//! record type, and decoding them from a message.
use vstd::prelude::*;
use crate::error::{DnsError, protocol_error};
use crate::protocol::addr::{Ipv4Addr, Ipv6Addr};
use crate::protocol::name::{decode_name, spec_decode_name, lemma_decoded_span};
use crate::protocol::types::{RecordClass, RecordType, spec_type_from_u16, spec_class_from_u16};
use crate::protocol::wire::{be16, be32, read_u16, read_u32, copy_range, prepend_some, lemma_prepend_push};
use crate::text::{utf8_lossy, lossy_string, strings_view};

verus! {

/// One SVCB/HTTPS service parameter (RFC 9460): a key and its raw value.
#[derive(Debug, Clone)]
pub struct SvcParam {
    pub key: u16,
    pub value: Vec<u8>,
}

/// The abstract content of a service parameter.
pub ghost struct SvcParamView {
    pub key: u16,
    pub value: Seq<u8>,
}

impl View for SvcParam {
    type V = SvcParamView;

    open spec fn view(&self) -> SvcParamView {
        SvcParamView { key: self.key, value: self.value@ }
    }
}

/// The typed RDATA of a record.
#[derive(Debug, Clone)]
pub enum RData {
    A(Ipv4Addr),
    AAAA(Ipv6Addr),
    NS(String),
    CNAME(String),
    PTR(String),
    MX { preference: u16, exchange: String },
    TXT(Vec<String>),
    SOA {
        mname: String,
        rname: String,
        serial: u32,
        refresh: u32,
        retry: u32,
        expire: u32,
        minimum: u32,
    },
    SRV { priority: u16, weight: u16, port: u16, target: String },
    CAA { flags: u8, tag: String, value: String },
    DS { key_tag: u16, algorithm: u8, digest_type: u8, digest: Vec<u8> },
    RRSIG {
        type_covered: RecordType,
        algorithm: u8,
        labels: u8,
        original_ttl: u32,
        expiration: u32,
        inception: u32,
        key_tag: u16,
        signer: String,
        signature: Vec<u8>,
    },
    DNSKEY { flags: u16, protocol: u8, algorithm: u8, public_key: Vec<u8> },
    NSEC { next_domain: String, type_bitmaps: Vec<RecordType> },
    NSEC3 {
        algorithm: u8,
        flags: u8,
        iterations: u16,
        salt: Vec<u8>,
        next_hashed: Vec<u8>,
        type_bitmaps: Vec<RecordType>,
    },
    NSEC3PARAM { algorithm: u8, flags: u8, iterations: u16, salt: Vec<u8> },
    SVCB { priority: u16, target: String, params: Vec<SvcParam> },
    HTTPS { priority: u16, target: String, params: Vec<SvcParam> },
    OPT(Vec<u8>),
    Unknown(Vec<u8>),
}

/// The abstract content of RDATA: addresses as octet sequences, names and
/// strings as character sequences.
pub ghost enum RDataView {
    A(Seq<u8>),
    AAAA(Seq<u8>),
    NS(Seq<char>),
    CNAME(Seq<char>),
    PTR(Seq<char>),
    MX { preference: u16, exchange: Seq<char> },
    TXT(Seq<Seq<char>>),
    SOA {
        mname: Seq<char>,
        rname: Seq<char>,
        serial: u32,
        refresh: u32,
        retry: u32,
        expire: u32,
        minimum: u32,
    },
    SRV { priority: u16, weight: u16, port: u16, target: Seq<char> },
    CAA { flags: u8, tag: Seq<char>, value: Seq<char> },
    DS { key_tag: u16, algorithm: u8, digest_type: u8, digest: Seq<u8> },
    RRSIG {
        type_covered: RecordType,
        algorithm: u8,
        labels: u8,
        original_ttl: u32,
        expiration: u32,
        inception: u32,
        key_tag: u16,
        signer: Seq<char>,
        signature: Seq<u8>,
    },
    DNSKEY { flags: u16, protocol: u8, algorithm: u8, public_key: Seq<u8> },
    NSEC { next_domain: Seq<char>, type_bitmaps: Seq<RecordType> },
    NSEC3 {
        algorithm: u8,
        flags: u8,
        iterations: u16,
        salt: Seq<u8>,
        next_hashed: Seq<u8>,
        type_bitmaps: Seq<RecordType>,
    },
    NSEC3PARAM { algorithm: u8, flags: u8, iterations: u16, salt: Seq<u8> },
    SVCB { priority: u16, target: Seq<char>, params: Seq<SvcParamView> },
    HTTPS { priority: u16, target: Seq<char>, params: Seq<SvcParamView> },
    OPT(Seq<u8>),
    Unknown(Seq<u8>),
}

/// The views of a list of service parameters.
pub open spec fn params_view(v: Seq<SvcParam>) -> Seq<SvcParamView> {
    v.map_values(|p: SvcParam| p@)
}

impl View for RData {
    type V = RDataView;

    open spec fn view(&self) -> RDataView {
        match self {
            RData::A(a) => RDataView::A(a.octets@),
            RData::AAAA(a) => RDataView::AAAA(a.octets@),
            RData::NS(n) => RDataView::NS(n@),
            RData::CNAME(n) => RDataView::CNAME(n@),
            RData::PTR(n) => RDataView::PTR(n@),
            RData::MX { preference, exchange } => RDataView::MX {
                preference: *preference,
                exchange: exchange@,
            },
            RData::TXT(v) => RDataView::TXT(strings_view(v@)),
            RData::SOA { mname, rname, serial, refresh, retry, expire, minimum } => RDataView::SOA {
                mname: mname@,
                rname: rname@,
                serial: *serial,
                refresh: *refresh,
                retry: *retry,
                expire: *expire,
                minimum: *minimum,
            },
            RData::SRV { priority, weight, port, target } => RDataView::SRV {
                priority: *priority,
                weight: *weight,
                port: *port,
                target: target@,
            },
            RData::CAA { flags, tag, value } => RDataView::CAA {
                flags: *flags,
                tag: tag@,
                value: value@,
            },
            RData::DS { key_tag, algorithm, digest_type, digest } => RDataView::DS {
                key_tag: *key_tag,
                algorithm: *algorithm,
                digest_type: *digest_type,
                digest: digest@,
            },
            RData::RRSIG {
                type_covered,
                algorithm,
                labels,
                original_ttl,
                expiration,
                inception,
                key_tag,
                signer,
                signature,
            } => RDataView::RRSIG {
                type_covered: *type_covered,
                algorithm: *algorithm,
                labels: *labels,
                original_ttl: *original_ttl,
                expiration: *expiration,
                inception: *inception,
                key_tag: *key_tag,
                signer: signer@,
                signature: signature@,
            },
            RData::DNSKEY { flags, protocol, algorithm, public_key } => RDataView::DNSKEY {
                flags: *flags,
                protocol: *protocol,
                algorithm: *algorithm,
                public_key: public_key@,
            },
            RData::NSEC { next_domain, type_bitmaps } => RDataView::NSEC {
                next_domain: next_domain@,
                type_bitmaps: type_bitmaps@,
            },
            RData::NSEC3 { algorithm, flags, iterations, salt, next_hashed, type_bitmaps } =>
                RDataView::NSEC3 {
                algorithm: *algorithm,
                flags: *flags,
                iterations: *iterations,
                salt: salt@,
                next_hashed: next_hashed@,
                type_bitmaps: type_bitmaps@,
            },
            RData::NSEC3PARAM { algorithm, flags, iterations, salt } => RDataView::NSEC3PARAM {
                algorithm: *algorithm,
                flags: *flags,
                iterations: *iterations,
                salt: salt@,
            },
            RData::SVCB { priority, target, params } => RDataView::SVCB {
                priority: *priority,
                target: target@,
                params: params_view(params@),
            },
            RData::HTTPS { priority, target, params } => RDataView::HTTPS {
                priority: *priority,
                target: target@,
                params: params_view(params@),
            },
            RData::OPT(v) => RDataView::OPT(v@),
            RData::Unknown(v) => RDataView::Unknown(v@),
        }
    }
}

impl RData {
    /// Types whose RDATA centres on a domain name.
    pub fn is_name(&self) -> (r: bool)
        ensures
            r == (self is NS || self is CNAME || self is PTR || self is MX || self is SRV
                || self is SVCB || self is HTTPS),
    {
        matches!(
            self,
            RData::NS(_) | RData::CNAME(_) | RData::PTR(_) | RData::MX { .. } | RData::SRV { .. }
                | RData::SVCB { .. } | RData::HTTPS { .. }
        )
    }

    /// Types whose RDATA is shown as text.
    pub fn is_text(&self) -> (r: bool)
        ensures
            r == (self is TXT || self is SOA || self is Unknown),
    {
        matches!(self, RData::TXT(_) | RData::SOA { .. } | RData::Unknown(_))
    }

    /// DNSSEC record types.
    pub fn is_dnssec(&self) -> (r: bool)
        ensures
            r == (self is RRSIG || self is DNSKEY || self is DS || self is NSEC || self is NSEC3
                || self is NSEC3PARAM),
    {
        matches!(
            self,
            RData::RRSIG { .. } | RData::DNSKEY { .. } | RData::DS { .. } | RData::NSEC { .. }
                | RData::NSEC3 { .. } | RData::NSEC3PARAM { .. }
        )
    }
}

/// The types flagged by the first `n` bits (most significant first) of the
/// bitmap byte at index `i` of window `window` (RFC 4034 §4.1.2).
pub open spec fn bit_types(window: int, i: int, byte: u8, n: int) -> Seq<RecordType>
    decreases n,
{
    if n <= 0 {
        Seq::empty()
    } else {
        bit_types(window, i, byte, n - 1) + (if byte & (0x80u8 >> ((n - 1) as u32)) != 0 {
            seq![spec_type_from_u16((window * 256 + i * 8 + n - 1) as u16)]
        } else {
            Seq::empty()
        })
    }
}

/// The types flagged by the first `n` bytes of a window's bitmap.
pub open spec fn window_types(window: int, bytes: Seq<u8>, n: int) -> Seq<RecordType>
    decreases n,
{
    if n <= 0 {
        Seq::empty()
    } else {
        window_types(window, bytes, n - 1) + bit_types(window, n - 1, bytes[n - 1], 8)
    }
}

/// The types of the window blocks in `buf[pos..end]`: each block is a window
/// number, a bitmap length and the bitmap, of which at most 32 bytes count;
/// a block that runs past `end` ends the list.
pub open spec fn block_types(buf: Seq<u8>, pos: int, end: int) -> Seq<RecordType>
    decreases end - pos,
{
    if pos + 2 > end {
        Seq::empty()
    } else {
        let w = buf[pos] as int;
        let bl = buf[pos + 1] as int;
        if pos + 2 + bl > end {
            Seq::empty()
        } else {
            window_types(w, buf.subrange(pos + 2, pos + 2 + bl), if bl < 32 { bl } else { 32 })
                + block_types(buf, pos + 2 + bl, end)
        }
    }
}

/// Decodes the NSEC/NSEC3 type bitmaps in `buf[offset..offset + length]`.
pub fn parse_type_bitmaps(buf: &[u8], offset: usize, length: usize) -> (r: Vec<RecordType>)
    requires
        offset + length <= buf@.len(),
    ensures
        r@ == block_types(buf@, offset as int, offset + length),
{
    let blen = buf.len();
    let mut types: Vec<RecordType> = Vec::new();
    let mut pos: usize = offset;
    let end: usize = offset + length;
    while end - pos >= 2
        invariant
            blen == buf@.len(),
            offset <= pos <= end,
            end == offset + length,
            end <= buf@.len(),
            block_types(buf@, offset as int, end as int) == types@ + block_types(
                buf@,
                pos as int,
                end as int,
            ),
        decreases end - pos,
    {
        let window: u32 = buf[pos] as u32;
        let bitmap_len: usize = buf[pos + 1] as usize;
        if bitmap_len > end - pos - 2 {
            assert(types@ + Seq::<RecordType>::empty() =~= types@);
            pos = end;
            continue;
        }
        let ghost t0 = types@;
        let ghost bytes = buf@.subrange(pos + 2, pos + 2 + bitmap_len);
        let data_start = pos + 2;
        let limit: usize = if bitmap_len < 32 { bitmap_len } else { 32 };
        let mut i: usize = 0;
        while i < limit
            invariant
                blen == buf@.len(),
                i <= limit <= bitmap_len,
                limit <= 32,
                window < 256,
                data_start + bitmap_len <= buf@.len(),
                bytes == buf@.subrange(data_start as int, data_start + bitmap_len),
                types@ == t0 + window_types(window as int, bytes, i as int),
            decreases limit - i,
        {
            let byte = buf[data_start + i];
            assert(byte == bytes[i as int]);
            let ghost t1 = types@;
            let mut bit: u32 = 0;
            while bit < 8
                invariant
                    bit <= 8,
                    i < 32,
                    window < 256,
                    types@ == t1 + bit_types(window as int, i as int, byte, bit as int),
                decreases 8 - bit,
            {
                if byte & (0x80u8 >> bit) != 0 {
                    let type_num: u32 = window * 256 + (i as u32) * 8 + bit;
                    types.push(RecordType::from_u16(type_num as u16));
                }
                bit = bit + 1;
                assert(types@ =~= t1 + bit_types(window as int, i as int, byte, bit as int));
            }
            i = i + 1;
            assert(types@ =~= t0 + window_types(window as int, bytes, i as int));
        }
        pos = pos + 2 + bitmap_len;
        assert(types@ + block_types(buf@, pos as int, end as int) =~= t0 + (window_types(
            window as int,
            bytes,
            limit as int,
        ) + block_types(buf@, pos as int, end as int)));
    }
    assert(block_types(buf@, pos as int, end as int) =~= Seq::<RecordType>::empty());
    assert(types@ + Seq::<RecordType>::empty() =~= types@);
    types
}


/// The service parameters in `buf[pos..end]`: key, value length, value,
/// repeated while at least four bytes remain; a value running past `end` is
/// malformed (`None`).
pub open spec fn svc_params(buf: Seq<u8>, pos: int, end: int) -> Option<Seq<SvcParamView>>
    decreases end - pos,
{
    if pos + 4 > end {
        Some(Seq::empty())
    } else {
        let key = be16(buf[pos], buf[pos + 1]);
        let vl = be16(buf[pos + 2], buf[pos + 3]) as int;
        if pos + 4 + vl > end {
            None
        } else {
            match svc_params(buf, pos + 4 + vl, end) {
                Some(rest) => Some(
                    seq![SvcParamView { key, value: buf.subrange(pos + 4, pos + 4 + vl) }] + rest,
                ),
                None => None,
            }
        }
    }
}

/// SVCB/HTTPS RDATA (RFC 9460): priority, target name, parameters.
pub open spec fn spec_parse_svcb(buf: Seq<u8>, offset: int, rdlength: int) -> Option<
    (u16, Seq<char>, Seq<SvcParamView>),
> {
    if rdlength < 3 {
        None
    } else {
        match spec_decode_name(buf, offset + 2) {
            Some((target, n)) => match svc_params(buf, offset + 2 + n, offset + rdlength) {
                Some(ps) => Some((be16(buf[offset], buf[offset + 1]), target, ps)),
                None => None,
            },
            None => None,
        }
    }
}

/// Decodes SVCB/HTTPS RDATA.
fn parse_svcb_rdata(buf: &[u8], offset: usize, rdlength: usize) -> (r: Result<
    (u16, String, Vec<SvcParam>),
    DnsError,
>)
    requires
        offset + rdlength <= buf@.len(),
    ensures
        match r {
            Ok((p, t, ps)) => spec_parse_svcb(buf@, offset as int, rdlength as int) == Some(
                (p, t@, params_view(ps@)),
            ),
            Err(e) => spec_parse_svcb(buf@, offset as int, rdlength as int) is None
                && e is Protocol,
        },
{
    let blen = buf.len();
    if rdlength < 3 {
        return Err(protocol_error("invalid SVCB/HTTPS record length"));
    }
    let priority = read_u16(buf, offset);
    let (target, name_len) = match decode_name(buf, offset + 2) {
        Ok(x) => x,
        Err(e) => return Err(e),
    };
    proof {
        lemma_decoded_span(buf@, offset + 2);
    }
    let mut params: Vec<SvcParam> = Vec::new();
    let mut pos: usize = offset + 2 + name_len;
    let end: usize = offset + rdlength;
    let ghost start = pos as int;
    assert(params_view(params@) =~= Seq::<SvcParamView>::empty());
    while pos <= end && end - pos >= 4
        invariant
            blen == buf@.len(),
            pos <= buf@.len(),
            end <= buf@.len(),
            end == offset + rdlength,
            start == offset + 2 + name_len,
            spec_decode_name(buf@, offset + 2) == Some((target@, name_len as int)),
            svc_params(buf@, start, end as int) == prepend_some(
                params_view(params@),
                svc_params(buf@, pos as int, end as int),
            ),
        decreases buf@.len() - pos,
    {
        let key = read_u16(buf, pos);
        let value_len = read_u16(buf, pos + 2) as usize;
        let ghost p0 = pos as int;
        pos = pos + 4;
        if value_len > end - pos {
            assert(svc_params(buf@, p0, end as int) is None);
            return Err(protocol_error("SvcParam value extends beyond RDATA"));
        }
        let value = copy_range(buf, pos, pos + value_len);
        let p = SvcParam { key, value };
        proof {
            lemma_prepend_push(params_view(params@), p@, svc_params(buf@, (pos + value_len) as int, end as int));
            assert(params_view(params@.push(p)) =~= params_view(params@).push(p@));
        }
        params.push(p);
        pos = pos + value_len;
    }
    assert(svc_params(buf@, pos as int, end as int) == Some(Seq::<SvcParamView>::empty()));
    assert(params_view(params@) + Seq::<SvcParamView>::empty() =~= params_view(params@));
    Ok((priority, target, params))
}

/// The character strings of TXT RDATA in `buf[pos..end]`, each decoded
/// lossily as UTF-8; a string running past `end` is malformed (`None`).
pub open spec fn txt_strings(buf: Seq<u8>, pos: int, end: int) -> Option<Seq<Seq<char>>>
    decreases end - pos,
{
    if pos >= end {
        Some(Seq::empty())
    } else {
        let l = buf[pos] as int;
        if pos + 1 + l > end {
            None
        } else {
            match txt_strings(buf, pos + 1 + l, end) {
                Some(rest) => Some(seq![utf8_lossy(buf.subrange(pos + 1, pos + 1 + l))] + rest),
                None => None,
            }
        }
    }
}

/// SOA RDATA: two names, then serial, refresh, retry, expire and minimum
/// (the five counters may lie anywhere up to the end of `buf`).
pub open spec fn spec_soa(buf: Seq<u8>, offset: int) -> Option<RDataView> {
    match spec_decode_name(buf, offset) {
        Some((mname, l1)) => match spec_decode_name(buf, offset + l1) {
            Some((rname, l2)) => {
                let p = offset + l1 + l2;
                if p + 20 > buf.len() {
                    None
                } else {
                    Some(
                        RDataView::SOA {
                            mname,
                            rname,
                            serial: be32(buf[p], buf[p + 1], buf[p + 2], buf[p + 3]),
                            refresh: be32(buf[p + 4], buf[p + 5], buf[p + 6], buf[p + 7]),
                            retry: be32(buf[p + 8], buf[p + 9], buf[p + 10], buf[p + 11]),
                            expire: be32(buf[p + 12], buf[p + 13], buf[p + 14], buf[p + 15]),
                            minimum: be32(buf[p + 16], buf[p + 17], buf[p + 18], buf[p + 19]),
                        },
                    )
                }
            },
            None => None,
        },
        None => None,
    }
}

/// CAA RDATA (RFC 8659): flags, tag length, tag, value.
pub open spec fn spec_caa(buf: Seq<u8>, offset: int, rdlength: int) -> Option<RDataView> {
    if rdlength < 2 {
        None
    } else {
        let tl = buf[offset + 1] as int;
        if 2 + tl > rdlength {
            None
        } else {
            Some(
                RDataView::CAA {
                    flags: buf[offset],
                    tag: utf8_lossy(buf.subrange(offset + 2, offset + 2 + tl)),
                    value: utf8_lossy(buf.subrange(offset + 2 + tl, offset + rdlength)),
                },
            )
        }
    }
}

/// RRSIG RDATA (RFC 4034 §3.1): the fixed 18 bytes, the signer's name, and
/// the signature up to the end of the RDATA.
pub open spec fn spec_rrsig(buf: Seq<u8>, offset: int, rdlength: int) -> Option<RDataView> {
    let end = offset + rdlength;
    if rdlength < 18 {
        None
    } else {
        match spec_decode_name(buf, offset + 18) {
            Some((signer, sl)) => {
                let sig_start = offset + 18 + sl;
                Some(
                    RDataView::RRSIG {
                        type_covered: spec_type_from_u16(be16(buf[offset], buf[offset + 1])),
                        algorithm: buf[offset + 2],
                        labels: buf[offset + 3],
                        original_ttl: be32(
                            buf[offset + 4],
                            buf[offset + 5],
                            buf[offset + 6],
                            buf[offset + 7],
                        ),
                        expiration: be32(
                            buf[offset + 8],
                            buf[offset + 9],
                            buf[offset + 10],
                            buf[offset + 11],
                        ),
                        inception: be32(
                            buf[offset + 12],
                            buf[offset + 13],
                            buf[offset + 14],
                            buf[offset + 15],
                        ),
                        key_tag: be16(buf[offset + 16], buf[offset + 17]),
                        signer,
                        signature: if sig_start < end {
                            buf.subrange(sig_start, end)
                        } else {
                            Seq::empty()
                        },
                    },
                )
            },
            None => None,
        }
    }
}

/// NSEC RDATA (RFC 4034 §4.1): the next owner name and the type bitmaps
/// after it.
pub open spec fn spec_nsec(buf: Seq<u8>, offset: int, rdlength: int) -> Option<RDataView> {
    match spec_decode_name(buf, offset) {
        Some((next, nl)) => {
            let bitmap_len = if rdlength >= nl { rdlength - nl } else { 0 };
            Some(
                RDataView::NSEC {
                    next_domain: next,
                    type_bitmaps: block_types(buf, offset + nl, offset + nl + bitmap_len),
                },
            )
        },
        None => None,
    }
}

/// NSEC3 RDATA (RFC 5155 §3.2): algorithm, flags, iterations, salt, next
/// hashed owner, type bitmaps.
pub open spec fn spec_nsec3(buf: Seq<u8>, offset: int, rdlength: int) -> Option<RDataView> {
    let end = offset + rdlength;
    if rdlength < 6 {
        None
    } else {
        let salt_end = offset + 5 + buf[offset + 4] as int;
        if salt_end >= end {
            None
        } else {
            let hash_end = salt_end + 1 + buf[salt_end] as int;
            if hash_end > end {
                None
            } else {
                Some(
                    RDataView::NSEC3 {
                        algorithm: buf[offset],
                        flags: buf[offset + 1],
                        iterations: be16(buf[offset + 2], buf[offset + 3]),
                        salt: buf.subrange(offset + 5, salt_end),
                        next_hashed: buf.subrange(salt_end + 1, hash_end),
                        type_bitmaps: block_types(buf, hash_end, end),
                    },
                )
            }
        }
    }
}

/// NSEC3PARAM RDATA (RFC 5155 §4.2): algorithm, flags, iterations, salt.
pub open spec fn spec_nsec3param(buf: Seq<u8>, offset: int, rdlength: int) -> Option<RDataView> {
    if rdlength < 5 {
        None
    } else {
        let salt_end = offset + 5 + buf[offset + 4] as int;
        if salt_end > offset + rdlength {
            None
        } else {
            Some(
                RDataView::NSEC3PARAM {
                    algorithm: buf[offset],
                    flags: buf[offset + 1],
                    iterations: be16(buf[offset + 2], buf[offset + 3]),
                    salt: buf.subrange(offset + 5, salt_end),
                },
            )
        }
    }
}

/// The RDATA `buf[offset..offset + rdlength]` of a record of type `rtype`
/// (names inside it may point anywhere in `buf`), or `None` when malformed.
pub open spec fn spec_parse_rdata(buf: Seq<u8>, offset: int, rdlength: int, rtype: RecordType) -> Option<RDataView> {
    let end = offset + rdlength;
    match rtype {
        RecordType::A => if rdlength != 4 {
            None
        } else {
            Some(RDataView::A(buf.subrange(offset, offset + 4)))
        },
        RecordType::AAAA => if rdlength != 16 {
            None
        } else {
            Some(RDataView::AAAA(buf.subrange(offset, offset + 16)))
        },
        RecordType::NS => match spec_decode_name(buf, offset) {
            Some((n, _)) => Some(RDataView::NS(n)),
            None => None,
        },
        RecordType::CNAME => match spec_decode_name(buf, offset) {
            Some((n, _)) => Some(RDataView::CNAME(n)),
            None => None,
        },
        RecordType::PTR => match spec_decode_name(buf, offset) {
            Some((n, _)) => Some(RDataView::PTR(n)),
            None => None,
        },
        RecordType::MX => if rdlength < 3 {
            None
        } else {
            match spec_decode_name(buf, offset + 2) {
                Some((n, _)) => Some(
                    RDataView::MX { preference: be16(buf[offset], buf[offset + 1]), exchange: n },
                ),
                None => None,
            }
        },
        RecordType::TXT => match txt_strings(buf, offset, end) {
            Some(v) => Some(RDataView::TXT(v)),
            None => None,
        },
        RecordType::SOA => spec_soa(buf, offset),
        RecordType::SRV => if rdlength < 7 {
            None
        } else {
            match spec_decode_name(buf, offset + 6) {
                Some((n, _)) => Some(
                    RDataView::SRV {
                        priority: be16(buf[offset], buf[offset + 1]),
                        weight: be16(buf[offset + 2], buf[offset + 3]),
                        port: be16(buf[offset + 4], buf[offset + 5]),
                        target: n,
                    },
                ),
                None => None,
            }
        },
        RecordType::CAA => spec_caa(buf, offset, rdlength),
        RecordType::DS => if rdlength < 4 {
            None
        } else {
            Some(
                RDataView::DS {
                    key_tag: be16(buf[offset], buf[offset + 1]),
                    algorithm: buf[offset + 2],
                    digest_type: buf[offset + 3],
                    digest: buf.subrange(offset + 4, end),
                },
            )
        },
        RecordType::RRSIG => spec_rrsig(buf, offset, rdlength),
        RecordType::DNSKEY => if rdlength < 4 {
            None
        } else {
            Some(
                RDataView::DNSKEY {
                    flags: be16(buf[offset], buf[offset + 1]),
                    protocol: buf[offset + 2],
                    algorithm: buf[offset + 3],
                    public_key: buf.subrange(offset + 4, end),
                },
            )
        },
        RecordType::NSEC => spec_nsec(buf, offset, rdlength),
        RecordType::NSEC3 => spec_nsec3(buf, offset, rdlength),
        RecordType::NSEC3PARAM => spec_nsec3param(buf, offset, rdlength),
        RecordType::SVCB => match spec_parse_svcb(buf, offset, rdlength) {
            Some((p, t, ps)) => Some(RDataView::SVCB { priority: p, target: t, params: ps }),
            None => None,
        },
        RecordType::HTTPS => match spec_parse_svcb(buf, offset, rdlength) {
            Some((p, t, ps)) => Some(RDataView::HTTPS { priority: p, target: t, params: ps }),
            None => None,
        },
        RecordType::OPT => Some(RDataView::OPT(buf.subrange(offset, end))),
        _ => Some(RDataView::Unknown(buf.subrange(offset, end))),
    }
}

/// Decodes the character strings of TXT RDATA.
fn parse_txt(buf: &[u8], offset: usize, rdlength: usize) -> (r: Result<Vec<String>, DnsError>)
    requires
        offset + rdlength <= buf@.len(),
    ensures
        match r {
            Ok(v) => txt_strings(buf@, offset as int, offset + rdlength) == Some(strings_view(v@)),
            Err(e) => txt_strings(buf@, offset as int, offset + rdlength) is None && e is Protocol,
        },
{
    let blen = buf.len();
    let mut strings: Vec<String> = Vec::new();
    let mut pos: usize = offset;
    let end: usize = offset + rdlength;
    assert(strings_view(strings@) =~= Seq::<Seq<char>>::empty());
    while pos < end
        invariant
            blen == buf@.len(),
            offset <= pos <= end,
            end == offset + rdlength,
            end <= buf@.len(),
            txt_strings(buf@, offset as int, end as int) == prepend_some(
                strings_view(strings@),
                txt_strings(buf@, pos as int, end as int),
            ),
        decreases end - pos,
    {
        let str_len = buf[pos] as usize;
        let ghost p0 = pos as int;
        pos = pos + 1;
        if str_len > end - pos {
            assert(txt_strings(buf@, p0, end as int) is None);
            return Err(protocol_error("TXT string extends beyond RDATA"));
        }
        let bytes = copy_range(buf, pos, pos + str_len);
        let t = lossy_string(bytes.as_slice());
        proof {
            lemma_prepend_push(strings_view(strings@), t@, txt_strings(buf@, (pos + str_len) as int, end as int));
            assert(strings_view(strings@.push(t)) =~= strings_view(strings@).push(t@));
        }
        strings.push(t);
        pos = pos + str_len;
    }
    assert(strings_view(strings@) + Seq::<Seq<char>>::empty() =~= strings_view(strings@));
    Ok(strings)
}

/// Decodes SOA RDATA.
fn parse_soa(buf: &[u8], offset: usize) -> (r: Result<RData, DnsError>)
    requires
        offset <= buf@.len(),
    ensures
        match r {
            Ok(d) => spec_soa(buf@, offset as int) == Some(d@),
            Err(e) => spec_soa(buf@, offset as int) is None && e is Protocol,
        },
{
    let blen = buf.len();
    let (mname, mname_len) = match decode_name(buf, offset) {
        Ok(x) => x,
        Err(e) => return Err(e),
    };
    proof {
        lemma_decoded_span(buf@, offset as int);
    }
    let (rname, rname_len) = match decode_name(buf, offset + mname_len) {
        Ok(x) => x,
        Err(e) => return Err(e),
    };
    proof {
        lemma_decoded_span(buf@, offset + mname_len);
    }
    let soa_offset = offset + mname_len + rname_len;
    if buf.len() - soa_offset < 20 {
        return Err(protocol_error("truncated SOA record"));
    }
    let serial = read_u32(buf, soa_offset);
    let refresh = read_u32(buf, soa_offset + 4);
    let retry = read_u32(buf, soa_offset + 8);
    let expire = read_u32(buf, soa_offset + 12);
    let minimum = read_u32(buf, soa_offset + 16);
    Ok(RData::SOA { mname, rname, serial, refresh, retry, expire, minimum })
}

/// Decodes CAA RDATA.
fn parse_caa(buf: &[u8], offset: usize, rdlength: usize) -> (r: Result<RData, DnsError>)
    requires
        offset + rdlength <= buf@.len(),
    ensures
        match r {
            Ok(d) => spec_caa(buf@, offset as int, rdlength as int) == Some(d@),
            Err(e) => spec_caa(buf@, offset as int, rdlength as int) is None && e is Protocol,
        },
{
    let blen = buf.len();
    if rdlength < 2 {
        return Err(protocol_error("invalid CAA record length"));
    }
    let flags = buf[offset];
    let tag_len = buf[offset + 1] as usize;
    if 2 + tag_len > rdlength {
        return Err(protocol_error("CAA tag extends beyond RDATA"));
    }
    let tag_bytes = copy_range(buf, offset + 2, offset + 2 + tag_len);
    let tag = lossy_string(tag_bytes.as_slice());
    let value_bytes = copy_range(buf, offset + 2 + tag_len, offset + rdlength);
    let value = lossy_string(value_bytes.as_slice());
    Ok(RData::CAA { flags, tag, value })
}

/// Decodes RRSIG RDATA.
fn parse_rrsig(buf: &[u8], offset: usize, rdlength: usize) -> (r: Result<RData, DnsError>)
    requires
        offset + rdlength <= buf@.len(),
    ensures
        match r {
            Ok(d) => spec_rrsig(buf@, offset as int, rdlength as int) == Some(d@),
            Err(e) => spec_rrsig(buf@, offset as int, rdlength as int) is None && e is Protocol,
        },
{
    let blen = buf.len();
    if rdlength < 18 {
        return Err(protocol_error("invalid RRSIG record length"));
    }
    let end = offset + rdlength;
    let type_covered = RecordType::from_u16(read_u16(buf, offset));
    let algorithm = buf[offset + 2];
    let labels = buf[offset + 3];
    let original_ttl = read_u32(buf, offset + 4);
    let expiration = read_u32(buf, offset + 8);
    let inception = read_u32(buf, offset + 12);
    let key_tag = read_u16(buf, offset + 16);
    let (signer, signer_len) = match decode_name(buf, offset + 18) {
        Ok(x) => x,
        Err(e) => return Err(e),
    };
    proof {
        lemma_decoded_span(buf@, offset + 18);
    }
    let sig_start = offset + 18 + signer_len;
    let signature = if sig_start < end {
        copy_range(buf, sig_start, end)
    } else {
        Vec::new()
    };
    assert(sig_start >= end ==> signature@ =~= Seq::<u8>::empty());
    Ok(
        RData::RRSIG {
            type_covered,
            algorithm,
            labels,
            original_ttl,
            expiration,
            inception,
            key_tag,
            signer,
            signature,
        },
    )
}

/// Decodes NSEC RDATA.
fn parse_nsec(buf: &[u8], offset: usize, rdlength: usize) -> (r: Result<RData, DnsError>)
    requires
        offset + rdlength <= buf@.len(),
    ensures
        match r {
            Ok(d) => spec_nsec(buf@, offset as int, rdlength as int) == Some(d@),
            Err(e) => spec_nsec(buf@, offset as int, rdlength as int) is None && e is Protocol,
        },
{
    let blen = buf.len();
    let (next_domain, name_len) = match decode_name(buf, offset) {
        Ok(x) => x,
        Err(e) => return Err(e),
    };
    proof {
        lemma_decoded_span(buf@, offset as int);
    }
    let bitmap_start = offset + name_len;
    let bitmap_len = rdlength.saturating_sub(name_len);
    let type_bitmaps = parse_type_bitmaps(buf, bitmap_start, bitmap_len);
    Ok(RData::NSEC { next_domain, type_bitmaps })
}

/// Decodes NSEC3 RDATA.
fn parse_nsec3(buf: &[u8], offset: usize, rdlength: usize) -> (r: Result<RData, DnsError>)
    requires
        offset + rdlength <= buf@.len(),
    ensures
        match r {
            Ok(d) => spec_nsec3(buf@, offset as int, rdlength as int) == Some(d@),
            Err(e) => spec_nsec3(buf@, offset as int, rdlength as int) is None && e is Protocol,
        },
{
    let blen = buf.len();
    if rdlength < 6 {
        return Err(protocol_error("invalid NSEC3 record length"));
    }
    let rdata_end = offset + rdlength;
    let algorithm = buf[offset];
    let flags = buf[offset + 1];
    let iterations = read_u16(buf, offset + 2);
    let salt_len = buf[offset + 4] as usize;
    if salt_len > rdlength - 5 {
        return Err(protocol_error("NSEC3 salt exceeds RDATA"));
    }
    let salt_end = offset + 5 + salt_len;
    let salt = copy_range(buf, offset + 5, salt_end);
    let hash_offset = salt_end;
    if hash_offset >= rdata_end {
        return Err(protocol_error("truncated NSEC3"));
    }
    let hash_len = buf[hash_offset] as usize;
    if hash_len > rdata_end - hash_offset - 1 {
        return Err(protocol_error("NSEC3 hash exceeds RDATA"));
    }
    let hash_end = hash_offset + 1 + hash_len;
    let next_hashed = copy_range(buf, hash_offset + 1, hash_end);
    let bitmap_start = hash_end;
    let bitmap_len = rdata_end - bitmap_start;
    let type_bitmaps = parse_type_bitmaps(buf, bitmap_start, bitmap_len);
    Ok(RData::NSEC3 { algorithm, flags, iterations, salt, next_hashed, type_bitmaps })
}

/// Decodes NSEC3PARAM RDATA.
fn parse_nsec3param(buf: &[u8], offset: usize, rdlength: usize) -> (r: Result<RData, DnsError>)
    requires
        offset + rdlength <= buf@.len(),
    ensures
        match r {
            Ok(d) => spec_nsec3param(buf@, offset as int, rdlength as int) == Some(d@),
            Err(e) => spec_nsec3param(buf@, offset as int, rdlength as int) is None
                && e is Protocol,
        },
{
    let blen = buf.len();
    if rdlength < 5 {
        return Err(protocol_error("invalid NSEC3PARAM record length"));
    }
    let algorithm = buf[offset];
    let flags = buf[offset + 1];
    let iterations = read_u16(buf, offset + 2);
    let salt_len = buf[offset + 4] as usize;
    if salt_len > rdlength - 5 {
        return Err(protocol_error("NSEC3PARAM salt exceeds RDATA"));
    }
    let salt_end = offset + 5 + salt_len;
    let salt = copy_range(buf, offset + 5, salt_end);
    Ok(RData::NSEC3PARAM { algorithm, flags, iterations, salt })
}

/// Decodes A and AAAA RDATA: the address octets.
fn parse_address(buf: &[u8], offset: usize, rdlength: usize, v6: bool) -> (r: Result<RData, DnsError>)
    requires
        offset + rdlength <= buf@.len(),
    ensures
        match r {
            Ok(d) => spec_parse_rdata(
                buf@,
                offset as int,
                rdlength as int,
                if v6 { RecordType::AAAA } else { RecordType::A },
            ) == Some(d@),
            Err(e) => spec_parse_rdata(
                buf@,
                offset as int,
                rdlength as int,
                if v6 { RecordType::AAAA } else { RecordType::A },
            ) is None && e is Protocol,
        },
{
    let blen = buf.len();
    if !v6 {
        if rdlength != 4 {
            return Err(protocol_error("invalid A record length"));
        }
        let a = Ipv4Addr::new(buf[offset], buf[offset + 1], buf[offset + 2], buf[offset + 3]);
        assert(a.octets@ =~= buf@.subrange(offset as int, offset + 4));
        return Ok(RData::A(a));
    }
    if rdlength != 16 {
        return Err(protocol_error("invalid AAAA record length"));
    }
    let o: [u8; 16] = [
        buf[offset],
        buf[offset + 1],
        buf[offset + 2],
        buf[offset + 3],
        buf[offset + 4],
        buf[offset + 5],
        buf[offset + 6],
        buf[offset + 7],
        buf[offset + 8],
        buf[offset + 9],
        buf[offset + 10],
        buf[offset + 11],
        buf[offset + 12],
        buf[offset + 13],
        buf[offset + 14],
        buf[offset + 15],
    ];
    assert(o@ =~= buf@.subrange(offset as int, offset + 16));
    Ok(RData::AAAA(Ipv6Addr::from_octets(o)))
}

/// Decodes RDATA that is a single domain name (NS, CNAME, PTR), or a
/// 16-bit number and a name after it (MX).
fn parse_name_rdata(buf: &[u8], offset: usize, rdlength: usize, rtype: RecordType) -> (r: Result<
    RData,
    DnsError,
>)
    requires
        offset + rdlength <= buf@.len(),
        rtype is NS || rtype is CNAME || rtype is PTR || rtype is MX || rtype is SRV,
    ensures
        match r {
            Ok(d) => spec_parse_rdata(buf@, offset as int, rdlength as int, rtype) == Some(d@),
            Err(e) => spec_parse_rdata(buf@, offset as int, rdlength as int, rtype) is None
                && e is Protocol,
        },
{
    let blen = buf.len();
    match rtype {
        RecordType::MX => {
            if rdlength < 3 {
                return Err(protocol_error("invalid MX record length"));
            }
            let preference = read_u16(buf, offset);
            match decode_name(buf, offset + 2) {
                Ok((exchange, _)) => Ok(RData::MX { preference, exchange }),
                Err(e) => Err(e),
            }
        },
        RecordType::SRV => {
            if rdlength < 7 {
                return Err(protocol_error("invalid SRV record length"));
            }
            let priority = read_u16(buf, offset);
            let weight = read_u16(buf, offset + 2);
            let port = read_u16(buf, offset + 4);
            match decode_name(buf, offset + 6) {
                Ok((target, _)) => Ok(RData::SRV { priority, weight, port, target }),
                Err(e) => Err(e),
            }
        },
        _ => {
            match decode_name(buf, offset) {
                Ok((name, _)) => Ok(
                    match rtype {
                        RecordType::NS => RData::NS(name),
                        RecordType::CNAME => RData::CNAME(name),
                        _ => RData::PTR(name),
                    },
                ),
                Err(e) => Err(e),
            }
        },
    }
}

/// Decodes the RDATA of a record of type `rtype` at `buf[offset..offset +
/// rdlength]`.
pub fn parse_rdata(buf: &[u8], offset: usize, rdlength: usize, rtype: RecordType) -> (r: Result<
    RData,
    DnsError,
>)
    requires
        offset + rdlength <= buf@.len(),
    ensures
        match r {
            Ok(d) => spec_parse_rdata(buf@, offset as int, rdlength as int, rtype) == Some(d@),
            Err(e) => spec_parse_rdata(buf@, offset as int, rdlength as int, rtype) is None
                && e is Protocol,
        },
{
    let blen = buf.len();
    let end = offset + rdlength;
    match rtype {
        RecordType::A => parse_address(buf, offset, rdlength, false),
        RecordType::AAAA => parse_address(buf, offset, rdlength, true),
        RecordType::NS | RecordType::CNAME | RecordType::PTR | RecordType::MX | RecordType::SRV => {
            parse_name_rdata(buf, offset, rdlength, rtype)
        },
        RecordType::TXT => match parse_txt(buf, offset, rdlength) {
            Ok(strings) => Ok(RData::TXT(strings)),
            Err(e) => Err(e),
        },
        RecordType::SOA => parse_soa(buf, offset),
        RecordType::CAA => parse_caa(buf, offset, rdlength),
        RecordType::DS => {
            if rdlength < 4 {
                return Err(protocol_error("invalid DS record length"));
            }
            let key_tag = read_u16(buf, offset);
            let algorithm = buf[offset + 2];
            let digest_type = buf[offset + 3];
            let digest = copy_range(buf, offset + 4, end);
            Ok(RData::DS { key_tag, algorithm, digest_type, digest })
        },
        RecordType::RRSIG => parse_rrsig(buf, offset, rdlength),
        RecordType::DNSKEY => {
            if rdlength < 4 {
                return Err(protocol_error("invalid DNSKEY record length"));
            }
            let flags = read_u16(buf, offset);
            let protocol = buf[offset + 2];
            let algorithm = buf[offset + 3];
            let public_key = copy_range(buf, offset + 4, end);
            Ok(RData::DNSKEY { flags, protocol, algorithm, public_key })
        },
        RecordType::NSEC => parse_nsec(buf, offset, rdlength),
        RecordType::NSEC3 => parse_nsec3(buf, offset, rdlength),
        RecordType::NSEC3PARAM => parse_nsec3param(buf, offset, rdlength),
        RecordType::SVCB => match parse_svcb_rdata(buf, offset, rdlength) {
            Ok((priority, target, params)) => Ok(RData::SVCB { priority, target, params }),
            Err(e) => Err(e),
        },
        RecordType::HTTPS => match parse_svcb_rdata(buf, offset, rdlength) {
            Ok((priority, target, params)) => Ok(RData::HTTPS { priority, target, params }),
            Err(e) => Err(e),
        },
        RecordType::OPT => Ok(RData::OPT(copy_range(buf, offset, end))),
        _ => Ok(RData::Unknown(copy_range(buf, offset, end))),
    }
}

/// A resource record: owner name, type, class, TTL, typed RDATA and the raw
/// RDATA bytes as received.
#[derive(Debug, Clone)]
pub struct ResourceRecord {
    pub name: String,
    pub rtype: RecordType,
    pub rclass: RecordClass,
    pub ttl: u32,
    pub rdata: RData,
    /// The RDATA bytes exactly as received (names inside may be compressed).
    pub raw_rdata: Vec<u8>,
}

/// The abstract content of a resource record.
pub ghost struct ResourceRecordView {
    pub name: Seq<char>,
    pub rtype: RecordType,
    pub rclass: RecordClass,
    pub ttl: u32,
    pub rdata: RDataView,
    pub raw_rdata: Seq<u8>,
}

impl View for ResourceRecord {
    type V = ResourceRecordView;

    open spec fn view(&self) -> ResourceRecordView {
        ResourceRecordView {
            name: self.name@,
            rtype: self.rtype,
            rclass: self.rclass,
            ttl: self.ttl,
            rdata: self.rdata@,
            raw_rdata: self.raw_rdata@,
        }
    }
}

/// The record at `offset` and the number of bytes it occupies, or `None`
/// when it is malformed or truncated.
#[verifier::opaque]
pub open spec fn spec_decode_record(buf: Seq<u8>, offset: int) -> Option<(ResourceRecordView, int)> {
    match spec_decode_name(buf, offset) {
        Some((name, n)) => {
            let pos = offset + n;
            if pos + 10 > buf.len() {
                None
            } else {
                let rtype = spec_type_from_u16(be16(buf[pos], buf[pos + 1]));
                let rdlength = be16(buf[pos + 8], buf[pos + 9]) as int;
                let rs = pos + 10;
                if rs + rdlength > buf.len() {
                    None
                } else {
                    match spec_parse_rdata(buf, rs, rdlength, rtype) {
                        Some(rdata) => Some(
                            (
                                ResourceRecordView {
                                    name,
                                    rtype,
                                    rclass: spec_class_from_u16(be16(buf[pos + 2], buf[pos + 3])),
                                    ttl: be32(buf[pos + 4], buf[pos + 5], buf[pos + 6], buf[pos + 7]),
                                    rdata,
                                    raw_rdata: buf.subrange(rs, rs + rdlength),
                                },
                                n + 10 + rdlength,
                            ),
                        ),
                        None => None,
                    }
                }
            }
        },
        None => None,
    }
}

impl ResourceRecord {
    /// Decodes the record at `offset`, returning it and the bytes it
    /// occupies.
    pub fn decode(buf: &[u8], offset: usize) -> (r: Result<(Self, usize), DnsError>)
        ensures
            match r {
                Ok((rr, n)) => spec_decode_record(buf@, offset as int) == Some((rr@, n as int))
                    && offset + n <= buf@.len(),
                Err(e) => spec_decode_record(buf@, offset as int) is None && e is Protocol,
            },
    {
        proof {
            reveal(spec_decode_record);
        }
        let blen = buf.len();
        let (name, name_len) = match decode_name(buf, offset) {
            Ok(x) => x,
            Err(e) => return Err(e),
        };
        proof {
            lemma_decoded_span(buf@, offset as int);
        }
        let pos = offset + name_len;
        if buf.len() - pos < 10 {
            return Err(protocol_error("truncated resource record"));
        }
        let rtype = RecordType::from_u16(read_u16(buf, pos));
        let rclass = RecordClass::from_u16(read_u16(buf, pos + 2));
        let ttl = read_u32(buf, pos + 4);
        let rdlength = read_u16(buf, pos + 8) as usize;
        let rdata_start = pos + 10;
        if rdlength > buf.len() - rdata_start {
            return Err(protocol_error("truncated RDATA"));
        }
        let rdata = match parse_rdata(buf, rdata_start, rdlength, rtype) {
            Ok(d) => d,
            Err(e) => return Err(e),
        };
        let total_consumed = name_len + 10 + rdlength;
        let raw_rdata = copy_range(buf, rdata_start, rdata_start + rdlength);
        Ok((ResourceRecord { name, rtype, rclass, ttl, rdata, raw_rdata }, total_consumed))
    }
}

} // verus!
