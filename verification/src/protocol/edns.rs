//! EDNS(0) (RFC 6891): the OPT pseudo-record sent with queries, and the
//! options a response carries back (Client Subnet, NSID).
use vstd::prelude::*;
use crate::protocol::addr::{IpAddress, ipv4_text, ipv6_text, push_ipv4, push_ipv6};
use crate::protocol::header::lemma_u16_bytes_roundtrip;
use crate::protocol::wire::{be16, be32, u16_bytes, read_u16, push_u16, extend_bytes, copy_range};
use crate::text::{decimal, hex_lower, push_char, push_decimal, push_hex_lower, push_str};

verus! {

/// EDNS option code for NSID (RFC 5001).
pub const OPTION_NSID: u16 = 3;

/// EDNS option code for Client Subnet (RFC 7871).
pub const OPTION_CLIENT_SUBNET: u16 = 8;

/// A raw EDNS option: code plus opaque payload (RFC 6891 §6.1.2).
#[derive(Debug, Clone)]
pub struct EdnsOption {
    pub code: u16,
    pub data: Vec<u8>,
}

/// The abstract content of an EDNS option.
pub ghost struct EdnsOptionView {
    pub code: u16,
    pub data: Seq<u8>,
}

impl View for EdnsOption {
    type V = EdnsOptionView;

    open spec fn view(&self) -> EdnsOptionView {
        EdnsOptionView { code: self.code, data: self.data@ }
    }
}

/// What a query advertises in its OPT record.
#[derive(Debug, Clone)]
pub struct EdnsOptions {
    pub udp_payload_size: u16,
    pub version: u8,
    pub dnssec_ok: bool,
    pub options: Vec<EdnsOption>,
}

/// The views of a list of options.
pub open spec fn options_view(v: Seq<EdnsOption>) -> Seq<EdnsOptionView> {
    v.map_values(|o: EdnsOption| o@)
}

impl Default for EdnsOptions {
    /// A 4096-byte payload, version 0, DO clear, no options.
    fn default() -> (r: Self)
        ensures
            r.udp_payload_size == 4096,
            r.version == 0,
            !r.dnssec_ok,
            r.options@.len() == 0,
    {
        EdnsOptions { udp_payload_size: 4096, version: 0, dnssec_ok: false, options: Vec::new() }
    }
}

/// The number of address bytes a source prefix of `prefix` bits covers.
pub open spec fn prefix_bytes(prefix: nat) -> nat {
    (prefix + 7) / 8
}

/// The address bytes of a Client Subnet option: the octets that the prefix
/// covers, with the bits beyond the prefix in the last one cleared.
pub open spec fn subnet_address(octets: Seq<u8>, prefix: u8) -> Seq<u8> {
    let n = prefix_bytes(prefix as nat) as int;
    let kept = octets.take(n);
    let partial = prefix % 8;
    if partial != 0 {
        kept.update(n - 1, kept[n - 1] & (0xFFu8 << ((8 - partial) as u8)))
    } else {
        kept
    }
}

/// The family number and octets of an address.
pub open spec fn address_family(addr: IpAddress) -> (u16, Seq<u8>) {
    match addr {
        IpAddress::V4(a) => (1, a.octets@),
        IpAddress::V6(a) => (2, a.octets@),
    }
}

/// Builds the RFC 7871 Client Subnet option for a query: family, source
/// prefix, scope prefix 0, and the address truncated to the prefix with the
/// trailing bits zeroed.
pub fn client_subnet_option(addr: IpAddress, source_prefix: u8) -> (r: EdnsOption)
    requires
        source_prefix <= 8 * address_family(addr).1.len(),
    ensures
        r.code == OPTION_CLIENT_SUBNET,
        r.data@ == u16_bytes(address_family(addr).0) + seq![source_prefix, 0u8]
            + subnet_address(address_family(addr).1, source_prefix),
{
    let family: u16;
    let octets: Vec<u8>;
    match addr {
        IpAddress::V4(a) => {
            family = 1;
            let o = a.octets();
            octets = copy_range(&o, 0, 4);
            assert(o@.subrange(0, 4) =~= o@);
        },
        IpAddress::V6(a) => {
            family = 2;
            let o = a.octets();
            octets = copy_range(&o, 0, 16);
            assert(o@.subrange(0, 16) =~= o@);
        },
    }
    let addr_len: usize = ((source_prefix as usize) + 7) / 8;
    let mut address = copy_range(octets.as_slice(), 0, addr_len);
    assert(address@ =~= octets@.take(addr_len as int));
    let partial_bits: u8 = source_prefix % 8;
    if partial_bits != 0 {
        let last = address[addr_len - 1];
        address.set(addr_len - 1, last & (0xFFu8 << (8 - partial_bits)));
    }
    let mut data: Vec<u8> = Vec::new();
    push_u16(&mut data, family);
    data.push(source_prefix);
    data.push(0);
    extend_bytes(&mut data, address.as_slice());
    assert(data@ =~= u16_bytes(family) + seq![source_prefix, 0u8] + address@);
    EdnsOption { code: OPTION_CLIENT_SUBNET, data }
}

/// The total RDATA length of a list of options: four header bytes plus the
/// payload of each.
pub open spec fn options_len(os: Seq<EdnsOptionView>) -> nat
    decreases os.len(),
{
    if os.len() == 0 {
        0
    } else {
        options_len(os.drop_last()) + 4 + os.last().data.len()
    }
}

/// The wire form of a list of options: code, payload length (as 16 bits),
/// payload, each in turn.
pub open spec fn options_wire(os: Seq<EdnsOptionView>) -> Seq<u8>
    decreases os.len(),
{
    if os.len() == 0 {
        Seq::empty()
    } else {
        options_wire(os.drop_last()) + u16_bytes(os.last().code) + u16_bytes(
            os.last().data.len() as u16,
        ) + os.last().data
    }
}

/// The OPT pseudo-record for a query: root owner name, TYPE 41, CLASS = the
/// UDP payload size, TTL = extended RCODE 0, version, DO flag, then RDLENGTH
/// (as 16 bits) and the options.
pub open spec fn spec_opt_record(
    udp_payload_size: u16,
    version: u8,
    dnssec_ok: bool,
    os: Seq<EdnsOptionView>,
) -> Seq<u8> {
    seq![0u8] + u16_bytes(41) + u16_bytes(udp_payload_size) + seq![
        0u8,
        version,
        if dnssec_ok { 0x80u8 } else { 0u8 },
        0u8,
    ] + u16_bytes(options_len(os) as u16) + options_wire(os)
}

/// Encodes the OPT pseudo-record for the additional section.
pub fn encode_opt_record(opts: &EdnsOptions) -> (r: Vec<u8>)
    requires
        options_len(options_view(opts.options@)) <= usize::MAX,
    ensures
        r@ == spec_opt_record(
            opts.udp_payload_size,
            opts.version,
            opts.dnssec_ok,
            options_view(opts.options@),
        ),
{
    let ghost os = options_view(opts.options@);
    let n = opts.options.len();
    let mut rdlength: usize = 0;
    let mut i: usize = 0;
    while i < n
        invariant
            n == opts.options@.len(),
            os == options_view(opts.options@),
            i <= n,
            rdlength == options_len(os.take(i as int)),
            options_len(os) <= usize::MAX,
        decreases n - i,
    {
        proof {
            assert(os.take(i + 1).drop_last() =~= os.take(i as int));
            lemma_options_len_prefix(os, i + 1);
        }
        rdlength = rdlength + 4 + opts.options[i].data.len();
        i = i + 1;
    }
    assert(os.take(n as int) =~= os);
    let mut buf: Vec<u8> = Vec::new();
    buf.push(0);
    push_u16(&mut buf, 41);
    push_u16(&mut buf, opts.udp_payload_size);
    buf.push(0);
    buf.push(opts.version);
    buf.push(if opts.dnssec_ok { 0x80u8 } else { 0u8 });
    buf.push(0);
    push_u16(&mut buf, rdlength as u16);
    let ghost head = buf@;
    let mut j: usize = 0;
    while j < n
        invariant
            n == opts.options@.len(),
            os == options_view(opts.options@),
            j <= n,
            buf@ == head + options_wire(os.take(j as int)),
        decreases n - j,
    {
        let option = &opts.options[j];
        push_u16(&mut buf, option.code);
        push_u16(&mut buf, option.data.len() as u16);
        extend_bytes(&mut buf, option.data.as_slice());
        proof {
            assert(os.take(j + 1).drop_last() =~= os.take(j as int));
            assert(os.take(j + 1).last() == os[j as int]);
        }
        j = j + 1;
        assert(buf@ =~= head + options_wire(os.take(j as int)));
    }
    assert(os.take(n as int) =~= os);
    assert(buf@ =~= spec_opt_record(opts.udp_payload_size, opts.version, opts.dnssec_ok, os));
    buf
}

/// The length of a prefix of the option list never exceeds that of the list.
proof fn lemma_options_len_prefix(os: Seq<EdnsOptionView>, k: int)
    requires
        0 <= k <= os.len(),
    ensures
        options_len(os.take(k)) <= options_len(os),
    decreases os.len() - k,
{
    if k < os.len() {
        lemma_options_len_prefix(os, k + 1);
        assert(os.take(k + 1).drop_last() =~= os.take(k));
    } else {
        assert(os.take(k) =~= os);
    }
}

/// A server identifier returned via the NSID option (RFC 5001): the payload
/// in lowercase hex, and as text when it is printable ASCII.
#[derive(Debug, Clone)]
pub struct Nsid {
    pub hex: String,
    pub text: Option<String>,
}

/// The abstract content of an NSID.
pub ghost struct NsidView {
    pub hex: Seq<char>,
    pub text: Option<Seq<char>>,
}

impl View for Nsid {
    type V = NsidView;

    open spec fn view(&self) -> NsidView {
        NsidView {
            hex: self.hex@,
            text: match self.text {
                Some(t) => Some(t@),
                None => None,
            },
        }
    }
}

/// Whether a byte is printable ASCII (graphic or space).
pub open spec fn printable_byte(b: u8) -> bool {
    0x20 <= b <= 0x7e
}

/// The characters of ASCII bytes.
pub open spec fn ascii_chars(d: Seq<u8>) -> Seq<char> {
    d.map_values(|b: u8| b as char)
}

/// The NSID shown for a payload: its hex form, and its text when it is
/// non-empty and entirely printable.
pub open spec fn spec_nsid(d: Seq<u8>) -> NsidView {
    NsidView {
        hex: hex_lower(d),
        text: if d.len() > 0 && forall|i: int| 0 <= i < d.len() ==> printable_byte(#[trigger] d[i]) {
            Some(ascii_chars(d))
        } else {
            None
        },
    }
}

/// Parses an NSID payload.
fn parse_nsid(data: &[u8]) -> (r: Nsid)
    ensures
        r@ == spec_nsid(data@),
{
    let mut hex = String::new();
    push_hex_lower(&mut hex, data);
    assert(hex@ =~= hex_lower(data@));
    let mut printable = data.len() > 0;
    let mut text = String::new();
    let mut i: usize = 0;
    while i < data.len()
        invariant
            i <= data@.len(),
            printable == (data@.len() > 0 && forall|k: int| 0 <= k < i ==> printable_byte(
                #[trigger] data@[k],
            )),
            text@ == ascii_chars(data@.take(i as int)),
        decreases data@.len() - i,
    {
        let b = data[i];
        if !(0x20 <= b && b <= 0x7e) {
            printable = false;
        }
        push_char(&mut text, b as char);
        i = i + 1;
        assert(text@ =~= ascii_chars(data@.take(i as int)));
    }
    assert(data@.take(i as int) =~= data@);
    Nsid { hex, text: if printable { Some(text) } else { None } }
}

/// The text of an NSID: the hex form, followed by the quoted text when
/// there is one.
pub open spec fn nsid_text(n: NsidView) -> Seq<char> {
    match n.text {
        Some(t) => n.hex + seq![' ', '(', '"'] + t + seq!['"', ')'],
        None => n.hex,
    }
}

impl Nsid {
    /// The hex form, followed by the quoted text when there is one.
    pub fn to_string(&self) -> (r: String)
        ensures
            r@ == nsid_text(self@),
    {
        let mut s = self.hex.clone();
        match &self.text {
            Some(t) => {
                push_char(&mut s, ' ');
                push_char(&mut s, '(');
                push_char(&mut s, '"');
                push_str(&mut s, t.as_str());
                push_char(&mut s, '"');
                push_char(&mut s, ')');
            },
            None => {},
        }
        s
    }
}

/// A Client Subnet option parsed from a response (RFC 7871 §6).
#[derive(Debug, Clone)]
pub struct ClientSubnet {
    pub family: u16,
    pub source_prefix: u8,
    pub scope_prefix: u8,
    pub address: String,
}

/// The abstract content of a Client Subnet option.
pub ghost struct ClientSubnetView {
    pub family: u16,
    pub source_prefix: u8,
    pub scope_prefix: u8,
    pub address: Seq<char>,
}

impl View for ClientSubnet {
    type V = ClientSubnetView;

    open spec fn view(&self) -> ClientSubnetView {
        ClientSubnetView {
            family: self.family,
            source_prefix: self.source_prefix,
            scope_prefix: self.scope_prefix,
            address: self.address@,
        }
    }
}

/// The text of a Client Subnet option: `address/source/scope`.
pub open spec fn subnet_text(c: ClientSubnetView) -> Seq<char> {
    c.address + seq!['/'] + decimal(c.source_prefix as nat) + seq!['/'] + decimal(
        c.scope_prefix as nat,
    )
}

impl ClientSubnet {
    /// `address/source/scope`.
    pub fn to_string(&self) -> (r: String)
        ensures
            r@ == subnet_text(self@),
    {
        let mut s = self.address.clone();
        push_char(&mut s, '/');
        push_decimal(&mut s, self.source_prefix as u64);
        push_char(&mut s, '/');
        push_decimal(&mut s, self.scope_prefix as u64);
        s
    }
}

/// The first `n` bytes of `d`, padded with zeros when `d` is shorter.
pub open spec fn padded(d: Seq<u8>, n: int) -> Seq<u8> {
    Seq::new(n as nat, |i: int| if i < d.len() { d[i] } else { 0u8 })
}

/// A Client Subnet payload: family, source and scope prefixes, then as many
/// address bytes as are present (missing ones read as zero). Families other
/// than IPv4 (1) and IPv6 (2), and payloads under four bytes, give `None`.
pub open spec fn spec_client_subnet(d: Seq<u8>) -> Option<ClientSubnetView> {
    if d.len() < 4 {
        None
    } else {
        let family = be16(d[0], d[1]);
        let rest = d.subrange(4, d.len() as int);
        if family == 1 {
            Some(
                ClientSubnetView {
                    family,
                    source_prefix: d[2],
                    scope_prefix: d[3],
                    address: ipv4_text(padded(rest, 4)),
                },
            )
        } else if family == 2 {
            Some(
                ClientSubnetView {
                    family,
                    source_prefix: d[2],
                    scope_prefix: d[3],
                    address: ipv6_text(padded(rest, 16)),
                },
            )
        } else {
            None
        }
    }
}

/// Parses a Client Subnet payload.
fn parse_client_subnet(data: &[u8]) -> (r: Option<ClientSubnet>)
    ensures
        match r {
            Some(c) => spec_client_subnet(data@) == Some(c@),
            None => spec_client_subnet(data@) is None,
        },
{
    let dlen = data.len();
    if dlen < 4 {
        return None;
    }
    let family = read_u16(data, 0);
    let source_prefix = data[2];
    let scope_prefix = data[3];
    let ghost rest = data@.subrange(4, dlen as int);
    if family == 1 {
        let mut o: [u8; 4] = [0u8; 4];
        let mut i: usize = 0;
        while i < 4
            invariant
                dlen == data@.len(),
                dlen >= 4,
                rest == data@.subrange(4, dlen as int),
                i <= 4,
                forall|k: int| 0 <= k < i ==> o@[k] == padded(rest, 4)[k],
            decreases 4 - i,
        {
            if 4 + i < dlen {
                o.set(i, data[4 + i]);
            } else {
                o.set(i, 0);
            }
            i = i + 1;
        }
        assert(o@ =~= padded(rest, 4));
        let mut address = String::new();
        push_ipv4(&mut address, &o);
        return Some(ClientSubnet { family, source_prefix, scope_prefix, address });
    }
    if family == 2 {
        let mut o: [u8; 16] = [0u8; 16];
        let mut i: usize = 0;
        while i < 16
            invariant
                dlen == data@.len(),
                dlen >= 4,
                rest == data@.subrange(4, dlen as int),
                i <= 16,
                forall|k: int| 0 <= k < i ==> o@[k] == padded(rest, 16)[k],
            decreases 16 - i,
        {
            if 4 + i < dlen {
                o.set(i, data[4 + i]);
            } else {
                o.set(i, 0);
            }
            i = i + 1;
        }
        assert(o@ =~= padded(rest, 16));
        let mut address = String::new();
        push_ipv6(&mut address, &o);
        return Some(ClientSubnet { family, source_prefix, scope_prefix, address });
    }
    None
}

/// EDNS information from a response's OPT record.
#[derive(Debug, Clone)]
pub struct EdnsInfo {
    pub udp_payload_size: u16,
    pub extended_rcode: u8,
    pub version: u8,
    pub dnssec_ok: bool,
    pub subnet: Option<ClientSubnet>,
    pub nsid: Option<Nsid>,
}

/// The abstract content of EDNS information.
pub ghost struct EdnsInfoView {
    pub udp_payload_size: u16,
    pub extended_rcode: u8,
    pub version: u8,
    pub dnssec_ok: bool,
    pub subnet: Option<ClientSubnetView>,
    pub nsid: Option<NsidView>,
}

impl View for EdnsInfo {
    type V = EdnsInfoView;

    open spec fn view(&self) -> EdnsInfoView {
        EdnsInfoView {
            udp_payload_size: self.udp_payload_size,
            extended_rcode: self.extended_rcode,
            version: self.version,
            dnssec_ok: self.dnssec_ok,
            subnet: match self.subnet {
                Some(c) => Some(c@),
                None => None,
            },
            nsid: match self.nsid {
                Some(n) => Some(n@),
                None => None,
            },
        }
    }
}

/// The Client Subnet and NSID found in the options at `d[pos..]`, given
/// those found before: each well-formed option replaces the earlier one of
/// its kind, other codes are skipped, and an option whose payload runs past
/// the end stops the scan.
pub open spec fn scan_options(
    d: Seq<u8>,
    pos: int,
    subnet: Option<ClientSubnetView>,
    nsid: Option<NsidView>,
) -> (Option<ClientSubnetView>, Option<NsidView>)
    decreases d.len() - pos,
{
    if pos < 0 || pos + 4 > d.len() {
        (subnet, nsid)
    } else {
        let code = be16(d[pos], d[pos + 1]);
        let len = be16(d[pos + 2], d[pos + 3]) as int;
        let start = pos + 4;
        if start + len > d.len() {
            (subnet, nsid)
        } else {
            let payload = d.subrange(start, start + len);
            if code == OPTION_CLIENT_SUBNET {
                scan_options(d, start + len, spec_client_subnet(payload), nsid)
            } else if code == OPTION_NSID {
                scan_options(d, start + len, subnet, Some(spec_nsid(payload)))
            } else {
                scan_options(d, start + len, subnet, nsid)
            }
        }
    }
}

/// The view of an optional Client Subnet.
pub open spec fn opt_view(c: &Option<ClientSubnet>) -> Option<ClientSubnetView> {
    match c {
        Some(c) => Some(c@),
        None => None,
    }
}

/// The view of an optional NSID.
pub open spec fn opt_nsid_view(x: &Option<Nsid>) -> Option<NsidView> {
    match x {
        Some(x) => Some(x@),
        None => None,
    }
}

/// The EDNS information of an OPT record with the given CLASS, TTL and RDATA.
pub open spec fn spec_decode_opt(class_val: u16, ttl_val: u32, rdata: Seq<u8>) -> EdnsInfoView {
    let (subnet, nsid) = scan_options(rdata, 0, None, None);
    EdnsInfoView {
        udp_payload_size: class_val,
        extended_rcode: (ttl_val / 16777216) as u8,
        version: ((ttl_val / 65536) % 256) as u8,
        dnssec_ok: (ttl_val / 256) % 256 >= 128,
        subnet,
        nsid,
    }
}

/// Parses EDNS information from an OPT record's fields: CLASS is the UDP
/// payload size; TTL holds the extended RCODE, the version and the flags;
/// RDATA is the option list.
pub fn decode_opt_record(class_val: u16, ttl_val: u32, rdata: &[u8]) -> (r: EdnsInfo)
    ensures
        r@ == spec_decode_opt(class_val, ttl_val, rdata@),
{
    let n = rdata.len();
    let mut subnet: Option<ClientSubnet> = None;
    let mut nsid: Option<Nsid> = None;
    let mut pos: usize = 0;
    let mut done = false;
    while !done && pos <= n && n - pos >= 4
        invariant
            n == rdata@.len(),
            pos <= n,
            scan_options(rdata@, 0, None, None) == scan_options(
                rdata@,
                pos as int,
                opt_view(&subnet),
                opt_nsid_view(&nsid),
            ),
            done ==> scan_options(rdata@, pos as int, opt_view(&subnet), opt_nsid_view(&nsid))
                == (opt_view(&subnet), opt_nsid_view(&nsid)),
        decreases (n - pos) as int + if done { 0int } else { 1int },
    {
        let code = read_u16(rdata, pos);
        let len = read_u16(rdata, pos + 2) as usize;
        let start = pos + 4;
        if len > n - start {
            done = true;
        } else {
            let payload = copy_range(rdata, start, start + len);
            if code == OPTION_CLIENT_SUBNET {
                subnet = parse_client_subnet(payload.as_slice());
            } else if code == OPTION_NSID {
                nsid = Some(parse_nsid(payload.as_slice()));
            }
            pos = start + len;
        }
    }
    let b0: u8 = (ttl_val / 16777216) as u8;
    let b1: u8 = ((ttl_val / 65536) % 256) as u8;
    let b2: u8 = ((ttl_val / 256) % 256) as u8;
    EdnsInfo {
        udp_payload_size: class_val,
        extended_rcode: b0,
        version: b1,
        dnssec_ok: b2 >= 128,
        subnet,
        nsid,
    }
}

/// The wire form of options is as long as `options_len` counts.
proof fn lemma_options_wire_len(os: Seq<EdnsOptionView>)
    ensures
        options_wire(os).len() == options_len(os),
    decreases os.len(),
{
    if os.len() > 0 {
        lemma_options_wire_len(os.drop_last());
    }
}

/// Reading back the OPT record that a query carries: its CLASS field gives
/// the advertised payload size, its TTL field extended RCODE 0, the version
/// and the DO flag, its RDLENGTH field the length of the option list when
/// that fits in 16 bits, and its RDATA is exactly the option list.
pub proof fn lemma_opt_record_roundtrip(
    udp_payload_size: u16,
    version: u8,
    dnssec_ok: bool,
    os: Seq<EdnsOptionView>,
)
    ensures
        ({
            let r = spec_opt_record(udp_payload_size, version, dnssec_ok, os);
            let info = spec_decode_opt(be16(r[3], r[4]), be32(r[5], r[6], r[7], r[8]), r.skip(11));
            &&& r.len() == 11 + options_len(os)
            &&& r.skip(11) == options_wire(os)
            &&& options_len(os) <= 0xFFFF ==> be16(r[9], r[10]) == options_len(os)
            &&& info.udp_payload_size == udp_payload_size
            &&& info.extended_rcode == 0
            &&& info.version == version
            &&& info.dnssec_ok == dnssec_ok
        }),
{
    let r = spec_opt_record(udp_payload_size, version, dnssec_ok, os);
    lemma_options_wire_len(os);
    assert(r.skip(11) =~= options_wire(os));
    let flags: u8 = if dnssec_ok { 0x80u8 } else { 0u8 };
    assert(r[5] == 0 && r[6] == version && r[7] == flags && r[8] == 0);
    let ttl = be32(r[5], r[6], r[7], r[8]);
    assert(ttl == version as int * 65536 + flags as int * 256);
    assert(ttl / 16777216 == 0);
    assert((ttl / 65536) % 256 == version) by {
        assert(ttl / 65536 == version as int);
    }
    assert((ttl / 256) % 256 == flags) by {
        assert(ttl / 256 == version as int * 256 + flags as int);
    }
    assert(be16(r[3], r[4]) == udp_payload_size);
}

/// Reading back the Client Subnet option built for a query gives its family,
/// its source prefix, scope prefix 0, and the address truncated to the
/// prefix (bits beyond it cleared, the rest zero).
pub proof fn lemma_client_subnet_roundtrip(addr: IpAddress, source_prefix: u8)
    requires
        source_prefix <= 8 * address_family(addr).1.len(),
    ensures
        ({
            let (family, octets) = address_family(addr);
            let data = u16_bytes(family) + seq![source_prefix, 0u8] + subnet_address(
                octets,
                source_prefix,
            );
            let kept = subnet_address(octets, source_prefix);
            spec_client_subnet(data) == Some(
                ClientSubnetView {
                    family,
                    source_prefix,
                    scope_prefix: 0,
                    address: if family == 1 {
                        ipv4_text(padded(kept, 4))
                    } else {
                        ipv6_text(padded(kept, 16))
                    },
                },
            )
        }),
{
    let (family, octets) = address_family(addr);
    let kept = subnet_address(octets, source_prefix);
    let data = u16_bytes(family) + seq![source_prefix, 0u8] + kept;
    assert(data.subrange(4, data.len() as int) =~= kept);
    assert(be16(data[0], data[1]) == family);
}

/// The Client Subnet and NSID that a list of options holds, given those
/// found before: taken in order, each option of a kind replaces the earlier
/// one, and other codes are skipped.
pub open spec fn options_found(
    os: Seq<EdnsOptionView>,
    subnet: Option<ClientSubnetView>,
    nsid: Option<NsidView>,
) -> (Option<ClientSubnetView>, Option<NsidView>)
    decreases os.len(),
{
    if os.len() == 0 {
        (subnet, nsid)
    } else if os[0].code == OPTION_CLIENT_SUBNET {
        options_found(os.skip(1), spec_client_subnet(os[0].data), nsid)
    } else if os[0].code == OPTION_NSID {
        options_found(os.skip(1), subnet, Some(spec_nsid(os[0].data)))
    } else {
        options_found(os.skip(1), subnet, nsid)
    }
}

/// The wire form and length of options, read from the front: the first
/// option, then the rest.
proof fn lemma_options_wire_front(os: Seq<EdnsOptionView>)
    requires
        os.len() > 0,
    ensures
        options_wire(os) == u16_bytes(os[0].code) + u16_bytes(os[0].data.len() as u16) + os[0].data
            + options_wire(os.skip(1)),
        options_len(os) == 4 + os[0].data.len() + options_len(os.skip(1)),
    decreases os.len(),
{
    if os.len() == 1 {
        assert(os.skip(1) =~= Seq::<EdnsOptionView>::empty());
        assert(os.drop_last() =~= Seq::<EdnsOptionView>::empty());
        assert(options_wire(os) =~= u16_bytes(os[0].code) + u16_bytes(os[0].data.len() as u16)
            + os[0].data + options_wire(os.skip(1)));
    } else {
        lemma_options_wire_front(os.drop_last());
        assert(os.drop_last().skip(1) =~= os.skip(1).drop_last());
        assert(os.skip(1).last() == os.last());
        assert(options_wire(os) =~= u16_bytes(os[0].code) + u16_bytes(os[0].data.len() as u16)
            + os[0].data + options_wire(os.skip(1)));
    }
}

/// Scanning the wire form of options that ends the buffer finds what the
/// options themselves hold.
proof fn lemma_options_scan(
    d: Seq<u8>,
    pos: int,
    os: Seq<EdnsOptionView>,
    subnet: Option<ClientSubnetView>,
    nsid: Option<NsidView>,
)
    requires
        0 <= pos <= d.len(),
        d.skip(pos) == options_wire(os),
        options_len(os) <= 0xFFFF,
    ensures
        scan_options(d, pos, subnet, nsid) == options_found(os, subnet, nsid),
    decreases os.len(),
{
    lemma_options_wire_len(os);
    if os.len() > 0 {
        lemma_options_wire_front(os);
        let o = os[0];
        let n = o.data.len() as int;
        let w = options_wire(os);
        lemma_u16_bytes_roundtrip(o.code);
        lemma_u16_bytes_roundtrip(n as u16);
        assert forall|k: int| 0 <= k < w.len() implies d[pos + k] == w[k] by {
            assert(d.skip(pos)[k] == d[pos + k]);
        }
        let head = u16_bytes(o.code) + u16_bytes(n as u16);
        let rest = options_wire(os.skip(1));
        assert(w == head + o.data + rest);
        assert(d[pos] == w[0] && d[pos + 1] == w[1] && d[pos + 2] == w[2] && d[pos + 3] == w[3]);
        assert forall|k: int| 0 <= k < n implies d[pos + 4 + k] == o.data[k] by {
            assert(d[pos + (4 + k)] == w[4 + k]);
        }
        assert forall|k: int| 0 <= k < rest.len() implies d[pos + 4 + n + k] == rest[k] by {
            assert(d[pos + (4 + n + k)] == w[4 + n + k]);
        }
        assert(be16(d[pos], d[pos + 1]) == o.code);
        assert(be16(d[pos + 2], d[pos + 3]) == n);
        let start = pos + 4;
        assert(d.subrange(start, start + n) =~= o.data);
        assert(d.skip(start + n) =~= rest);
        lemma_options_scan(d, start + n, os.skip(1), spec_client_subnet(o.data), nsid);
        lemma_options_scan(d, start + n, os.skip(1), subnet, Some(spec_nsid(o.data)));
        lemma_options_scan(d, start + n, os.skip(1), subnet, nsid);
    }
}

/// Reading back the option list that a query carries finds the options it
/// was built with: in order, each Client Subnet or NSID option replaces the
/// earlier one of its kind, when the list fits its 16-bit length field.
pub proof fn lemma_options_roundtrip(os: Seq<EdnsOptionView>)
    requires
        options_len(os) <= 0xFFFF,
    ensures
        scan_options(options_wire(os), 0, None, None) == options_found(os, None, None),
{
    assert(options_wire(os).skip(0) =~= options_wire(os));
    lemma_options_scan(options_wire(os), 0, os, None, None);
}

} // verus!
