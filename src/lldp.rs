//! LLDP (IEEE 802.1AB) frame decoding: the TLV walk and the identifiers,
//! addresses and capability bits it carries.
use vstd::prelude::*;
use crate::packet::be16;
use crate::text::{dotted_dec, grouped_hex, hex_text, push_char, push_dotted_dec, push_grouped_hex, push_hex};
use crate::topology::{DeviceCapability, LldpInfo};

verus! {

pub const TLV_END: u8 = 0;
pub const TLV_CHASSIS_ID: u8 = 1;
pub const TLV_PORT_ID: u8 = 2;
pub const TLV_TTL: u8 = 3;
pub const TLV_PORT_DESCRIPTION: u8 = 4;
pub const TLV_SYSTEM_NAME: u8 = 5;
pub const TLV_SYSTEM_DESCRIPTION: u8 = 6;
pub const TLV_SYSTEM_CAPABILITIES: u8 = 7;
pub const TLV_MANAGEMENT_ADDRESS: u8 = 8;
pub const TLV_ORGANIZATION_SPECIFIC: u8 = 127;

pub const CAP_OTHER: u16 = 0x0001;
pub const CAP_REPEATER: u16 = 0x0002;
pub const CAP_BRIDGE: u16 = 0x0004;
pub const CAP_WLAN_AP: u16 = 0x0008;
pub const CAP_ROUTER: u16 = 0x0010;
pub const CAP_TELEPHONE: u16 = 0x0020;
pub const CAP_DOCSIS_CABLE: u16 = 0x0040;
pub const CAP_STATION_ONLY: u16 = 0x0080;
pub const CAP_CVLAN: u16 = 0x0100;
pub const CAP_SVLAN: u16 = 0x0200;
pub const CAP_TWO_PORT_MAC: u16 = 0x0400;

/// What `String::from_utf8_lossy` makes of some bytes.
pub uninterp spec fn utf8_lossy(b: Seq<u8>) -> Seq<char>;

/// Characters with the Unicode White_Space property.
pub open spec fn is_white_space(c: char) -> bool {
    c == '\t' || c == '\n' || c == '\x0B' || c == '\x0C' || c == '\r' || c == ' ' || c == '\u{85}' || c == '\u{A0}'
        || c == '\u{1680}' || ('\u{2000}' <= c && c <= '\u{200A}') || c == '\u{2028}' || c == '\u{2029}' || c == '\u{202F}'
        || c == '\u{205F}' || c == '\u{3000}'
}

/// `s` without its leading white space.
pub open spec fn trim_start_of(s: Seq<char>) -> Seq<char>
    decreases s.len(),
{
    if s.len() > 0 && is_white_space(s[0]) { trim_start_of(s.drop_first()) } else { s }
}

/// `s` without its trailing white space.
pub open spec fn trim_end_of(s: Seq<char>) -> Seq<char>
    decreases s.len(),
{
    if s.len() > 0 && is_white_space(s.last()) { trim_end_of(s.drop_last()) } else { s }
}

/// `s` without leading and trailing white space.
pub open spec fn trim_of(s: Seq<char>) -> Seq<char> {
    trim_end_of(trim_start_of(s))
}

/// Relies on `String::from_utf8_lossy`: the text depends on the bytes alone.
#[verifier::external_body]
fn lossy_text(b: &[u8]) -> (r: String)
    ensures
        r@ == utf8_lossy(b@),
{
    String::from_utf8_lossy(b).into_owned()
}

/// Relies on `str::trim`: leading and trailing characters with the Unicode
/// White_Space property are removed.
#[verifier::external_body]
fn trimmed(s: &str) -> (r: String)
    ensures
        r@ == trim_of(s@),
{
    s.trim().to_string()
}

/// Printable ASCII or ASCII white space.
pub open spec fn is_plain_char(c: char) -> bool {
    ('!' <= c && c <= '~') || c == ' ' || c == '\t' || c == '\n' || c == '\x0C' || c == '\r'
}

pub open spec fn all_plain(s: Seq<char>) -> bool {
    forall|i: int| 0 <= i < s.len() ==> is_plain_char(#[trigger] s[i])
}

/// Lower-case hex digits of each byte, without separators.
pub open spec fn hex_encode(b: Seq<u8>) -> Seq<char> {
    grouped_hex(b, 0, ' ')
}

pub open spec fn text_of(b: Seq<u8>) -> Seq<char> {
    trim_of(utf8_lossy(b))
}

/// The eight 16-bit groups of an IPv6 address in short hex, colon separated.
pub open spec fn short_groups(a: Seq<u8>, n: nat) -> Seq<char>
    decreases n,
{
    if n == 0 {
        Seq::empty()
    } else if n == 1 {
        hex_text(be16(a, 0) as nat)
    } else {
        short_groups(a, (n - 1) as nat).push(':') + hex_text(be16(a, 2 * (n - 1)) as nat)
    }
}

/// An address of an IANA family: IPv4 (1), IPv6 (2) or MAC (6); hex otherwise.
pub open spec fn network_address_text(d: Seq<u8>) -> Seq<char> {
    if d.len() == 0 {
        Seq::empty()
    } else {
        let a = d.subrange(1, d.len() as int);
        if d[0] == 1 && a.len() >= 4 {
            dotted_dec(a.subrange(0, 4))
        } else if d[0] == 2 && a.len() >= 16 {
            short_groups(a, 8)
        } else if d[0] == 6 && a.len() >= 6 {
            grouped_hex(a.subrange(0, 6), 1, ':')
        } else {
            hex_encode(a)
        }
    }
}

/// A chassis or port identifier of the given subtype.
pub open spec fn id_text(d: Seq<u8>, subtype: u8) -> Seq<char> {
    if subtype == 3 || subtype == 4 {
        if d.len() >= 6 { grouped_hex(d.subrange(0, 6), 1, ':') } else { hex_encode(d) }
    } else if subtype == 5 {
        network_address_text(d)
    } else if subtype == 1 || subtype == 2 || subtype == 6 || subtype == 7 {
        text_of(d)
    } else if all_plain(text_of(d)) {
        text_of(d)
    } else {
        hex_encode(d)
    }
}

pub open spec fn management_address_of(d: Seq<u8>) -> Option<Seq<char>> {
    if d.len() < 2 || d.len() < 1 + d[0] {
        None
    } else {
        Some(network_address_text(d.subrange(1, 1 + d[0])))
    }
}

/// The capabilities whose bits are set, in bit order.
pub open spec fn caps_of(c: u16) -> Seq<DeviceCapability> {
    let s0 = Seq::<DeviceCapability>::empty();
    let s1 = if c & CAP_OTHER != 0 { s0.push(DeviceCapability::Other) } else { s0 };
    let s2 = if c & CAP_REPEATER != 0 { s1.push(DeviceCapability::Repeater) } else { s1 };
    let s3 = if c & CAP_BRIDGE != 0 { s2.push(DeviceCapability::Bridge) } else { s2 };
    let s4 = if c & CAP_WLAN_AP != 0 { s3.push(DeviceCapability::WlanAP) } else { s3 };
    let s5 = if c & CAP_ROUTER != 0 { s4.push(DeviceCapability::Router) } else { s4 };
    let s6 = if c & CAP_TELEPHONE != 0 { s5.push(DeviceCapability::Telephone) } else { s5 };
    let s7 = if c & CAP_DOCSIS_CABLE != 0 { s6.push(DeviceCapability::DocsisCableDevice) } else { s6 };
    let s8 = if c & CAP_STATION_ONLY != 0 { s7.push(DeviceCapability::StationOnly) } else { s7 };
    let s9 = if c & CAP_CVLAN != 0 { s8.push(DeviceCapability::CVlanComponent) } else { s8 };
    let s10 = if c & CAP_SVLAN != 0 { s9.push(DeviceCapability::SVlanComponent) } else { s9 };
    if c & CAP_TWO_PORT_MAC != 0 { s10.push(DeviceCapability::TwoPortMacRelay) } else { s10 }
}

fn push_cap(v: &mut Vec<DeviceCapability>, set: bool, c: DeviceCapability)
    ensures
        final(v)@ == if set { old(v)@.push(c) } else { old(v)@ },
{
    if set {
        v.push(c);
    }
}

/// The capabilities whose bits are set in `caps`, in bit order.
pub fn parse_capabilities(caps: u16) -> (r: Vec<DeviceCapability>)
    ensures
        r@ == caps_of(caps),
{
    let mut r: Vec<DeviceCapability> = Vec::new();
    push_cap(&mut r, caps & CAP_OTHER != 0, DeviceCapability::Other);
    push_cap(&mut r, caps & CAP_REPEATER != 0, DeviceCapability::Repeater);
    push_cap(&mut r, caps & CAP_BRIDGE != 0, DeviceCapability::Bridge);
    push_cap(&mut r, caps & CAP_WLAN_AP != 0, DeviceCapability::WlanAP);
    push_cap(&mut r, caps & CAP_ROUTER != 0, DeviceCapability::Router);
    push_cap(&mut r, caps & CAP_TELEPHONE != 0, DeviceCapability::Telephone);
    push_cap(&mut r, caps & CAP_DOCSIS_CABLE != 0, DeviceCapability::DocsisCableDevice);
    push_cap(&mut r, caps & CAP_STATION_ONLY != 0, DeviceCapability::StationOnly);
    push_cap(&mut r, caps & CAP_CVLAN != 0, DeviceCapability::CVlanComponent);
    push_cap(&mut r, caps & CAP_SVLAN != 0, DeviceCapability::SVlanComponent);
    push_cap(&mut r, caps & CAP_TWO_PORT_MAC != 0, DeviceCapability::TwoPortMacRelay);
    r
}

/// Lower-case hex of each byte, without separators.
pub fn encode(data: &[u8]) -> (r: String)
    ensures
        r@ == hex_encode(data@),
{
    let mut s = String::new();
    push_grouped_hex(&mut s, data, 0, data.len(), 0, ' ');
    assert(data@.subrange(0, data@.len() as int) =~= data@);
    s
}

fn text_from(data: &[u8]) -> (r: String)
    ensures
        r@ == text_of(data@),
{
    let raw = lossy_text(data);
    trimmed(raw.as_str())
}

fn is_plain(c: char) -> (r: bool)
    ensures
        r == is_plain_char(c),
{
    ('!' <= c && c <= '~') || c == ' ' || c == '\t' || c == '\n' || c == '\x0C' || c == '\r'
}

fn plain_text(s: &String) -> (r: bool)
    ensures
        r == all_plain(s@),
{
    let n = s.as_str().unicode_len();
    let mut i: usize = 0;
    while i < n
        invariant
            n == s@.len(),
            i <= n,
            forall|k: int| 0 <= k < i ==> is_plain_char(#[trigger] s@[k]),
        decreases n - i,
    {
        let c = s.as_str().get_char(i);
        if !is_plain(c) {
            return false;
        }
        i = i + 1;
    }
    true
}

/// Appends the eight groups of the IPv6 address at `a[start..start + 16]`.
fn short_ipv6(a: &[u8], start: usize) -> (r: String)
    requires
        start + 16 <= a@.len(),
    ensures
        r@ == short_groups(a@.subrange(start as int, start + 16), 8),
{
    let ghost g = a@.subrange(start as int, start + 16);
    let len = a.len();
    let mut s = String::new();
    let mut k: usize = 0;
    while k < 8
        invariant
            start + 16 <= a@.len(),
            len == a@.len(),
            g == a@.subrange(start as int, start + 16),
            k <= 8,
            s@ == short_groups(g, k as nat),
        decreases 8 - k,
    {
        if k > 0 {
            push_char(&mut s, ':');
        }
        let v = crate::packet::read_be16(a, start + 2 * k);
        assert(v == be16(g, 2 * k));
        push_hex(&mut s, v as u64);
        k = k + 1;
    }
    s
}

/// Text of an address led by its IANA family number.
fn parse_network_address(data: &[u8]) -> (r: String)
    ensures
        r@ == network_address_text(data@),
{
    if data.len() == 0 {
        return String::new();
    }
    let fam = data[0];
    let n = data.len() - 1;
    let ghost a = data@.subrange(1, data@.len() as int);
    let mut s = String::new();
    if fam == 1 && n >= 4 {
        push_dotted_dec(&mut s, data, 1, 5);
        assert(a.subrange(0, 4) =~= data@.subrange(1, 5));
        s
    } else if fam == 2 && n >= 16 {
        let r = short_ipv6(data, 1);
        assert(a.subrange(0, 16) =~= data@.subrange(1, 17));
        assert(short_groups(a, 8) == short_groups(a.subrange(0, 16), 8)) by {
            lemma_short_groups_prefix(a, 8);
        }
        r
    } else if fam == 6 && n >= 6 {
        push_grouped_hex(&mut s, data, 1, 7, 1, ':');
        assert(a.subrange(0, 6) =~= data@.subrange(1, 7));
        s
    } else {
        push_grouped_hex(&mut s, data, 1, data.len(), 0, ' ');
        s
    }
}

/// Only the first `2n` bytes matter to `short_groups(a, n)`.
proof fn lemma_short_groups_prefix(a: Seq<u8>, n: nat)
    requires
        2 * n <= a.len(),
    ensures
        short_groups(a, n) == short_groups(a.subrange(0, 2 * n as int), n),
    decreases n,
{
    if n > 1 {
        lemma_short_groups_prefix(a, (n - 1) as nat);
        let b = a.subrange(0, 2 * n as int);
        assert(b.subrange(0, 2 * (n - 1)) =~= a.subrange(0, 2 * (n - 1)));
        lemma_short_groups_prefix(b, (n - 1) as nat);
        assert(be16(b, 2 * (n - 1)) == be16(a, 2 * (n - 1)));
    } else if n == 1 {
        assert(be16(a.subrange(0, 2), 0) == be16(a, 0));
    }
}

/// A chassis or port identifier of the given subtype.
fn parse_id(data: &[u8], subtype: u8) -> (r: String)
    ensures
        r@ == id_text(data@, subtype),
{
    if subtype == 3 || subtype == 4 {
        if data.len() >= 6 {
            let mut s = String::new();
            push_grouped_hex(&mut s, data, 0, 6, 1, ':');
            s
        } else {
            encode(data)
        }
    } else if subtype == 5 {
        parse_network_address(data)
    } else if subtype == 1 || subtype == 2 || subtype == 6 || subtype == 7 {
        text_from(data)
    } else {
        let s = text_from(data);
        if plain_text(&s) {
            s
        } else {
            encode(data)
        }
    }
}

/// The address of a management-address TLV: a length byte, then the address.
fn parse_management_address(data: &[u8]) -> (r: Option<String>)
    ensures
        match r {
            Some(s) => management_address_of(data@) == Some(s@),
            None => management_address_of(data@).is_none(),
        },
{
    if data.len() < 2 {
        return None;
    }
    let l = data[0] as usize;
    if data.len() < 1 + l {
        return None;
    }
    Some(parse_network_address(&data[1..1 + l]))
}


/// The fields of an `LldpInfo` as text.
pub struct LldpModel {
    pub chassis_id: Seq<char>,
    pub chassis_id_subtype: u8,
    pub port_id: Seq<char>,
    pub port_id_subtype: u8,
    pub port_description: Option<Seq<char>>,
    pub system_name: Option<Seq<char>>,
    pub system_description: Option<Seq<char>>,
    pub system_capabilities: Seq<DeviceCapability>,
    pub enabled_capabilities: Seq<DeviceCapability>,
    pub management_addresses: Seq<Seq<char>>,
}

pub open spec fn lldp_view(i: LldpInfo) -> LldpModel {
    LldpModel {
        chassis_id: i.chassis_id@,
        chassis_id_subtype: i.chassis_id_subtype,
        port_id: i.port_id@,
        port_id_subtype: i.port_id_subtype,
        port_description: crate::packet::opt_text(i.port_description),
        system_name: crate::packet::opt_text(i.system_name),
        system_description: crate::packet::opt_text(i.system_description),
        system_capabilities: i.system_capabilities@,
        enabled_capabilities: i.enabled_capabilities@,
        management_addresses: i.management_addresses@.map_values(|s: String| s@),
    }
}

pub open spec fn empty_model() -> LldpModel {
    LldpModel {
        chassis_id: Seq::empty(),
        chassis_id_subtype: 0,
        port_id: Seq::empty(),
        port_id_subtype: 0,
        port_description: None,
        system_name: None,
        system_description: None,
        system_capabilities: Seq::empty(),
        enabled_capabilities: Seq::empty(),
        management_addresses: Seq::empty(),
    }
}

/// The effect of one TLV of type `t` with value `v`.
pub open spec fn apply_tlv(m: LldpModel, t: u8, v: Seq<u8>) -> LldpModel {
    if t == TLV_CHASSIS_ID && v.len() >= 1 {
        LldpModel { chassis_id_subtype: v[0], chassis_id: id_text(v.subrange(1, v.len() as int), v[0]), ..m }
    } else if t == TLV_PORT_ID && v.len() >= 1 {
        LldpModel { port_id_subtype: v[0], port_id: id_text(v.subrange(1, v.len() as int), v[0]), ..m }
    } else if t == TLV_PORT_DESCRIPTION {
        LldpModel { port_description: Some(text_of(v)), ..m }
    } else if t == TLV_SYSTEM_NAME {
        LldpModel { system_name: Some(text_of(v)), ..m }
    } else if t == TLV_SYSTEM_DESCRIPTION {
        LldpModel { system_description: Some(text_of(v)), ..m }
    } else if t == TLV_SYSTEM_CAPABILITIES && v.len() >= 4 {
        LldpModel {
            system_capabilities: caps_of(be16(v, 0)),
            enabled_capabilities: caps_of(be16(v, 2)),
            ..m
        }
    } else if t == TLV_MANAGEMENT_ADDRESS && management_address_of(v).is_some() {
        LldpModel {
            management_addresses: m.management_addresses.push(management_address_of(v).unwrap()),
            ..m
        }
    } else {
        m
    }
}

/// TLV type (high 7 bits) and length (low 9 bits) of the header at `off`.
pub open spec fn tlv_type(d: Seq<u8>, off: int) -> u8 {
    (be16(d, off) >> 9u16) as u8
}

pub open spec fn tlv_len(d: Seq<u8>, off: int) -> int {
    (be16(d, off) & 0x01FF) as int
}

/// Applies the TLVs from `off` on, up to an End TLV, a TLV that overruns
/// the frame, or the last byte.
pub open spec fn tlv_walk(d: Seq<u8>, off: int, m: LldpModel) -> LldpModel
    decreases d.len() - off,
{
    if off < 0 || off + 1 >= d.len() {
        m
    } else if off + 2 + tlv_len(d, off) > d.len() || tlv_type(d, off) == TLV_END {
        m
    } else {
        let v = d.subrange(off + 2, off + 2 + tlv_len(d, off));
        tlv_walk(d, off + 2 + tlv_len(d, off), apply_tlv(m, tlv_type(d, off), v))
    }
}

/// Offset of the first TLV: after EtherType 0x88CC, with or without an
/// 802.1Q tag in front of it.
pub open spec fn lldp_start(d: Seq<u8>) -> Option<int> {
    let off = if d.len() > 16 && d[12] == 0x81 && d[13] == 0x00 { 18int } else { 14int };
    if d.len() < off + 2 {
        None
    } else if be16(d, off - 2) == 0x88CC {
        Some(off)
    } else if d.len() > 14 && d[12] == 0x88 && d[13] == 0xCC {
        Some(14)
    } else {
        None
    }
}

/// The decoded LLDP data unit of frame `d`, if it names both a chassis and a port.
pub open spec fn lldp_of(d: Seq<u8>) -> Option<LldpModel> {
    match lldp_start(d) {
        Some(off) => {
            let m = tlv_walk(d, off, empty_model());
            if m.chassis_id.len() == 0 || m.port_id.len() == 0 { None } else { Some(m) }
        },
        None => None,
    }
}

/// Decodes an LLDP frame; `None` when it is not LLDP or lacks the chassis or
/// port identifier.
pub fn parse_lldp_packet(data: &[u8]) -> (r: Option<LldpInfo>)
    ensures
        match r {
            Some(i) => lldp_of(data@) == Some(lldp_view(i)),
            None => lldp_of(data@).is_none(),
        },
{
    let ghost d = data@;
    let n = data.len();
    let mut offset: usize = if n > 16 && data[12] == 0x81 && data[13] == 0x00 { 18 } else { 14 };
    if n < offset + 2 {
        return None;
    }
    if crate::packet::read_be16(data, offset - 2) != 0x88CC {
        if n > 14 && data[12] == 0x88 && data[13] == 0xCC {
            offset = 14;
        } else {
            return None;
        }
    }
    let ghost start = offset as int;
    let mut info = LldpInfo {
        chassis_id: String::new(),
        chassis_id_subtype: 0,
        port_id: String::new(),
        port_id_subtype: 0,
        port_description: None,
        system_name: None,
        system_description: None,
        system_capabilities: Vec::new(),
        enabled_capabilities: Vec::new(),
        management_addresses: Vec::new(),
    };
    assert(info.management_addresses@.map_values(|s: String| s@) =~= Seq::<Seq<char>>::empty());
    assert(info.system_capabilities@ =~= Seq::<DeviceCapability>::empty());
    assert(info.enabled_capabilities@ =~= Seq::<DeviceCapability>::empty());
    assert(lldp_view(info) == empty_model());
    while n - offset > 1
        invariant
            n == d.len(),
            d == data@,
            offset <= n,
            tlv_walk(d, start, empty_model()) == tlv_walk(d, offset as int, lldp_view(info)),
        ensures
            tlv_walk(d, offset as int, lldp_view(info)) == lldp_view(info),
        decreases n - offset,
    {
        let header = crate::packet::read_be16(data, offset);
        assert(header >> 9u16 <= 127) by (bit_vector);
        assert(header & 0x01FF <= 511) by (bit_vector);
        let t = (header >> 9u16) as u8;
        let len = (header & 0x01FF) as usize;
        let v_start = offset + 2;
        if len > n - v_start {
            assert(tlv_walk(d, offset as int, lldp_view(info)) == lldp_view(info));
            break;
        }
        if t == TLV_END {
            assert(tlv_walk(d, offset as int, lldp_view(info)) == lldp_view(info));
            break;
        }
        let v = &data[v_start..v_start + len];
        let ghost m0 = lldp_view(info);
        if t == TLV_CHASSIS_ID {
            if len >= 1 {
                info.chassis_id_subtype = v[0];
                info.chassis_id = parse_id(&v[1..len], v[0]);
            }
        } else if t == TLV_PORT_ID {
            if len >= 1 {
                info.port_id_subtype = v[0];
                info.port_id = parse_id(&v[1..len], v[0]);
            }
        } else if t == TLV_PORT_DESCRIPTION {
            info.port_description = Some(text_from(v));
        } else if t == TLV_SYSTEM_NAME {
            info.system_name = Some(text_from(v));
        } else if t == TLV_SYSTEM_DESCRIPTION {
            info.system_description = Some(text_from(v));
        } else if t == TLV_SYSTEM_CAPABILITIES {
            if len >= 4 {
                info.system_capabilities = parse_capabilities(crate::packet::read_be16(v, 0));
                info.enabled_capabilities = parse_capabilities(crate::packet::read_be16(v, 2));
            }
        } else if t == TLV_MANAGEMENT_ADDRESS {
            match parse_management_address(v) {
                Some(a) => {
                    let ghost before = info.management_addresses@;
                    info.management_addresses.push(a);
                    assert(info.management_addresses@.map_values(|s: String| s@) =~= before.map_values(
                        |s: String| s@,
                    ).push(a@));
                },
                None => {},
            }
        }
        assert(lldp_view(info) =~= apply_tlv(m0, t, v@));
        offset = v_start + len;
    }
    assert(tlv_walk(d, offset as int, lldp_view(info)) == lldp_view(info));
    assert(lldp_start(d) == Some(start));
    if info.chassis_id.as_str().unicode_len() == 0 || info.port_id.as_str().unicode_len() == 0 {
        return None;
    }
    Some(info)
}

} // verus!
