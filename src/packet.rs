//! Decoding of one Ethernet frame into a typed record, and TSN classification.
use vstd::prelude::*;
use crate::text::{
    dec_text, dotted_dec, grouped_hex, hex4_upper, mac_string, ipv4_string, push_char, push_dec,
    push_grouped_hex, push_hex4_upper,
};

verus! {

#[derive(Clone, Copy, Debug, PartialEq, Eq, Structural)]
pub struct TcpFlags {
    pub fin: bool,
    pub syn: bool,
    pub rst: bool,
    pub psh: bool,
    pub ack: bool,
    pub urg: bool,
    pub ece: bool,
    pub cwr: bool,
}

/// Header fields decoded from one frame. Absent fields are `None`.
#[derive(Clone, Debug)]
pub struct PacketInfo {
    pub src_mac: String,
    pub dst_mac: String,
    pub ethertype: u16,
    pub ethertype_name: String,
    pub vlan_id: Option<u16>,
    pub vlan_pcp: Option<u8>,
    pub src_ip: Option<String>,
    pub dst_ip: Option<String>,
    pub protocol: Option<String>,
    pub src_port: Option<u16>,
    pub dst_port: Option<u16>,
    pub is_ptp: bool,
    pub is_tsn: bool,
    pub tcp_flags: Option<TcpFlags>,
    pub seq_num: Option<u32>,
    pub ack_num: Option<u32>,
    pub window_size: Option<u16>,
    pub icmp_type: Option<u8>,
    pub icmp_code: Option<u8>,
    pub arp_op: Option<u16>,
    pub ttl: Option<u8>,
    pub ip_id: Option<u16>,
}

#[derive(Clone, Copy, Debug, PartialEq, Eq, Structural)]
pub enum TsnType {
    Ptp,
    Cbs,
    Tas,
    Frer,
    Srp,
    Standard,
}

#[derive(Clone, Debug)]
pub struct PtpInfo {
    pub message_type: String,
    pub version: u8,
    pub domain: u8,
    pub sequence_id: u16,
    pub source_port_identity: String,
    pub correction_field: i64,
}

#[derive(Clone, Debug)]
pub struct CbsInfo {
    pub idle_slope: Option<u32>,
    pub send_slope: Option<i32>,
    pub hi_credit: Option<i32>,
    pub lo_credit: Option<i32>,
    pub traffic_class: u8,
}

#[derive(Clone, Debug)]
pub struct TsnInfo {
    pub stream_id: Option<String>,
    pub sequence_number: Option<u32>,
    pub traffic_class: Option<u8>,
    pub priority: Option<u8>,
    pub tsn_type: TsnType,
    pub ptp_info: Option<PtpInfo>,
    pub cbs_info: Option<CbsInfo>,
}

/// One captured frame. `timestamp_us` is wall-clock time in microseconds
/// since the Unix epoch.
#[derive(Clone, Debug)]
pub struct CapturedPacket {
    pub id: u64,
    pub timestamp_us: i64,
    /// Nanoseconds past `timestamp_us` (0 to 999), for sources with that precision.
    pub timestamp_sub_us_ns: u16,
    pub length: u32,
    pub data: Vec<u8>,
    pub info: PacketInfo,
    pub tsn_info: Option<TsnInfo>,
}

// ---------------------------------------------------------------------------
// Byte-level model of a frame.

pub open spec fn be16(d: Seq<u8>, i: int) -> u16 {
    (d[i] as int * 256 + d[i + 1] as int) as u16
}

pub open spec fn be32(d: Seq<u8>, i: int) -> u32 {
    (d[i] as int * 16777216 + d[i + 1] as int * 65536 + d[i + 2] as int * 256
        + d[i + 3] as int) as u32
}

pub open spec fn be64(d: Seq<u8>, i: int) -> u64 {
    (be32(d, i) as int * 4294967296 + be32(d, i + 4) as int) as u64
}

pub open spec fn opt_text(o: Option<String>) -> Option<Seq<char>> {
    match o {
        Some(s) => Some(s@),
        None => None,
    }
}

/// A frame tagged with an 802.1Q header that is long enough to hold it.
pub open spec fn has_vlan(d: Seq<u8>) -> bool {
    d.len() >= 18 && be16(d, 12) == 0x8100
}

/// Offset of the EtherType/length field that follows the addresses and tag.
pub open spec fn type_offset(d: Seq<u8>) -> int {
    if has_vlan(d) { 16 } else { 12 }
}

/// Offset of the network-layer header.
pub open spec fn l3_offset(d: Seq<u8>) -> int {
    type_offset(d) + 2
}

pub open spec fn vlan_tci(d: Seq<u8>) -> u16 {
    be16(d, 14)
}

pub open spec fn vlan_id_of(d: Seq<u8>) -> Option<u16> {
    if d.len() >= 14 && has_vlan(d) { Some(vlan_tci(d) & 0x0FFF) } else { None }
}

pub open spec fn vlan_pcp_of(d: Seq<u8>) -> Option<u8> {
    if d.len() >= 14 && has_vlan(d) { Some((vlan_tci(d) >> 13u16) as u8) } else { None }
}

/// The EtherType, with 802.3 LLC frames mapped to markers: SNAP takes the
/// encapsulated type, STP is 0x0026, any other LLC is 0x0001 ("802.3").
pub open spec fn ethertype_of(d: Seq<u8>) -> u16 {
    let t = be16(d, type_offset(d));
    let llc = type_offset(d) + 2;
    if t > 1500 {
        t
    } else if d.len() >= llc + 3 {
        if d[llc] == 0xAA && d[llc + 1] == 0xAA && d.len() >= llc + 8 {
            be16(d, llc + 6)
        } else if d[llc] == 0x42 && d[llc + 1] == 0x42 {
            0x0026
        } else {
            0x0001
        }
    } else {
        0x0001
    }
}

pub open spec fn ethertype_name_of(e: u16) -> Seq<char> {
    if e == 0x0001 { "802.3"@ }
    else if e == 0x0026 { "STP"@ }
    else if e == 0x0800 { "IPv4"@ }
    else if e == 0x0806 { "ARP"@ }
    else if e == 0x86DD { "IPv6"@ }
    else if e == 0x8100 { "VLAN"@ }
    else if e == 0x88A8 { "QinQ"@ }
    else if e == 0x88F7 { "PTP"@ }
    else if e == 0x22F0 { "802.1Qat SRP"@ }
    else if e == 0x88B8 { "GOOSE"@ }
    else if e == 0x88BA { "SV"@ }
    else if e == 0x88CC { "LLDP"@ }
    else if e == 0x88E5 { "MACsec"@ }
    else if e == 0x893A { "IEEE 1905"@ }
    else if e == 0x8899 { "RRCP"@ }
    else if e == 0x9000 { "Loopback"@ }
    else if e == 0x0842 { "WoL"@ }
    else if e == 0x8035 { "RARP"@ }
    else if e == 0x809B { "AppleTalk"@ }
    else if e == 0x80F3 { "AARP"@ }
    else if e == 0x8137 { "IPX"@ }
    else if e == 0x8863 { "PPPoE-D"@ }
    else if e == 0x8864 { "PPPoE-S"@ }
    else if e == 0x88E1 { "HomePlug"@ }
    else if e == 0x8902 { "CFM"@ }
    else if e == 0x22EA { "SRP"@ }
    else if e == 0x2000 { "CDP"@ }
    else if e == 0x2004 { "CGMP"@ }
    else if e == 0x887B { "HomePlug"@ }
    else if e == 0x887E { "MVRP"@ }
    else if e == 0x8880 { "MRP"@ }
    else { hex4_upper(e) }
}

pub open spec fn is_ipv4(d: Seq<u8>) -> bool {
    d.len() >= 14 && ethertype_of(d) == 0x0800 && d.len() >= l3_offset(d) + 20
}

pub open spec fn is_ipv6(d: Seq<u8>) -> bool {
    d.len() >= 14 && ethertype_of(d) == 0x86DD && d.len() >= l3_offset(d) + 40
}

pub open spec fn is_arp(d: Seq<u8>) -> bool {
    d.len() >= 14 && ethertype_of(d) == 0x0806 && d.len() >= l3_offset(d) + 8
}

/// The transport protocol number and the offset of the transport header.
pub open spec fn transport_of(d: Seq<u8>) -> Option<(u8, int)> {
    let ip = l3_offset(d);
    if is_ipv4(d) {
        Some((d[ip + 9], ip + ((d[ip] & 0x0F) as int) * 4))
    } else if is_ipv6(d) {
        Some((d[ip + 6], ip + 40))
    } else {
        None
    }
}

pub open spec fn tcp_at(d: Seq<u8>) -> Option<int> {
    match transport_of(d) {
        Some((p, t)) => if p == 6 && d.len() >= t + 20 { Some(t) } else { None },
        None => None,
    }
}

pub open spec fn udp_at(d: Seq<u8>) -> Option<int> {
    match transport_of(d) {
        Some((p, t)) => if p == 17 && d.len() >= t + 4 { Some(t) } else { None },
        None => None,
    }
}

pub open spec fn icmp_at(d: Seq<u8>) -> Option<int> {
    match transport_of(d) {
        Some((p, t)) => if ((is_ipv4(d) && p == 1) || (!is_ipv4(d) && p == 58)) && d.len() >= t + 2 {
            Some(t)
        } else {
            None
        },
        None => None,
    }
}

pub open spec fn src_port_of(d: Seq<u8>) -> Option<u16> {
    match tcp_at(d) {
        Some(t) => Some(be16(d, t)),
        None => match udp_at(d) {
            Some(t) => Some(be16(d, t)),
            None => None,
        },
    }
}

pub open spec fn dst_port_of(d: Seq<u8>) -> Option<u16> {
    match tcp_at(d) {
        Some(t) => Some(be16(d, t + 2)),
        None => match udp_at(d) {
            Some(t) => Some(be16(d, t + 2)),
            None => None,
        },
    }
}

pub open spec fn flags_of(f: u8) -> TcpFlags {
    TcpFlags {
        fin: f & 0x01 != 0,
        syn: f & 0x02 != 0,
        rst: f & 0x04 != 0,
        psh: f & 0x08 != 0,
        ack: f & 0x10 != 0,
        urg: f & 0x20 != 0,
        ece: f & 0x40 != 0,
        cwr: f & 0x80 != 0,
    }
}

/// PTP carried over IPv4/UDP to the event or general port.
pub open spec fn is_ptp_udp_of(d: Seq<u8>) -> bool {
    is_ipv4(d) && udp_at(d).is_some() && (be16(d, udp_at(d).unwrap() + 2) == 319
        || be16(d, udp_at(d).unwrap() + 2) == 320)
}

pub open spec fn is_ptp_of(d: Seq<u8>) -> bool {
    d.len() >= 14 && (ethertype_of(d) == 0x88F7 || is_ptp_udp_of(d))
}

pub open spec fn is_tsn_of(d: Seq<u8>) -> bool {
    d.len() >= 14 && (is_ptp_of(d) || vlan_pcp_of(d).is_some() || ethertype_of(d) == 0x22F0)
}

pub open spec fn ipv4_proto_name(p: u8) -> Seq<char> {
    if p == 0 { "HOPOPT"@ }
    else if p == 1 { "ICMP"@ }
    else if p == 2 { "IGMP"@ }
    else if p == 4 { "IP-in-IP"@ }
    else if p == 6 { "TCP"@ }
    else if p == 17 { "UDP"@ }
    else if p == 41 { "IPv6"@ }
    else if p == 43 { "IPv6-Route"@ }
    else if p == 44 { "IPv6-Frag"@ }
    else if p == 47 { "GRE"@ }
    else if p == 50 { "ESP"@ }
    else if p == 51 { "AH"@ }
    else if p == 58 { "ICMPv6"@ }
    else if p == 59 { "IPv6-NoNxt"@ }
    else if p == 60 { "IPv6-Opts"@ }
    else if p == 88 { "EIGRP"@ }
    else if p == 89 { "OSPF"@ }
    else if p == 103 { "PIM"@ }
    else if p == 112 { "VRRP"@ }
    else if p == 132 { "SCTP"@ }
    else { unknown_proto_name(p) }
}

pub open spec fn ipv6_proto_name(p: u8) -> Seq<char> {
    if p == 0 || p == 6 || p == 17 || p == 43 || p == 44 || p == 50 || p == 51 || p == 58
        || p == 59 || p == 60 {
        ipv4_proto_name(p)
    } else {
        unknown_proto_name(p)
    }
}

pub open spec fn unknown_proto_name(p: u8) -> Seq<char> {
    "Proto("@ + dec_text(p as nat) + ")"@
}

pub open spec fn protocol_of(d: Seq<u8>) -> Option<Seq<char>> {
    let ip = l3_offset(d);
    if is_ipv4(d) {
        Some(ipv4_proto_name(d[ip + 9]))
    } else if is_ipv6(d) {
        Some(ipv6_proto_name(d[ip + 6]))
    } else {
        None
    }
}

pub open spec fn ipv6_text(bs: Seq<u8>) -> Seq<char> {
    grouped_hex(bs, 2, ':')
}

pub open spec fn src_ip_of(d: Seq<u8>) -> Option<Seq<char>> {
    let ip = l3_offset(d);
    if is_ipv4(d) {
        Some(dotted_dec(d.subrange(ip + 12, ip + 16)))
    } else if is_ipv6(d) {
        Some(ipv6_text(d.subrange(ip + 8, ip + 24)))
    } else if is_arp(d) && d.len() >= ip + 28 {
        Some(dotted_dec(d.subrange(ip + 14, ip + 18)))
    } else {
        None
    }
}

pub open spec fn dst_ip_of(d: Seq<u8>) -> Option<Seq<char>> {
    let ip = l3_offset(d);
    if is_ipv4(d) {
        Some(dotted_dec(d.subrange(ip + 16, ip + 20)))
    } else if is_ipv6(d) {
        Some(ipv6_text(d.subrange(ip + 24, ip + 40)))
    } else if is_arp(d) && d.len() >= ip + 28 {
        Some(dotted_dec(d.subrange(ip + 24, ip + 28)))
    } else {
        None
    }
}

pub open spec fn mac_text(d: Seq<u8>, start: int) -> Seq<char> {
    grouped_hex(d.subrange(start, start + 6), 1, ':')
}

/// What `parse_packet_info` yields for frame `d`, field by field.
pub open spec fn info_matches(d: Seq<u8>, info: PacketInfo) -> bool {
    let ip = l3_offset(d);
    if d.len() < 14 {
        &&& info.src_mac@.len() == 0
        &&& info.dst_mac@.len() == 0
        &&& info.ethertype == 0
        &&& info.ethertype_name@ == "Unknown"@
        &&& info.vlan_id.is_none() && info.vlan_pcp.is_none()
        &&& info.src_ip.is_none() && info.dst_ip.is_none() && info.protocol.is_none()
        &&& info.src_port.is_none() && info.dst_port.is_none()
        &&& !info.is_ptp && !info.is_tsn
        &&& info.tcp_flags.is_none() && info.seq_num.is_none() && info.ack_num.is_none()
        &&& info.window_size.is_none()
        &&& info.icmp_type.is_none() && info.icmp_code.is_none() && info.arp_op.is_none()
        &&& info.ttl.is_none() && info.ip_id.is_none()
    } else {
        &&& info.dst_mac@ == mac_text(d, 0)
        &&& info.src_mac@ == mac_text(d, 6)
        &&& info.ethertype == ethertype_of(d)
        &&& info.ethertype_name@ == ethertype_name_of(ethertype_of(d))
        &&& info.vlan_id == vlan_id_of(d)
        &&& info.vlan_pcp == vlan_pcp_of(d)
        &&& opt_text(info.src_ip) == src_ip_of(d)
        &&& opt_text(info.dst_ip) == dst_ip_of(d)
        &&& opt_text(info.protocol) == protocol_of(d)
        &&& info.src_port == src_port_of(d)
        &&& info.dst_port == dst_port_of(d)
        &&& info.is_ptp == is_ptp_of(d)
        &&& info.is_tsn == is_tsn_of(d)
        &&& info.tcp_flags == (match tcp_at(d) {
            Some(t) => Some(flags_of(d[t + 13])),
            None => None,
        })
        &&& info.seq_num == (match tcp_at(d) {
            Some(t) => Some(be32(d, t + 4)),
            None => None,
        })
        &&& info.ack_num == (match tcp_at(d) {
            Some(t) => Some(be32(d, t + 8)),
            None => None,
        })
        &&& info.window_size == (match tcp_at(d) {
            Some(t) => if is_ipv4(d) { Some(be16(d, t + 14)) } else { None },
            None => None,
        })
        &&& info.icmp_type == (match icmp_at(d) {
            Some(t) => Some(d[t]),
            None => None,
        })
        &&& info.icmp_code == (match icmp_at(d) {
            Some(t) => Some(d[t + 1]),
            None => None,
        })
        &&& info.arp_op == (if is_arp(d) { Some(be16(d, ip + 6)) } else { None })
        &&& info.ttl == (if is_ipv4(d) {
            Some(d[ip + 8])
        } else if is_ipv6(d) {
            Some(d[ip + 7])
        } else {
            None
        })
        &&& info.ip_id == (if is_ipv4(d) { Some(be16(d, ip + 4)) } else { None })
    }
}


// ---------------------------------------------------------------------------
// Decoding.

pub fn read_be16(d: &[u8], i: usize) -> (r: u16)
    requires
        i + 2 <= d@.len(),
    ensures
        r == be16(d@, i as int),
{
    (d[i] as u16) * 256 + (d[i + 1] as u16)
}

pub fn read_be32(d: &[u8], i: usize) -> (r: u32)
    requires
        i + 4 <= d@.len(),
    ensures
        r == be32(d@, i as int),
{
    (d[i] as u32) * 16777216 + (d[i + 1] as u32) * 65536 + (d[i + 2] as u32) * 256 + (d[i + 3] as u32)
}

/// Symbolic name of an EtherType (or of an 802.3 marker).
pub fn ethertype_name(e: u16) -> (r: String)
    ensures
        r@ == ethertype_name_of(e),
{
    let name = if e == 0x0001 { "802.3" }
    else if e == 0x0026 { "STP" }
    else if e == 0x0800 { "IPv4" }
    else if e == 0x0806 { "ARP" }
    else if e == 0x86DD { "IPv6" }
    else if e == 0x8100 { "VLAN" }
    else if e == 0x88A8 { "QinQ" }
    else if e == 0x88F7 { "PTP" }
    else if e == 0x22F0 { "802.1Qat SRP" }
    else if e == 0x88B8 { "GOOSE" }
    else if e == 0x88BA { "SV" }
    else if e == 0x88CC { "LLDP" }
    else if e == 0x88E5 { "MACsec" }
    else if e == 0x893A { "IEEE 1905" }
    else if e == 0x8899 { "RRCP" }
    else if e == 0x9000 { "Loopback" }
    else if e == 0x0842 { "WoL" }
    else if e == 0x8035 { "RARP" }
    else if e == 0x809B { "AppleTalk" }
    else if e == 0x80F3 { "AARP" }
    else if e == 0x8137 { "IPX" }
    else if e == 0x8863 { "PPPoE-D" }
    else if e == 0x8864 { "PPPoE-S" }
    else if e == 0x88E1 { "HomePlug" }
    else if e == 0x8902 { "CFM" }
    else if e == 0x22EA { "SRP" }
    else if e == 0x2000 { "CDP" }
    else if e == 0x2004 { "CGMP" }
    else if e == 0x887B { "HomePlug" }
    else if e == 0x887E { "MVRP" }
    else if e == 0x8880 { "MRP" }
    else {
        let mut s = String::new();
        push_hex4_upper(&mut s, e);
        assert(s@ =~= hex4_upper(e));
        return s;
    };
    String::from_str(name)
}

fn unknown_proto(p: u8) -> (r: String)
    ensures
        r@ == unknown_proto_name(p),
{
    let mut s = String::from_str("Proto(");
    push_dec(&mut s, p as u64);
    s.append(")");
    s
}

fn ipv4_protocol_name(p: u8) -> (r: String)
    ensures
        r@ == ipv4_proto_name(p),
{
    let name = if p == 0 { "HOPOPT" }
    else if p == 1 { "ICMP" }
    else if p == 2 { "IGMP" }
    else if p == 4 { "IP-in-IP" }
    else if p == 6 { "TCP" }
    else if p == 17 { "UDP" }
    else if p == 41 { "IPv6" }
    else if p == 43 { "IPv6-Route" }
    else if p == 44 { "IPv6-Frag" }
    else if p == 47 { "GRE" }
    else if p == 50 { "ESP" }
    else if p == 51 { "AH" }
    else if p == 58 { "ICMPv6" }
    else if p == 59 { "IPv6-NoNxt" }
    else if p == 60 { "IPv6-Opts" }
    else if p == 88 { "EIGRP" }
    else if p == 89 { "OSPF" }
    else if p == 103 { "PIM" }
    else if p == 112 { "VRRP" }
    else if p == 132 { "SCTP" }
    else {
        return unknown_proto(p);
    };
    String::from_str(name)
}

fn ipv6_protocol_name(p: u8) -> (r: String)
    ensures
        r@ == ipv6_proto_name(p),
{
    if p == 0 || p == 6 || p == 17 || p == 43 || p == 44 || p == 50 || p == 51 || p == 58
        || p == 59 || p == 60 {
        ipv4_protocol_name(p)
    } else {
        unknown_proto(p)
    }
}

/// Sixteen bytes as eight colon separated groups of four hex digits.
pub fn format_ipv6(bytes: &[u8]) -> (r: String)
    ensures
        r@ == ipv6_text(bytes@),
{
    let mut s = String::new();
    push_grouped_hex(&mut s, bytes, 0, bytes.len(), 2, ':');
    assert(bytes@.subrange(0, bytes@.len() as int) =~= bytes@);
    s
}

fn tcp_flags(f: u8) -> (r: TcpFlags)
    ensures
        r == flags_of(f),
{
    TcpFlags {
        fin: f & 0x01 != 0,
        syn: f & 0x02 != 0,
        rst: f & 0x04 != 0,
        psh: f & 0x08 != 0,
        ack: f & 0x10 != 0,
        urg: f & 0x20 != 0,
        ece: f & 0x40 != 0,
        cwr: f & 0x80 != 0,
    }
}

/// Offset of the EtherType/length field, past an 802.1Q tag if present.
fn frame_type_offset(data: &[u8]) -> (r: usize)
    requires
        data@.len() >= 14,
    ensures
        r == type_offset(data@),
{
    if data.len() >= 18 && read_be16(data, 12) == 0x8100 { 16 } else { 12 }
}

fn frame_ethertype(data: &[u8]) -> (r: u16)
    requires
        data@.len() >= 14,
    ensures
        r == ethertype_of(data@),
{
    let off = frame_type_offset(data);
    let t = read_be16(data, off);
    let llc = off + 2;
    if t > 1500 {
        t
    } else if data.len() >= llc + 3 {
        if data[llc] == 0xAA && data[llc + 1] == 0xAA && data.len() >= llc + 8 {
            read_be16(data, llc + 6)
        } else if data[llc] == 0x42 && data[llc + 1] == 0x42 {
            0x0026
        } else {
            0x0001
        }
    } else {
        0x0001
    }
}

fn frame_transport(data: &[u8]) -> (r: Option<(u8, usize)>)
    requires
        data@.len() >= 14,
    ensures
        match transport_of(data@) {
            Some((p, t)) => r == Some((p, t as usize)) && t <= data@.len() + 60,
            None => r.is_none(),
        },
{
    let ip = frame_type_offset(data) + 2;
    let e = frame_ethertype(data);
    if e == 0x0800 && data.len() >= ip + 20 {
        let b = data[ip];
        assert(b & 0x0F <= 15) by (bit_vector);
        Some((data[ip + 9], ip + ((b & 0x0F) as usize) * 4))
    } else if e == 0x86DD && data.len() >= ip + 40 {
        Some((data[ip + 6], ip + 40))
    } else {
        None
    }
}

/// PTP carried over IPv4/UDP: the UDP destination port is 319 or 320.
fn is_ptp_udp(data: &[u8]) -> (r: bool)
    requires
        data@.len() >= 14,
    ensures
        r == is_ptp_udp_of(data@),
{
    let ip = frame_type_offset(data) + 2;
    let e = frame_ethertype(data);
    if e == 0x0800 && data.len() >= ip + 20 {
        match frame_transport(data) {
            Some((p, t)) => {
                if p == 17 && data.len() >= t + 4 {
                    let dp = read_be16(data, t + 2);
                    dp == 319 || dp == 320
                } else {
                    false
                }
            },
            None => false,
        }
    } else {
        false
    }
}

fn empty_info() -> (info: PacketInfo)
    ensures
        info_matches(Seq::empty(), info),
{
    PacketInfo {
        src_mac: String::new(),
        dst_mac: String::new(),
        ethertype: 0,
        ethertype_name: String::from_str("Unknown"),
        vlan_id: None,
        vlan_pcp: None,
        src_ip: None,
        dst_ip: None,
        protocol: None,
        src_port: None,
        dst_port: None,
        is_ptp: false,
        is_tsn: false,
        tcp_flags: None,
        seq_num: None,
        ack_num: None,
        window_size: None,
        icmp_type: None,
        icmp_code: None,
        arp_op: None,
        ttl: None,
        ip_id: None,
    }
}

/// Decodes the headers of one frame, left to right; fields that a short
/// frame does not reach stay absent.
pub fn parse_packet_info(data: &[u8]) -> (info: PacketInfo)
    ensures
        info_matches(data@, info),
{
    let ghost d = data@;
    if data.len() < 14 {
        let info = empty_info();
        return info;
    }
    let dst_mac = mac_string(data, 0);
    let src_mac = mac_string(data, 6);
    let off = frame_type_offset(data);
    let (vlan_id, vlan_pcp) = if off == 16 {
        let tci = read_be16(data, 14);
        (Some(tci & 0x0FFF), Some((tci >> 13u16) as u8))
    } else {
        (None, None)
    };
    let ethertype = frame_ethertype(data);
    let ethertype_name = ethertype_name(ethertype);
    let ip = off + 2;
    let v4 = ethertype == 0x0800 && data.len() >= ip + 20;
    let v6 = ethertype == 0x86DD && data.len() >= ip + 40;
    let arp = ethertype == 0x0806 && data.len() >= ip + 8;
    assert(v4 == is_ipv4(d) && v6 == is_ipv6(d) && arp == is_arp(d));
    let transport = frame_transport(data);

    let (src_ip, dst_ip) = if v4 {
        (Some(ipv4_string(data, ip + 12)), Some(ipv4_string(data, ip + 16)))
    } else if v6 {
        (Some(format_ipv6(&data[ip + 8..ip + 24])), Some(format_ipv6(&data[ip + 24..ip + 40])))
    } else if arp && data.len() >= ip + 28 {
        (Some(ipv4_string(data, ip + 14)), Some(ipv4_string(data, ip + 24)))
    } else {
        (None, None)
    };
    let protocol = if v4 {
        Some(ipv4_protocol_name(data[ip + 9]))
    } else if v6 {
        Some(ipv6_protocol_name(data[ip + 6]))
    } else {
        None
    };
    let ttl = if v4 { Some(data[ip + 8]) } else if v6 { Some(data[ip + 7]) } else { None };
    let ip_id = if v4 { Some(read_be16(data, ip + 4)) } else { None };
    let arp_op = if arp { Some(read_be16(data, ip + 6)) } else { None };

    let mut src_port: Option<u16> = None;
    let mut dst_port: Option<u16> = None;
    let mut tcp: Option<TcpFlags> = None;
    let mut seq_num: Option<u32> = None;
    let mut ack_num: Option<u32> = None;
    let mut window_size: Option<u16> = None;
    let mut icmp_type: Option<u8> = None;
    let mut icmp_code: Option<u8> = None;
    match transport {
        Some((p, t)) => {
            if p == 6 && data.len() >= t + 20 {
                src_port = Some(read_be16(data, t));
                dst_port = Some(read_be16(data, t + 2));
                seq_num = Some(read_be32(data, t + 4));
                ack_num = Some(read_be32(data, t + 8));
                if v4 {
                    window_size = Some(read_be16(data, t + 14));
                }
                tcp = Some(tcp_flags(data[t + 13]));
            } else if p == 17 && data.len() >= t + 4 {
                src_port = Some(read_be16(data, t));
                dst_port = Some(read_be16(data, t + 2));
            }
            if ((v4 && p == 1) || (!v4 && p == 58)) && data.len() >= t + 2 {
                icmp_type = Some(data[t]);
                icmp_code = Some(data[t + 1]);
            }
        },
        None => {},
    }
    let is_ptp = ethertype == 0x88F7 || is_ptp_udp(data);
    let is_tsn = is_ptp || vlan_pcp.is_some() || ethertype == 0x22F0;
    proof {
        if v6 {
            assert(data@.subrange(ip + 8, ip + 24) == d.subrange(ip + 8, ip + 24));
        }
    }
    PacketInfo {
        src_mac,
        dst_mac,
        ethertype,
        ethertype_name,
        vlan_id,
        vlan_pcp,
        src_ip,
        dst_ip,
        protocol,
        src_port,
        dst_port,
        is_ptp,
        is_tsn,
        tcp_flags: tcp,
        seq_num,
        ack_num,
        window_size,
        icmp_type,
        icmp_code,
        arp_op,
        ttl,
        ip_id,
    }
}


// ---------------------------------------------------------------------------
// TSN classification.

/// Offset of the PTP header: after the Ethernet header (and tag) for
/// EtherType 0x88F7, after IPv4 and UDP headers for PTP over UDP.
pub open spec fn ptp_offset_of(d: Seq<u8>) -> Option<int> {
    if d.len() >= 14 && ethertype_of(d) == 0x88F7 {
        Some(if has_vlan(d) { 18int } else { 14int })
    } else if d.len() >= 14 && is_ptp_udp_of(d) {
        Some(if has_vlan(d) { 46int } else { 42int })
    } else {
        None
    }
}

pub open spec fn ptp_message_name(t: u8) -> Seq<char> {
    if t == 0 { "Sync"@ }
    else if t == 1 { "Delay_Req"@ }
    else if t == 2 { "Pdelay_Req"@ }
    else if t == 3 { "Pdelay_Resp"@ }
    else if t == 8 { "Follow_Up"@ }
    else if t == 9 { "Delay_Resp"@ }
    else if t == 10 { "Pdelay_Resp_Follow_Up"@ }
    else if t == 11 { "Announce"@ }
    else if t == 12 { "Signaling"@ }
    else if t == 13 { "Management"@ }
    else { "Unknown"@ }
}

/// Clock identity as eight colon separated hex bytes, then `-` and the port number.
pub open spec fn port_identity_text(d: Seq<u8>, o: int) -> Seq<char> {
    grouped_hex(d.subrange(o + 20, o + 28), 1, ':').push('-') + dec_text(be16(d, o + 28) as nat)
}

/// A PTP header is decoded when its offset is known and 34 bytes are present.
pub open spec fn ptp_present(d: Seq<u8>) -> bool {
    ptp_offset_of(d).is_some() && d.len() >= ptp_offset_of(d).unwrap() + 34
}

pub open spec fn ptp_matches(d: Seq<u8>, p: Option<PtpInfo>) -> bool {
    if ptp_present(d) {
        let o = ptp_offset_of(d).unwrap();
        &&& p.is_some()
        &&& p.unwrap().message_type@ == ptp_message_name(d[o] & 0x0F)
        &&& p.unwrap().version == d[o + 1] & 0x0F
        &&& p.unwrap().domain == d[o + 4]
        &&& p.unwrap().sequence_id == be16(d, o + 30)
        &&& p.unwrap().correction_field == be64(d, o + 8) as i64
        &&& p.unwrap().source_port_identity@ == port_identity_text(d, o)
    } else {
        p.is_none()
    }
}

/// PTP first; otherwise PCP 4 to 7 marks credit-based shaped traffic.
pub open spec fn tsn_type_of(d: Seq<u8>) -> TsnType {
    if is_ptp_of(d) {
        TsnType::Ptp
    } else if vlan_pcp_of(d) == Some(4u8) || vlan_pcp_of(d) == Some(5u8) || vlan_pcp_of(d) == Some(
        6u8,
    ) || vlan_pcp_of(d) == Some(7u8) {
        TsnType::Cbs
    } else {
        TsnType::Standard
    }
}

pub open spec fn stream_id_of(d: Seq<u8>) -> Option<Seq<char>> {
    match vlan_id_of(d) {
        Some(v) => Some(mac_text(d, 6).push(':') + dec_text(v as nat)),
        None => None,
    }
}

/// What `detect_tsn_info` yields for frame `d`.
pub open spec fn tsn_matches(d: Seq<u8>, t: Option<TsnInfo>) -> bool {
    if is_tsn_of(d) {
        &&& t.is_some()
        &&& opt_text(t.unwrap().stream_id) == stream_id_of(d)
        &&& t.unwrap().sequence_number.is_none()
        &&& t.unwrap().traffic_class == vlan_pcp_of(d)
        &&& t.unwrap().priority == vlan_pcp_of(d)
        &&& t.unwrap().tsn_type == tsn_type_of(d)
        &&& (if is_ptp_of(d) { ptp_matches(d, t.unwrap().ptp_info) } else { t.unwrap().ptp_info.is_none() })
        &&& t.unwrap().cbs_info.is_none()
    } else {
        t.is_none()
    }
}

pub fn read_be64(d: &[u8], i: usize) -> (r: u64)
    requires
        i + 8 <= d@.len(),
    ensures
        r == be64(d@, i as int),
{
    let _n = d.len();
    let hi = read_be32(d, i) as u64;
    let lo = read_be32(d, i + 4) as u64;
    hi * 4294967296 + lo
}

fn ptp_message_type(t: u8) -> (r: String)
    ensures
        r@ == ptp_message_name(t),
{
    let name = if t == 0 { "Sync" }
    else if t == 1 { "Delay_Req" }
    else if t == 2 { "Pdelay_Req" }
    else if t == 3 { "Pdelay_Resp" }
    else if t == 8 { "Follow_Up" }
    else if t == 9 { "Delay_Resp" }
    else if t == 10 { "Pdelay_Resp_Follow_Up" }
    else if t == 11 { "Announce" }
    else if t == 12 { "Signaling" }
    else if t == 13 { "Management" }
    else { "Unknown" };
    String::from_str(name)
}

/// Decodes the PTP common header of a frame that `info` marks as PTP.
fn parse_ptp_info(data: &[u8], info: &PacketInfo) -> (r: Option<PtpInfo>)
    requires
        info_matches(data@, *info),
        info.is_ptp,
    ensures
        ptp_matches(data@, r),
{
    let o: usize = if info.ethertype == 0x88F7 {
        if info.vlan_id.is_some() { 18 } else { 14 }
    } else {
        if info.vlan_id.is_some() { 46 } else { 42 }
    };
    if data.len() < o + 34 {
        return None;
    }
    let mut spi = String::new();
    push_grouped_hex(&mut spi, data, o + 20, o + 28, 1, ':');
    push_char(&mut spi, '-');
    push_dec(&mut spi, read_be16(data, o + 28) as u64);
    Some(PtpInfo {
        message_type: ptp_message_type(data[o] & 0x0F),
        version: data[o + 1] & 0x0F,
        domain: data[o + 4],
        sequence_id: read_be16(data, o + 30),
        source_port_identity: spi,
        correction_field: read_be64(data, o + 8) as i64,
    })
}

/// Builds the TSN annotation of a frame with any TSN signal.
fn detect_tsn_info(data: &[u8], info: &PacketInfo) -> (r: Option<TsnInfo>)
    requires
        info_matches(data@, *info),
    ensures
        tsn_matches(data@, r),
{
    if !info.is_tsn && info.vlan_pcp.is_none() && !info.is_ptp {
        return None;
    }
    let stream_id = match info.vlan_id {
        Some(v) => {
            let mut s = info.src_mac.clone();
            push_char(&mut s, ':');
            push_dec(&mut s, v as u64);
            Some(s)
        },
        None => None,
    };
    let ptp_info = if info.is_ptp { parse_ptp_info(data, info) } else { None };
    let tsn_type = if info.is_ptp {
        TsnType::Ptp
    } else {
        match info.vlan_pcp {
            Some(p) => if p >= 4 && p <= 7 { TsnType::Cbs } else { TsnType::Standard },
            None => TsnType::Standard,
        }
    };
    Some(TsnInfo {
        stream_id,
        sequence_number: None,
        traffic_class: info.vlan_pcp,
        priority: info.vlan_pcp,
        tsn_type,
        ptp_info,
        cbs_info: None,
    })
}

pub open spec fn packet_matches(id: u64, data: Seq<u8>, timestamp_us: i64, p: CapturedPacket) -> bool {
    &&& p.id == id
    &&& p.timestamp_us == timestamp_us
    &&& p.timestamp_sub_us_ns == 0
    &&& p.length == data.len()
    &&& p.data@ == data
    &&& info_matches(data, p.info)
    &&& tsn_matches(data, p.tsn_info)
}

/// A fresh vector holding the bytes of `data`.
pub fn copy_bytes(data: &[u8]) -> (r: Vec<u8>)
    ensures
        r@ == data@,
{
    let mut v: Vec<u8> = Vec::new();
    let mut i: usize = 0;
    while i < data.len()
        invariant
            i <= data@.len(),
            v@ == data@.subrange(0, i as int),
        decreases data@.len() - i,
    {
        v.push(data[i]);
        i = i + 1;
        assert(v@ =~= data@.subrange(0, i as int));
    }
    assert(data@.subrange(0, data@.len() as int) =~= data@);
    v
}

pub fn copy_text(o: &Option<String>) -> (r: Option<String>)
    ensures
        r == *o,
{
    match o {
        Some(s) => Some(s.clone()),
        None => None,
    }
}

impl PacketInfo {
    pub fn copy(&self) -> (r: PacketInfo)
        ensures
            r == *self,
    {
        PacketInfo {
            src_mac: self.src_mac.clone(),
            dst_mac: self.dst_mac.clone(),
            ethertype: self.ethertype,
            ethertype_name: self.ethertype_name.clone(),
            vlan_id: self.vlan_id,
            vlan_pcp: self.vlan_pcp,
            src_ip: copy_text(&self.src_ip),
            dst_ip: copy_text(&self.dst_ip),
            protocol: copy_text(&self.protocol),
            src_port: self.src_port,
            dst_port: self.dst_port,
            is_ptp: self.is_ptp,
            is_tsn: self.is_tsn,
            tcp_flags: self.tcp_flags,
            seq_num: self.seq_num,
            ack_num: self.ack_num,
            window_size: self.window_size,
            icmp_type: self.icmp_type,
            icmp_code: self.icmp_code,
            arp_op: self.arp_op,
            ttl: self.ttl,
            ip_id: self.ip_id,
        }
    }
}

impl PtpInfo {
    pub fn copy(&self) -> (r: PtpInfo)
        ensures
            r == *self,
    {
        PtpInfo {
            message_type: self.message_type.clone(),
            version: self.version,
            domain: self.domain,
            sequence_id: self.sequence_id,
            source_port_identity: self.source_port_identity.clone(),
            correction_field: self.correction_field,
        }
    }
}

impl TsnInfo {
    pub fn copy(&self) -> (r: TsnInfo)
        ensures
            r == *self,
    {
        TsnInfo {
            stream_id: copy_text(&self.stream_id),
            sequence_number: self.sequence_number,
            traffic_class: self.traffic_class,
            priority: self.priority,
            tsn_type: self.tsn_type,
            ptp_info: match &self.ptp_info {
                Some(p) => Some(p.copy()),
                None => None,
            },
            cbs_info: match &self.cbs_info {
                Some(c) => Some(
                    CbsInfo {
                        idle_slope: c.idle_slope,
                        send_slope: c.send_slope,
                        hi_credit: c.hi_credit,
                        lo_credit: c.lo_credit,
                        traffic_class: c.traffic_class,
                    },
                ),
                None => None,
            },
        }
    }
}

/// A fresh vector holding the values of `data`.
pub fn copy_bytes_u64(data: &[u64]) -> (r: Vec<u64>)
    ensures
        r@ == data@,
{
    let mut v: Vec<u64> = Vec::new();
    let mut i: usize = 0;
    while i < data.len()
        invariant
            i <= data@.len(),
            v@ == data@.subrange(0, i as int),
        decreases data@.len() - i,
    {
        v.push(data[i]);
        i = i + 1;
        assert(v@ =~= data@.subrange(0, i as int));
    }
    assert(data@.subrange(0, data@.len() as int) =~= data@);
    v
}

impl CapturedPacket {
    /// A copy with the same fields and bytes.
    pub fn copy(&self) -> (r: CapturedPacket)
        ensures
            r.id == self.id,
            r.timestamp_us == self.timestamp_us,
            r.timestamp_sub_us_ns == self.timestamp_sub_us_ns,
            r.length == self.length,
            r.data@ == self.data@,
            r.info == self.info,
            r.tsn_info == self.tsn_info,
    {
        CapturedPacket {
            id: self.id,
            timestamp_us: self.timestamp_us,
            timestamp_sub_us_ns: self.timestamp_sub_us_ns,
            length: self.length,
            data: copy_bytes(self.data.as_slice()),
            info: self.info.copy(),
            tsn_info: match &self.tsn_info {
                Some(t) => Some(t.copy()),
                None => None,
            },
        }
    }

    /// Builds the record of one frame captured at `timestamp_us`.
    pub fn from_raw(id: u64, data: &[u8], timestamp_us: i64) -> (r: CapturedPacket)
        requires
            data@.len() <= u32::MAX,
        ensures
            packet_matches(id, data@, timestamp_us, r),
    {
        let info = parse_packet_info(data);
        let tsn_info = detect_tsn_info(data, &info);
        CapturedPacket {
            id,
            timestamp_us,
            timestamp_sub_us_ns: 0,
            length: data.len() as u32,
            data: copy_bytes(data),
            info,
            tsn_info,
        }
    }
}

/// Every frame that a PTP header fits in and whose message type is known
/// is annotated as PTP with its PTP header decoded.
pub proof fn lemma_ptp_annotated(id: u64, data: Seq<u8>, timestamp_us: i64, p: CapturedPacket)
    requires
        packet_matches(id, data, timestamp_us, p),
        is_ptp_of(data),
        ptp_present(data),
    ensures
        p.tsn_info.is_some(),
        p.tsn_info.unwrap().tsn_type == TsnType::Ptp,
        p.tsn_info.unwrap().ptp_info.is_some(),
{
}

/// An Ethernet II frame of EtherType 0x88F7, tagged or not, is PTP and its
/// header is read right after the Ethernet header and tag.
pub proof fn lemma_ptp_ethertype_offset(d: Seq<u8>)
    requires
        d.len() >= 18,
        (be16(d, 12) == 0x88F7) || (be16(d, 12) == 0x8100 && be16(d, 16) == 0x88F7),
    ensures
        is_ptp_of(d),
        ptp_offset_of(d) == Some(if be16(d, 12) == 0x8100 { 18int } else { 14int }),
{
}

} // verus!
