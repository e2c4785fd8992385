//! The topology model: devices keyed by MAC address, directed links between
//! them, and the rules that infer what each device is.
use vstd::prelude::*;
use crate::graph::{
    graph_add_edge, graph_add_node, graph_clear, graph_edge_count, graph_edges, graph_find_edge, graph_has_path, graph_neighbors_undirected,
    graph_new, graph_nodes, has_edge, reachable,
};
use crate::lldp::parse_lldp_packet;
use petgraph::graph::Graph;
use crate::packet::{opt_text, CapturedPacket};
use crate::textops::{contains_text, has_prefix, insert_sorted_u16, insert_sorted_u8, push_unique_text, starts_with, strictly_sorted_u16, strictly_sorted_u8};

verus! {

#[derive(Clone, Copy, Debug, PartialEq, Eq, Hash, Structural)]
pub enum NodeType {
    Host,
    Switch,
    Router,
    Bridge,
    EndStation,
    TsnBridge,
    PtpGrandmaster,
    AccessPoint,
    Repeater,
    Gateway,
    Unknown,
}

/// Rank of a device type; evidence only ever moves a node up this order.
pub open spec fn priority_of(t: NodeType) -> u8 {
    match t {
        NodeType::PtpGrandmaster => 10,
        NodeType::TsnBridge => 9,
        NodeType::Router => 8,
        NodeType::Gateway => 7,
        NodeType::Switch => 6,
        NodeType::Bridge => 5,
        NodeType::AccessPoint => 4,
        NodeType::Host => 3,
        NodeType::EndStation => 2,
        NodeType::Repeater => 1,
        NodeType::Unknown => 0,
    }
}

/// The pictogram shown for a device type.
pub open spec fn icon_of(t: NodeType) -> Seq<char> {
    match t {
        NodeType::Host => "\u{1F4BB}"@,
        NodeType::Switch => "\u{1F500}"@,
        NodeType::Router => "\u{1F310}"@,
        NodeType::Bridge => "\u{1F309}"@,
        NodeType::EndStation => "\u{1F4F1}"@,
        NodeType::TsnBridge => "\u{23F1}\u{FE0F}"@,
        NodeType::PtpGrandmaster => "\u{1F550}"@,
        NodeType::AccessPoint => "\u{1F4E1}"@,
        NodeType::Repeater => "\u{1F4F6}"@,
        NodeType::Gateway => "\u{1F6AA}"@,
        NodeType::Unknown => "\u{2753}"@,
    }
}

impl NodeType {
    pub fn icon(&self) -> (r: &'static str)
        ensures
            r@ == icon_of(*self),
    {
        match self {
            NodeType::Host => "\u{1F4BB}",
            NodeType::Switch => "\u{1F500}",
            NodeType::Router => "\u{1F310}",
            NodeType::Bridge => "\u{1F309}",
            NodeType::EndStation => "\u{1F4F1}",
            NodeType::TsnBridge => "\u{23F1}\u{FE0F}",
            NodeType::PtpGrandmaster => "\u{1F550}",
            NodeType::AccessPoint => "\u{1F4E1}",
            NodeType::Repeater => "\u{1F4F6}",
            NodeType::Gateway => "\u{1F6AA}",
            NodeType::Unknown => "\u{2753}",
        }
    }

    pub fn priority(&self) -> (r: u8)
        ensures
            r == priority_of(*self),
    {
        match self {
            NodeType::PtpGrandmaster => 10,
            NodeType::TsnBridge => 9,
            NodeType::Router => 8,
            NodeType::Gateway => 7,
            NodeType::Switch => 6,
            NodeType::Bridge => 5,
            NodeType::AccessPoint => 4,
            NodeType::Host => 3,
            NodeType::EndStation => 2,
            NodeType::Repeater => 1,
            NodeType::Unknown => 0,
        }
    }
}

#[derive(Clone, Copy, Debug, PartialEq, Eq, Structural)]
pub enum DeviceCapability {
    Other,
    Repeater,
    Bridge,
    WlanAP,
    Router,
    Telephone,
    DocsisCableDevice,
    StationOnly,
    CVlanComponent,
    SVlanComponent,
    TwoPortMacRelay,
}

#[derive(Clone, Copy, Debug, PartialEq, Eq, Structural)]
pub enum PtpRole {
    Grandmaster,
    BoundaryClock,
    OrdinaryClock,
    TransparentClock,
}

#[derive(Clone, Debug)]
pub struct LldpInfo {
    pub chassis_id: String,
    pub chassis_id_subtype: u8,
    pub port_id: String,
    pub port_id_subtype: u8,
    pub port_description: Option<String>,
    pub system_name: Option<String>,
    pub system_description: Option<String>,
    pub system_capabilities: Vec<DeviceCapability>,
    pub enabled_capabilities: Vec<DeviceCapability>,
    pub management_addresses: Vec<String>,
}

#[derive(Clone, Copy, Debug, PartialEq, Eq, Structural)]
pub enum LinkType {
    Direct,
    SwitchedNetwork,
    Wireless,
    Virtual,
    Unknown,
}

/// The built-in vendor table by 24-bit OUI: the vendor's name and the
/// device type its name suggests (TSN silicon, switching gear, access points,
/// hypervisors).
pub open spec fn oui_table(oui: u32) -> Option<(Seq<char>, Option<NodeType>)> {
    if oui == 0x001A6B { Some(("Microchip Technology"@, Some(NodeType::TsnBridge))) }
    else if oui == 0x000425 { Some(("Microchip Technology"@, Some(NodeType::TsnBridge))) }
    else if oui == 0xD88039 { Some(("Microchip Technology"@, Some(NodeType::TsnBridge))) }
    else if oui == 0x001EC0 { Some(("Microchip Technology"@, Some(NodeType::TsnBridge))) }
    else if oui == 0x0004A3 { Some(("Microchip Technology"@, Some(NodeType::TsnBridge))) }
    else if oui == 0x001B21 { Some(("Intel"@, None)) }
    else if oui == 0x001FC6 { Some(("Intel"@, None)) }
    else if oui == 0x3CFDFE { Some(("Intel"@, None)) }
    else if oui == 0xA0369F { Some(("Intel"@, None)) }
    else if oui == 0x001517 { Some(("Intel"@, None)) }
    else if oui == 0x6805CA { Some(("Intel"@, None)) }
    else if oui == 0xF8F21E { Some(("Intel"@, None)) }
    else if oui == 0x00000C { Some(("Cisco"@, Some(NodeType::Switch))) }
    else if oui == 0x001AA1 { Some(("Cisco"@, Some(NodeType::Switch))) }
    else if oui == 0x001B54 { Some(("Cisco"@, Some(NodeType::Switch))) }
    else if oui == 0x001EF7 { Some(("Cisco"@, Some(NodeType::Switch))) }
    else if oui == 0x002255 { Some(("Cisco"@, Some(NodeType::Switch))) }
    else if oui == 0x001DB5 { Some(("Juniper Networks"@, Some(NodeType::Switch))) }
    else if oui == 0x0017CB { Some(("Juniper Networks"@, Some(NodeType::Switch))) }
    else if oui == 0x000585 { Some(("Juniper Networks"@, Some(NodeType::Switch))) }
    else if oui == 0x001C73 { Some(("Arista Networks"@, Some(NodeType::Switch))) }
    else if oui == 0x28993A { Some(("Arista Networks"@, Some(NodeType::Switch))) }
    else if oui == 0x001E0B { Some(("Hewlett Packard"@, Some(NodeType::Switch))) }
    else if oui == 0x0025B3 { Some(("Hewlett Packard"@, Some(NodeType::Switch))) }
    else if oui == 0x001F29 { Some(("Hewlett Packard"@, Some(NodeType::Switch))) }
    else if oui == 0xD4C9EF { Some(("Aruba Networks"@, Some(NodeType::AccessPoint))) }
    else if oui == 0x000B86 { Some(("Aruba Networks"@, Some(NodeType::AccessPoint))) }
    else if oui == 0x001018 { Some(("Broadcom"@, None)) }
    else if oui == 0x001A2A { Some(("Broadcom"@, None)) }
    else if oui == 0x525400 { Some(("Realtek/QEMU"@, None)) }
    else if oui == 0x00E04C { Some(("Realtek"@, None)) }
    else if oui == 0x005056 { Some(("VMware"@, Some(NodeType::Host))) }
    else if oui == 0x000C29 { Some(("VMware"@, Some(NodeType::Host))) }
    else if oui == 0x00155D { Some(("Microsoft Hyper-V"@, Some(NodeType::Host))) }
    else if oui == 0x080027 { Some(("VirtualBox"@, Some(NodeType::Host))) }
    else if oui == 0x00005E { Some(("IANA VRRP/HSRP"@, None)) }
    else if oui == 0x01005E { Some(("IPv4 Multicast"@, None)) }
    else if oui == 0x333300 { Some(("IPv6 Multicast"@, None)) }
    else if oui == 0x011B19 { Some(("PTP/IEEE1588"@, None)) }
    else if oui == 0x0180C2 { Some(("IEEE 802.1 Protocols"@, None)) }
    else if oui == 0x000393 { Some(("Apple"@, None)) }
    else if oui == 0x000A95 { Some(("Apple"@, None)) }
    else if oui == 0x000D93 { Some(("Apple"@, None)) }
    else if oui == 0x0010FA { Some(("Apple"@, None)) }
    else if oui == 0x000278 { Some(("Samsung"@, None)) }
    else if oui == 0x0007AB { Some(("Samsung"@, None)) }
    else if oui == 0x0012FB { Some(("Samsung"@, None)) }
    else if oui == 0x0017E6 { Some(("Texas Instruments"@, Some(NodeType::TsnBridge))) }
    else if oui == 0x001830 { Some(("Texas Instruments"@, Some(NodeType::TsnBridge))) }
    else if oui == 0x04A316 { Some(("Texas Instruments"@, Some(NodeType::TsnBridge))) }
    else if oui == 0x00049F { Some(("NXP/Freescale"@, Some(NodeType::TsnBridge))) }
    else if oui == 0x001F7B { Some(("NXP"@, Some(NodeType::TsnBridge))) }
    else if oui == 0x0000F0 { Some(("Marvell"@, None)) }
    else if oui == 0x089E01 { Some(("Marvell"@, None)) }
    else if oui == 0x003055 { Some(("Renesas"@, None)) }
    else { None }
}

/// Looks up a 24-bit OUI in the built-in vendor table.
pub fn oui_entry(oui: u32) -> (r: Option<(&'static str, Option<NodeType>)>)
    ensures
        match r {
            Some((n, t)) => oui_table(oui) == Some((n@, t)),
            None => oui_table(oui).is_none(),
        },
{
    if oui == 0x001A6B { Some(("Microchip Technology", Some(NodeType::TsnBridge))) }
    else if oui == 0x000425 { Some(("Microchip Technology", Some(NodeType::TsnBridge))) }
    else if oui == 0xD88039 { Some(("Microchip Technology", Some(NodeType::TsnBridge))) }
    else if oui == 0x001EC0 { Some(("Microchip Technology", Some(NodeType::TsnBridge))) }
    else if oui == 0x0004A3 { Some(("Microchip Technology", Some(NodeType::TsnBridge))) }
    else if oui == 0x001B21 { Some(("Intel", None)) }
    else if oui == 0x001FC6 { Some(("Intel", None)) }
    else if oui == 0x3CFDFE { Some(("Intel", None)) }
    else if oui == 0xA0369F { Some(("Intel", None)) }
    else if oui == 0x001517 { Some(("Intel", None)) }
    else if oui == 0x6805CA { Some(("Intel", None)) }
    else if oui == 0xF8F21E { Some(("Intel", None)) }
    else if oui == 0x00000C { Some(("Cisco", Some(NodeType::Switch))) }
    else if oui == 0x001AA1 { Some(("Cisco", Some(NodeType::Switch))) }
    else if oui == 0x001B54 { Some(("Cisco", Some(NodeType::Switch))) }
    else if oui == 0x001EF7 { Some(("Cisco", Some(NodeType::Switch))) }
    else if oui == 0x002255 { Some(("Cisco", Some(NodeType::Switch))) }
    else if oui == 0x001DB5 { Some(("Juniper Networks", Some(NodeType::Switch))) }
    else if oui == 0x0017CB { Some(("Juniper Networks", Some(NodeType::Switch))) }
    else if oui == 0x000585 { Some(("Juniper Networks", Some(NodeType::Switch))) }
    else if oui == 0x001C73 { Some(("Arista Networks", Some(NodeType::Switch))) }
    else if oui == 0x28993A { Some(("Arista Networks", Some(NodeType::Switch))) }
    else if oui == 0x001E0B { Some(("Hewlett Packard", Some(NodeType::Switch))) }
    else if oui == 0x0025B3 { Some(("Hewlett Packard", Some(NodeType::Switch))) }
    else if oui == 0x001F29 { Some(("Hewlett Packard", Some(NodeType::Switch))) }
    else if oui == 0xD4C9EF { Some(("Aruba Networks", Some(NodeType::AccessPoint))) }
    else if oui == 0x000B86 { Some(("Aruba Networks", Some(NodeType::AccessPoint))) }
    else if oui == 0x001018 { Some(("Broadcom", None)) }
    else if oui == 0x001A2A { Some(("Broadcom", None)) }
    else if oui == 0x525400 { Some(("Realtek/QEMU", None)) }
    else if oui == 0x00E04C { Some(("Realtek", None)) }
    else if oui == 0x005056 { Some(("VMware", Some(NodeType::Host))) }
    else if oui == 0x000C29 { Some(("VMware", Some(NodeType::Host))) }
    else if oui == 0x00155D { Some(("Microsoft Hyper-V", Some(NodeType::Host))) }
    else if oui == 0x080027 { Some(("VirtualBox", Some(NodeType::Host))) }
    else if oui == 0x00005E { Some(("IANA VRRP/HSRP", None)) }
    else if oui == 0x01005E { Some(("IPv4 Multicast", None)) }
    else if oui == 0x333300 { Some(("IPv6 Multicast", None)) }
    else if oui == 0x011B19 { Some(("PTP/IEEE1588", None)) }
    else if oui == 0x0180C2 { Some(("IEEE 802.1 Protocols", None)) }
    else if oui == 0x000393 { Some(("Apple", None)) }
    else if oui == 0x000A95 { Some(("Apple", None)) }
    else if oui == 0x000D93 { Some(("Apple", None)) }
    else if oui == 0x0010FA { Some(("Apple", None)) }
    else if oui == 0x000278 { Some(("Samsung", None)) }
    else if oui == 0x0007AB { Some(("Samsung", None)) }
    else if oui == 0x0012FB { Some(("Samsung", None)) }
    else if oui == 0x0017E6 { Some(("Texas Instruments", Some(NodeType::TsnBridge))) }
    else if oui == 0x001830 { Some(("Texas Instruments", Some(NodeType::TsnBridge))) }
    else if oui == 0x04A316 { Some(("Texas Instruments", Some(NodeType::TsnBridge))) }
    else if oui == 0x00049F { Some(("NXP/Freescale", Some(NodeType::TsnBridge))) }
    else if oui == 0x001F7B { Some(("NXP", Some(NodeType::TsnBridge))) }
    else if oui == 0x0000F0 { Some(("Marvell", None)) }
    else if oui == 0x089E01 { Some(("Marvell", None)) }
    else if oui == 0x003055 { Some(("Renesas", None)) }
    else { None }
}

/// Value of a hex digit of either case.
pub open spec fn hex_value(c: char) -> Option<u32> {
    if '0' <= c && c <= '9' {
        Some((c as u32 - '0' as u32) as u32)
    } else if 'a' <= c && c <= 'f' {
        Some((c as u32 - 'a' as u32 + 10) as u32)
    } else if 'A' <= c && c <= 'F' {
        Some((c as u32 - 'A' as u32 + 10) as u32)
    } else {
        None
    }
}

fn hex_digit_value(c: char) -> (r: Option<u32>)
    ensures
        r == hex_value(c),
        r.is_some() ==> r.unwrap() < 16,
{
    if '0' <= c && c <= '9' {
        Some(c as u32 - '0' as u32)
    } else if 'a' <= c && c <= 'f' {
        Some(c as u32 - 'a' as u32 + 10)
    } else if 'A' <= c && c <= 'F' {
        Some(c as u32 - 'A' as u32 + 10)
    } else {
        None
    }
}

/// The OUI written as `hh:hh:hh` at the start of a MAC address.
pub open spec fn oui_of_text(s: Seq<char>) -> Option<u32> {
    if s.len() >= 8 && s[2] == ':' && s[5] == ':' && hex_value(s[0]).is_some() && hex_value(s[1]).is_some()
        && hex_value(s[3]).is_some() && hex_value(s[4]).is_some() && hex_value(s[6]).is_some()
        && hex_value(s[7]).is_some() {
        Some(
            (hex_value(s[0]).unwrap() * 0x100000 + hex_value(s[1]).unwrap() * 0x10000 + hex_value(s[3]).unwrap()
                * 0x1000 + hex_value(s[4]).unwrap() * 0x100 + hex_value(s[6]).unwrap() * 0x10 + hex_value(
                s[7],
            ).unwrap()) as u32,
        )
    } else {
        None
    }
}

#[verifier::rlimit(30)]
fn parse_oui(mac: &str) -> (r: Option<u32>)
    ensures
        r == oui_of_text(mac@),
{
    if mac.unicode_len() < 8 || mac.get_char(2) != ':' || mac.get_char(5) != ':' {
        return None;
    }
    let d0 = hex_digit_value(mac.get_char(0));
    let d1 = hex_digit_value(mac.get_char(1));
    let d3 = hex_digit_value(mac.get_char(3));
    let d4 = hex_digit_value(mac.get_char(4));
    let d6 = hex_digit_value(mac.get_char(6));
    let d7 = hex_digit_value(mac.get_char(7));
    match (d0, d1, d3, d4, d6, d7) {
        (Some(a), Some(b), Some(c), Some(d), Some(e), Some(f)) => {
            Some(a * 0x100000 + b * 0x10000 + c * 0x1000 + d * 0x100 + e * 0x10 + f)
        },
        _ => None,
    }
}

pub open spec fn vendor_of(mac: Seq<char>) -> Option<(Seq<char>, Option<NodeType>)> {
    match oui_of_text(mac) {
        Some(o) => oui_table(o),
        None => None,
    }
}

/// A frame carries PTP Announce or Sync, the messages a grandmaster sends.
pub open spec fn is_gm_message(p: CapturedPacket) -> bool {
    p.info.is_ptp && p.tsn_info.is_some() && p.tsn_info.unwrap().ptp_info.is_some() && (
    p.tsn_info.unwrap().ptp_info.unwrap().message_type@ == "Announce"@
        || p.tsn_info.unwrap().ptp_info.unwrap().message_type@ == "Sync"@)
}

pub open spec fn ptp_message_is(p: CapturedPacket, name: Seq<char>) -> bool {
    p.info.is_ptp && p.tsn_info.is_some() && p.tsn_info.unwrap().ptp_info.is_some()
        && p.tsn_info.unwrap().ptp_info.unwrap().message_type@ == name
}

fn ptp_message_equals(p: &CapturedPacket, name: &str) -> (r: bool)
    ensures
        r == ptp_message_is(*p, name@),
{
    if !p.info.is_ptp {
        return false;
    }
    match &p.tsn_info {
        Some(t) => match &t.ptp_info {
            Some(pi) => pi.message_type == String::from_str(name),
            None => false,
        },
        None => false,
    }
}

/// Group addresses: `01:*`, `33:33:*`, and broadcast.
pub open spec fn is_multicast_text(mac: Seq<char>) -> bool {
    has_prefix(mac, "01:"@) || has_prefix(mac, "33:33"@) || mac == "ff:ff:ff:ff:ff:ff"@
}

fn is_multicast_mac(mac: &String) -> (r: bool)
    ensures
        r == is_multicast_text(mac@),
{
    starts_with(mac.as_str(), "01:") || starts_with(mac.as_str(), "33:33") || *mac == String::from_str(
        "ff:ff:ff:ff:ff:ff",
    )
}

/// Device type suggested by one frame: reserved group addresses first, then
/// a grandmaster message the node itself sent (`gm_sender`), the vendor, and
/// more than three addresses.
pub open spec fn inferred_type(mac: Seq<char>, gm_sender: bool, ip_count: nat) -> NodeType {
    if has_prefix(mac, "01:1b:19"@) {
        NodeType::PtpGrandmaster
    } else if has_prefix(mac, "01:80:c2"@) {
        NodeType::TsnBridge
    } else if has_prefix(mac, "01:"@) || has_prefix(mac, "33:33"@) {
        NodeType::Unknown
    } else if gm_sender {
        NodeType::PtpGrandmaster
    } else if vendor_of(mac).is_some() && vendor_of(mac).unwrap().1.is_some() {
        vendor_of(mac).unwrap().1.unwrap()
    } else if ip_count > 3 {
        NodeType::Router
    } else {
        NodeType::EndStation
    }
}

#[derive(Clone, Debug)]
pub struct NetworkNode {
    pub id: String,
    pub mac_address: String,
    pub ip_addresses: Vec<String>,
    pub hostname: Option<String>,
    pub node_type: NodeType,
    pub vendor: Option<String>,
    pub first_seen_us: i64,
    pub last_seen_us: i64,
    pub packets_sent: u64,
    pub packets_received: u64,
    pub bytes_sent: u64,
    pub bytes_received: u64,
    pub tsn_capable: bool,
    pub ptp_role: Option<PtpRole>,
    pub vlan_memberships: Vec<u16>,
    pub lldp_info: Option<LldpInfo>,
    pub port_id: Option<String>,
    pub capabilities: Vec<DeviceCapability>,
    pub management_addresses: Vec<String>,
    pub ttl: Option<u16>,
}

/// A directed link; the bandwidth follows from `bytes` and the span of the
/// topology's observation window.
#[derive(Clone, Debug)]
pub struct NetworkLink {
    pub id: String,
    pub source: String,
    pub target: String,
    pub packets: u64,
    pub bytes: u64,
    pub vlan_ids: Vec<u16>,
    pub traffic_classes: Vec<u8>,
    pub is_tsn_path: bool,
    pub link_type: LinkType,
    pub duplex: Option<bool>,
    pub speed_mbps: Option<u32>,
    pub last_active_us: i64,
}

#[derive(Clone, Copy, Debug)]
pub struct TopologyStats {
    pub total_packets: u64,
    pub total_bytes: u64,
    pub first_packet_us: Option<i64>,
    pub last_packet_us: Option<i64>,
}

#[derive(Clone, Copy, Debug)]
pub struct TopologyStatsResponse {
    pub total_nodes: usize,
    pub total_links: usize,
    pub total_packets: u64,
    pub total_bytes: u64,
    pub tsn_nodes: usize,
    pub ptp_nodes: usize,
}

/// The graph joins the nodes of MAC addresses `a` and `b`, in either direction.
pub open spec fn graph_linked(macs: Seq<String>, edges: Seq<(int, int, u64)>, a: Seq<char>, b: Seq<char>) -> bool {
    exists|i: int, j: int| 0 <= i < macs.len() && 0 <= j < macs.len() && (#[trigger] macs[i])@ == a && (#[trigger] macs[j])@ == b
        && (has_edge(edges, i, j) || has_edge(edges, j, i))
}

/// The MAC address last recorded for `ip`.
pub open spec fn last_mac_for(pairs: Seq<(String, String)>, ip: Seq<char>) -> Option<Seq<char>>
    decreases pairs.len(),
{
    if pairs.len() == 0 {
        None
    } else if pairs.last().0@ == ip {
        Some(pairs.last().1@)
    } else {
        last_mac_for(pairs.drop_last(), ip)
    }
}

/// A host name is cached for `ip`.
pub open spec fn has_hostname(pairs: Seq<(String, String)>, ip: Seq<char>) -> bool {
    exists|i: int| 0 <= i < pairs.len() && (#[trigger] pairs[i]).0@ == ip
}

/// Some element of `v` reads `s`.
pub open spec fn has_text(v: Seq<String>, s: Seq<char>) -> bool {
    exists|k: int| 0 <= k < v.len() && (#[trigger] v[k])@ == s
}

pub open spec fn is_gateway_type(t: NodeType) -> bool {
    t == NodeType::Router || t == NodeType::Gateway
}

/// Bytes a node sent and received.
pub open spec fn traffic_of(n: NetworkNode) -> int {
    n.bytes_sent + n.bytes_received
}

/// Node `j` is the gateway: the first router or gateway, or, without one,
/// the first node with the most traffic.
pub open spec fn gateway_choice(nodes: Seq<NetworkNode>, j: int) -> bool {
    if exists|k: int| 0 <= k < nodes.len() && is_gateway_type((#[trigger] nodes[k]).node_type) {
        is_gateway_type(nodes[j].node_type) && forall|k: int| 0 <= k < j ==> !is_gateway_type((#[trigger] nodes[k]).node_type)
    } else {
        (forall|k: int| 0 <= k < nodes.len() ==> traffic_of(#[trigger] nodes[k]) <= traffic_of(nodes[j]))
            && forall|k: int| 0 <= k < j ==> traffic_of(#[trigger] nodes[k]) < traffic_of(nodes[j])
    }
}

pub struct TopologyManager {
    pub nodes: Vec<NetworkNode>,
    pub links: Vec<NetworkLink>,
    /// Every MAC address seen at either end of a link, by graph node index.
    pub graph_macs: Vec<String>,
    /// One edge per link, weighted with the link's position.
    pub graph: Graph<u64, u64>,
    /// Last MAC address seen with each IP address.
    pub ip_to_mac: Vec<(String, String)>,
    /// Resolved host names by IP address.
    pub ip_to_hostname: Vec<(String, String)>,
    pub stats: TopologyStats,
}

pub open spec fn node_wf(n: NetworkNode, st: TopologyStats) -> bool {
    &&& n.packets_sent <= st.total_packets
    &&& n.packets_received <= st.total_packets
    &&& n.bytes_sent <= st.total_bytes
    &&& n.bytes_received <= st.total_bytes
    &&& strictly_sorted_u16(n.vlan_memberships@)
}

pub open spec fn link_wf(l: NetworkLink, st: TopologyStats) -> bool {
    &&& l.packets <= st.total_packets
    &&& l.bytes <= st.total_bytes
    &&& strictly_sorted_u16(l.vlan_ids@)
    &&& strictly_sorted_u8(l.traffic_classes@)
}

/// Node `i` of `after` is node `i` of `before`, ranked at least as high.
pub open spec fn types_kept(before: Seq<NetworkNode>, after: Seq<NetworkNode>) -> bool {
    &&& before.len() <= after.len()
    &&& forall|i: int| 0 <= i < before.len() ==> (#[trigger] after[i]).mac_address@ == before[i].mac_address@
        && priority_of(after[i].node_type) >= priority_of(before[i].node_type)
}

/// Packets and bytes sent, packets and bytes received.
pub open spec fn counters_of(n: NetworkNode) -> (u64, u64, u64, u64) {
    (n.packets_sent, n.bytes_sent, n.packets_received, n.bytes_received)
}

/// Counting one more frame of `len` bytes in the direction `is_source`
/// stays within the topology totals.
pub open spec fn has_room(c: (u64, u64, u64, u64), st: TopologyStats, len: u32, is_source: bool) -> bool {
    if is_source {
        c.0 < st.total_packets && c.1 + len <= st.total_bytes
    } else {
        c.2 < st.total_packets && c.3 + len <= st.total_bytes
    }
}

/// The counters of the direction not being updated are unchanged.
pub open spec fn other_side_kept(after: (u64, u64, u64, u64), before: (u64, u64, u64, u64), is_source: bool) -> bool {
    if is_source {
        after.2 == before.2 && after.3 == before.3
    } else {
        after.0 == before.0 && after.1 == before.1
    }
}

/// PTP role after a frame: a sender of Announce or Sync is grandmaster; a
/// sender of Delay_Req without a role is an ordinary clock; of Pdelay_Req or
/// Pdelay_Resp, a transparent clock.
pub open spec fn role_after(role: Option<PtpRole>, p: CapturedPacket, is_source: bool) -> Option<PtpRole> {
    if !is_source {
        role
    } else if is_gm_message(p) {
        Some(PtpRole::Grandmaster)
    } else if ptp_message_is(p, "Delay_Req"@) && role.is_none() {
        Some(PtpRole::OrdinaryClock)
    } else if (ptp_message_is(p, "Pdelay_Req"@) || ptp_message_is(p, "Pdelay_Resp"@)) && role.is_none() {
        Some(PtpRole::TransparentClock)
    } else {
        role
    }
}

/// Type after a frame: a grandmaster message from the node makes it
/// grandmaster; then the inferred type replaces it only if it ranks higher.
pub open spec fn type_after(t: NodeType, p: CapturedPacket, is_source: bool, inferred: NodeType) -> NodeType {
    let t1 = if is_source && is_gm_message(p) { NodeType::PtpGrandmaster } else { t };
    if priority_of(inferred) > priority_of(t1) { inferred } else { t1 }
}

/// Link `after` is `before` (or, for `None`, a link first used now) after
/// one frame: counted, its VLAN and priority merged in, its TSN mark sticky.
#[verifier::opaque]
pub open spec fn link_step(before: Option<NetworkLink>, after: NetworkLink, p: CapturedPacket) -> bool {
    let (packets, bytes, vlans, pcps, tsn) = match before {
        Some(l) => (l.packets, l.bytes, l.vlan_ids@.to_set(), l.traffic_classes@.to_set(), l.is_tsn_path),
        None => (0u64, 0u64, Set::<u16>::empty(), Set::<u8>::empty(), false),
    };
    &&& after.packets == packets + 1
    &&& after.bytes == bytes + p.length
    &&& after.last_active_us == p.timestamp_us
    &&& after.vlan_ids@.to_set() == match p.info.vlan_id { Some(v) => vlans.insert(v), None => vlans }
    &&& after.traffic_classes@.to_set() == match p.info.vlan_pcp { Some(c) => pcps.insert(c), None => pcps }
    &&& after.is_tsn_path == (tsn || p.info.is_tsn || p.info.is_ptp)
}

/// No two nodes share a MAC address.
pub open spec fn macs_unique(nodes: Seq<NetworkNode>) -> bool {
    forall|i: int, j: int| 0 <= i < j < nodes.len() ==> (#[trigger] nodes[i]).mac_address@ != (#[trigger] nodes[j]).mac_address@
}

/// No two links share source and target.
pub open spec fn links_unique(links: Seq<NetworkLink>) -> bool {
    forall|i: int, j: int| 0 <= i < j < links.len() ==> !((#[trigger] links[i]).source@ == (#[trigger] links[j]).source@
        && links[i].target@ == links[j].target@)
}

/// The sender's node `n` after a frame, from `b` (or a new node): one more
/// frame and its bytes sent, its PTP role and TSN flag per the rules, seen now,
/// and ranked at least as the rules rank it.
#[verifier::opaque]
pub open spec fn sender_update(b: Option<NetworkNode>, n: NetworkNode, p: CapturedPacket) -> bool {
    let ips_len = match b { Some(x) => x.ip_addresses@.len(), None => 0 };
    let inferred = inferred_type(n.mac_address@, is_gm_message(p), ips_len);
    let (sent, bsent, role, tsn, t) = match b {
        Some(x) => (x.packets_sent, x.bytes_sent, x.ptp_role, x.tsn_capable, x.node_type),
        None => (0u64, 0u64, None, false, inferred),
    };
    &&& n.packets_sent == sent + 1
    &&& n.bytes_sent == bsent + p.length
    &&& n.ptp_role == role_after(role, p, true)
    &&& n.last_seen_us == p.timestamp_us
    &&& n.tsn_capable == (tsn || p.info.is_tsn || p.info.is_ptp || p.info.vlan_pcp.is_some())
    &&& priority_of(n.node_type) >= priority_of(type_after(t, p, true, inferred))
}

/// The receiver's node `n` after a frame, from `b` (or a new node): one more
/// frame and its bytes received.
#[verifier::opaque]
pub open spec fn receiver_update(b: Option<NetworkNode>, n: NetworkNode, p: CapturedPacket) -> bool {
    let (recv, brecv) = match b {
        Some(x) => (x.packets_received, x.bytes_received),
        None => (0u64, 0u64),
    };
    n.packets_received == recv + 1 && n.bytes_received == brecv + p.length
}

proof fn lemma_node_step_fields(b: NetworkNode, a: NetworkNode, p: CapturedPacket, is_source: bool, inferred: NodeType)
    requires
        inferred == inferred_type(b.mac_address@, is_source && is_gm_message(p), b.ip_addresses@.len()),
        a.mac_address == b.mac_address,
        a.last_seen_us == p.timestamp_us,
        a.node_type == type_after(b.node_type, p, is_source, inferred),
        a.ptp_role == role_after(b.ptp_role, p, is_source),
        a.tsn_capable == (b.tsn_capable || p.info.is_tsn || p.info.is_ptp || p.info.vlan_pcp.is_some()),
        is_source ==> a.packets_sent == b.packets_sent + 1,
        !is_source ==> a.packets_received == b.packets_received + 1,
        other_side_kept(counters_of(a), counters_of(b), is_source),
        a.bytes_sent == b.bytes_sent + (if is_source { p.length as int } else { 0int }),
        a.bytes_received == b.bytes_received + (if is_source { 0int } else { p.length as int }),
        texts(a.ip_addresses@) == ips_after(b.ip_addresses@, ip_at(p, is_source)),
        a.vlan_memberships@.to_set() == match p.info.vlan_id {
            Some(v) => b.vlan_memberships@.to_set().insert(v),
            None => b.vlan_memberships@.to_set(),
        },
    ensures
        node_step(Some(b), a, p, is_source),
{
    reveal(node_step);
}

proof fn lemma_sender_step(n0: Seq<NetworkNode>, a: Seq<NetworkNode>, w: int, p: CapturedPacket)
    requires
        macs_unique(n0),
        0 <= w < a.len(),
        a[w].mac_address@ == p.info.src_mac@,
        node_step(if w < n0.len() { Some(n0[w]) } else { None }, a[w], p, true),
        w >= n0.len() ==> node_of(n0, p.info.src_mac@).is_none(),
        w < n0.len() ==> n0[w].mac_address@ == p.info.src_mac@,
    ensures
        sender_update(node_of(n0, p.info.src_mac@), a[w], p),
        a[w].node_type == sender_type(node_of(n0, p.info.src_mac@), p.info.src_mac@, p),
{
    reveal(node_step);
    reveal(sender_update);
    if w < n0.len() {
        lemma_node_of_at(n0, w);
    }
}

#[verifier::rlimit(60)]
proof fn lemma_receiver_step(n0: Seq<NetworkNode>, a: Seq<NetworkNode>, c: Seq<NetworkNode>, w: int, i2: int, p: CapturedPacket)
    requires
        macs_unique(n0),
        macs_unique(a),
        0 <= w < a.len(),
        a[w].mac_address@ == p.info.src_mac@,
        sender_update(node_of(n0, p.info.src_mac@), a[w], p),
        node_step(if w < n0.len() { Some(n0[w]) } else { None }, a[w], p, true),
        a.len() == n0.len() || (a.len() == n0.len() + 1 && a.last().mac_address@ == p.info.src_mac@),
        forall|k: int| 0 <= k < n0.len() && k != w ==> #[trigger] a[k] == n0[k],
        w >= n0.len() ==> node_of(n0, p.info.src_mac@).is_none(),
        w < n0.len() ==> n0[w].mac_address@ == p.info.src_mac@,
        i2 < a.len() ==> a[i2].mac_address@ == p.info.dst_mac@,
        0 <= i2 < c.len(),
        c[i2].mac_address@ == p.info.dst_mac@,
        node_step(if i2 < a.len() { Some(a[i2]) } else { None }, c[i2], p, false),
        i2 >= a.len() ==> node_of(a, p.info.dst_mac@).is_none(),
        forall|k: int| 0 <= k < a.len() && k != i2 ==> #[trigger] c[k] == a[k],
    ensures
        c[w].mac_address@ == p.info.src_mac@,
        sender_update(node_of(n0, p.info.src_mac@), c[w], p),
        receiver_update(node_of(n0, p.info.dst_mac@), c[i2], p),
        p.info.dst_mac@ != p.info.src_mac@ ==> c[w] == a[w] && receiver_exact(node_of(n0, p.info.dst_mac@), c[i2], p),
{
    reveal(node_step);
    reveal(sender_update);
    reveal(receiver_update);
    let src = p.info.src_mac@;
    let dst = p.info.dst_mac@;
    if a.len() == n0.len() + 1 && w < n0.len() {
        assert(a[w].mac_address@ != a[a.len() - 1].mac_address@);
    }
    if dst == src {
        lemma_node_of_at(a, w);
        if i2 != w {
            if i2 < a.len() {
                if i2 < w {
                    assert(a[i2].mac_address@ != a[w].mac_address@);
                } else {
                    assert(a[w].mac_address@ != a[i2].mac_address@);
                }
            }
        }
        assert(i2 == w);
    } else {
        assert(c[w] == a[w]);
        if i2 < a.len() {
            assert(i2 < n0.len());
            assert(a[i2] == n0[i2]);
            lemma_node_of_at(n0, i2);
        } else {
            assert forall|k: int| 0 <= k < n0.len() implies (#[trigger] n0[k]).mac_address@ != dst by {
                if k != w {
                    assert(a[k] == n0[k]);
                    if n0[k].mac_address@ == dst {
                        assert(a[k].mac_address@ == dst);
                    }
                } else {
                    assert(n0[k].mac_address@ == a[k].mac_address@);
                }
            }
        }
    }
}

proof fn lemma_kept_updates(bs: Option<NetworkNode>, bd: Option<NetworkNode>, x: NetworkNode, y: NetworkNode, p: CapturedPacket, sender: bool)
    requires
        sender ==> sender_update(bs, x, p),
        !sender ==> receiver_update(bd, x, p),
        counters_of(y) == counters_of(x),
        y.ptp_role == x.ptp_role && y.last_seen_us == x.last_seen_us && y.tsn_capable == x.tsn_capable,
        y.mac_address@ == x.mac_address@,
        priority_of(y.node_type) >= priority_of(x.node_type),
    ensures
        sender ==> sender_update(bs, y, p),
        !sender ==> receiver_update(bd, y, p),
{
    reveal(sender_update);
    reveal(receiver_update);
}

/// The sender's type after a frame, from `b` (or a new node), before any LLDP step.
pub open spec fn sender_type(b: Option<NetworkNode>, mac: Seq<char>, p: CapturedPacket) -> NodeType {
    let ips_len = match b { Some(x) => x.ip_addresses@.len(), None => 0 };
    let inferred = inferred_type(mac, is_gm_message(p), ips_len);
    let t = match b { Some(x) => x.node_type, None => inferred };
    type_after(t, p, true, inferred)
}

/// The receiver's node `n` from `b` (or a new node): its PTP role kept and its
/// type as the rules for a receiver give it.
pub open spec fn receiver_exact(b: Option<NetworkNode>, n: NetworkNode, p: CapturedPacket) -> bool {
    let ips_len = match b { Some(x) => x.ip_addresses@.len(), None => 0 };
    let inferred = inferred_type(n.mac_address@, false, ips_len);
    let (t, role) = match b { Some(x) => (x.node_type, x.ptp_role), None => (inferred, None) };
    n.ptp_role == role && n.node_type == type_after(t, p, false, inferred)
}

/// `t` raised by each capability's floor in turn, where the floor ranks higher.
pub open spec fn promote_caps(t: NodeType, caps: Seq<DeviceCapability>) -> NodeType
    decreases caps.len(),
{
    if caps.len() == 0 {
        t
    } else {
        let before = promote_caps(t, caps.drop_last());
        if priority_of(cap_floor(caps.last())) > priority_of(before) { cap_floor(caps.last()) } else { before }
    }
}

/// The sender's type `t` after the LLDP step of frame `p`.
pub open spec fn lldp_type(t: NodeType, p: CapturedPacket) -> NodeType {
    if p.info.ethertype == 0x88CC && crate::lldp::lldp_of(p.data@).is_some() {
        promote_caps(t, crate::lldp::lldp_of(p.data@).unwrap().enabled_capabilities)
    } else {
        t
    }
}

/// What one frame `p` does to the nodes `n0`, giving `e`: the sender's
/// update (type exact unless it also receives the frame, and raised by its
/// LLDP capabilities), the receiver's update unless the destination is a group
/// address, and every other node unchanged.
#[verifier::opaque]
pub open spec fn nodes_after_frame(n0: Seq<NetworkNode>, e: Seq<NetworkNode>, p: CapturedPacket) -> bool {
    &&& (node_of(e, p.info.src_mac@).is_some())
    &&& (sender_update(
                node_of(n0, p.info.src_mac@),
                node_of(e, p.info.src_mac@).unwrap(),
                p,
            ))
    &&& (!is_multicast_text(p.info.dst_mac@) ==> node_of(e, p.info.dst_mac@).is_some()
                && receiver_update(
                node_of(n0, p.info.dst_mac@),
                node_of(e, p.info.dst_mac@).unwrap(),
                p,
            ))
    &&& ((p.info.ethertype == 0x88CC && crate::lldp::lldp_of(p.data@).is_some()) ==> forall|j: int|
                0 <= j < crate::lldp::lldp_of(p.data@).unwrap().enabled_capabilities.len() ==> priority_of(
                node_of(e, p.info.src_mac@).unwrap().node_type,
            ) >= priority_of(cap_floor(#[trigger] crate::lldp::lldp_of(p.data@).unwrap().enabled_capabilities[j])))
    &&& ((is_multicast_text(p.info.dst_mac@) || p.info.dst_mac@ != p.info.src_mac@) ==> node_of(
                e,
                p.info.src_mac@,
            ).unwrap().node_type == lldp_type(sender_type(node_of(n0, p.info.src_mac@), p.info.src_mac@, p), p))
    &&& ((!is_multicast_text(p.info.dst_mac@) && p.info.dst_mac@ != p.info.src_mac@) ==> receiver_exact(
                node_of(n0, p.info.dst_mac@),
                node_of(e, p.info.dst_mac@).unwrap(),
                p,
            ))
    &&& (forall|k: int| 0 <= k < n0.len() && n0[k].mac_address@ != p.info.src_mac@
                && n0[k].mac_address@ != p.info.dst_mac@ ==> #[trigger] e[k] == n0[k])
}

proof fn lemma_promote_caps(t: NodeType, caps: Seq<DeviceCapability>)
    ensures
        priority_of(promote_caps(t, caps)) >= priority_of(t),
        forall|j: int| 0 <= j < caps.len() ==> priority_of(promote_caps(t, caps)) >= priority_of(cap_floor(#[trigger] caps[j])),
    decreases caps.len(),
{
    if caps.len() > 0 {
        lemma_promote_caps(t, caps.drop_last());
        assert forall|j: int| 0 <= j < caps.len() implies priority_of(promote_caps(t, caps)) >= priority_of(cap_floor(#[trigger] caps[j])) by {
            if j < caps.len() - 1 {
                assert(caps[j] == caps.drop_last()[j]);
            }
        }
    }
}

proof fn lemma_frame_nodes(n0: Seq<NetworkNode>, a: Seq<NetworkNode>, e: Seq<NetworkNode>, w: int, v: int, p: CapturedPacket)
    requires
        macs_unique(e),
        e.len() == a.len(),
        forall|k: int| 0 <= k < e.len() ==> (#[trigger] e[k]).mac_address@ == a[k].mac_address@ && counters_of(e[k]) == counters_of(a[k])
            && e[k].ptp_role == a[k].ptp_role && e[k].last_seen_us == a[k].last_seen_us && e[k].tsn_capable == a[k].tsn_capable,
        forall|k: int| 0 <= k < e.len() && (#[trigger] e[k]).mac_address@ != p.info.src_mac@ ==> e[k] == a[k],
        forall|k: int| 0 <= k < e.len() && (#[trigger] e[k]).mac_address@ == p.info.src_mac@ ==> e[k].node_type == lldp_type(a[k].node_type, p),
        0 <= w < a.len(),
        a[w].mac_address@ == p.info.src_mac@,
        sender_update(node_of(n0, p.info.src_mac@), a[w], p),
        (is_multicast_text(p.info.dst_mac@) || p.info.dst_mac@ != p.info.src_mac@) ==> a[w].node_type == sender_type(
            node_of(n0, p.info.src_mac@),
            p.info.src_mac@,
            p,
        ),
        !is_multicast_text(p.info.dst_mac@) ==> 0 <= v < a.len() && a[v].mac_address@ == p.info.dst_mac@ && receiver_update(
            node_of(n0, p.info.dst_mac@),
            a[v],
            p,
        ) && (p.info.dst_mac@ != p.info.src_mac@ ==> receiver_exact(node_of(n0, p.info.dst_mac@), a[v], p)),
        a.len() >= n0.len(),
        forall|k: int| 0 <= k < n0.len() && n0[k].mac_address@ != p.info.src_mac@ && n0[k].mac_address@ != p.info.dst_mac@
            ==> #[trigger] a[k] == n0[k],
    ensures
        nodes_after_frame(n0, e, p),
{
    reveal(nodes_after_frame);
    let src = p.info.src_mac@;
    let dst = p.info.dst_mac@;
    lemma_node_of_at(e, w);
    lemma_promote_caps(a[w].node_type, if p.info.ethertype == 0x88CC && crate::lldp::lldp_of(p.data@).is_some() {
        crate::lldp::lldp_of(p.data@).unwrap().enabled_capabilities
    } else {
        Seq::empty()
    });
    assert(e[w].node_type == lldp_type(a[w].node_type, p));
    assert(priority_of(e[w].node_type) >= priority_of(a[w].node_type));
    lemma_kept_updates(node_of(n0, src), node_of(n0, dst), a[w], e[w], p, true);
    if !is_multicast_text(dst) {
        lemma_node_of_at(e, v);
        if dst != src {
            assert(e[v] == a[v]);
        } else {
            assert(priority_of(e[v].node_type) >= priority_of(a[v].node_type)) by {
                lemma_promote_caps(a[v].node_type, if p.info.ethertype == 0x88CC && crate::lldp::lldp_of(p.data@).is_some() {
                    crate::lldp::lldp_of(p.data@).unwrap().enabled_capabilities
                } else {
                    Seq::empty()
                });
            }
        }
        lemma_kept_updates(node_of(n0, src), node_of(n0, dst), a[v], e[v], p, false);
    }
    assert forall|k: int| 0 <= k < n0.len() && n0[k].mac_address@ != src && n0[k].mac_address@ != dst implies #[trigger] e[k] == n0[k] by {
        assert(a[k] == n0[k]);
        assert(e[k].mac_address@ == a[k].mac_address@);
    }
}

/// The least rank an enabled LLDP capability gives a node.
pub open spec fn cap_floor(c: DeviceCapability) -> NodeType {
    match c {
        DeviceCapability::Router => NodeType::Router,
        DeviceCapability::Bridge => NodeType::Switch,
        DeviceCapability::WlanAP => NodeType::AccessPoint,
        DeviceCapability::Repeater => NodeType::Repeater,
        _ => NodeType::Unknown,
    }
}

proof fn lemma_node_of_at(nodes: Seq<NetworkNode>, i: int)
    requires
        macs_unique(nodes),
        0 <= i < nodes.len(),
    ensures
        node_of(nodes, nodes[i].mac_address@) == Some(nodes[i]),
{
    let m = nodes[i].mac_address@;
    assert(nodes[i].mac_address@ == m);
    let c = choose|k: int| 0 <= k < nodes.len() && (#[trigger] nodes[k]).mac_address@ == m;
    if c != i {
        if c < i {
            assert(nodes[c].mac_address@ != nodes[i].mac_address@);
        } else {
            assert(nodes[i].mac_address@ != nodes[c].mac_address@);
        }
    }
}

/// `a` and `b` list the same MAC addresses in the same order.
pub open spec fn same_macs(a: Seq<NetworkNode>, b: Seq<NetworkNode>) -> bool {
    a.len() == b.len() && forall|k: int| 0 <= k < a.len() ==> (#[trigger] b[k]).mac_address@ == a[k].mac_address@
}

proof fn lemma_same_macs_unique(a: Seq<NetworkNode>, b: Seq<NetworkNode>)
    requires
        macs_unique(a),
        same_macs(a, b),
    ensures
        macs_unique(b),
{
    assert forall|i: int, j: int| 0 <= i < j < b.len() implies (#[trigger] b[i]).mac_address@ != (#[trigger] b[j]).mac_address@ by {
        assert(b[i].mac_address@ == a[i].mac_address@);
        assert(b[j].mac_address@ == a[j].mac_address@);
    }
}

/// The node with MAC address `mac`, if any.
pub open spec fn node_of(nodes: Seq<NetworkNode>, mac: Seq<char>) -> Option<NetworkNode> {
    if exists|i: int| 0 <= i < nodes.len() && (#[trigger] nodes[i]).mac_address@ == mac {
        Some(nodes[choose|i: int| 0 <= i < nodes.len() && (#[trigger] nodes[i]).mac_address@ == mac])
    } else {
        None
    }
}

pub open spec fn texts(v: Seq<String>) -> Seq<Seq<char>> {
    v.map_values(|s: String| s@)
}

/// The address of `p` at the end that the node stands at.
pub open spec fn ip_at(p: CapturedPacket, is_source: bool) -> Option<Seq<char>> {
    if is_source { opt_text(p.info.src_ip) } else { opt_text(p.info.dst_ip) }
}

/// Address list after seeing address `ip`: appended unless already there.
pub open spec fn ips_after(before: Seq<String>, ip: Option<Seq<char>>) -> Seq<Seq<char>> {
    match ip {
        Some(a) => if contains_text(before, a) { texts(before) } else { texts(before).push(a) },
        None => texts(before),
    }
}

/// Node `after` is `before` (or, for `None`, a node first seen now) after one
/// frame in which it is the sender when `is_source`: its type and PTP role per
/// the rules, TSN flag, last-seen time, the direction's counters, the frame's
/// address at its end and its VLAN.
#[verifier::opaque]
pub open spec fn node_step(before: Option<NetworkNode>, after: NetworkNode, p: CapturedPacket, is_source: bool) -> bool {
    let b_ips = match before { Some(n) => n.ip_addresses@, None => Seq::<String>::empty() };
    let inferred = inferred_type(after.mac_address@, is_source && is_gm_message(p), b_ips.len());
    let (t, role, tsn, sent, bsent, recv, brecv) = match before {
        Some(n) => (n.node_type, n.ptp_role, n.tsn_capable, n.packets_sent, n.bytes_sent, n.packets_received, n.bytes_received),
        None => (inferred, None, false, 0u64, 0u64, 0u64, 0u64),
    };
    let vlans = match before { Some(n) => n.vlan_memberships@.to_set(), None => Set::<u16>::empty() };
    &&& after.node_type == type_after(t, p, is_source, inferred)
    &&& after.ptp_role == role_after(role, p, is_source)
    &&& after.tsn_capable == (tsn || p.info.is_tsn || p.info.is_ptp || p.info.vlan_pcp.is_some())
    &&& after.last_seen_us == p.timestamp_us
    &&& after.packets_sent == sent + (if is_source { 1int } else { 0int })
    &&& after.bytes_sent == bsent + (if is_source { p.length as int } else { 0int })
    &&& after.packets_received == recv + (if is_source { 0int } else { 1int })
    &&& after.bytes_received == brecv + (if is_source { 0int } else { p.length as int })
    &&& texts(after.ip_addresses@) == ips_after(b_ips, ip_at(p, is_source))
    &&& after.vlan_memberships@.to_set() == match p.info.vlan_id { Some(v) => vlans.insert(v), None => vlans }
}

/// Counts, addresses, VLANs, TSN flag, PTP role and type of a node after one frame.
#[verifier::rlimit(60)]
fn refresh_node(
    node: &mut NetworkNode,
    packet: &CapturedPacket,
    is_source: bool,
    inferred: NodeType,
    hostname: Option<String>,
    st: TopologyStats,
)
    requires
        strictly_sorted_u16(old(node).vlan_memberships@),
        old(node).packets_sent <= st.total_packets && old(node).packets_received <= st.total_packets,
        old(node).bytes_sent <= st.total_bytes && old(node).bytes_received <= st.total_bytes,
        has_room(counters_of(*old(node)), st, packet.length, is_source),
    ensures
        node_wf(*final(node), st),
        other_side_kept(counters_of(*final(node)), counters_of(*old(node)), is_source),
        final(node).mac_address == old(node).mac_address,
        final(node).last_seen_us == packet.timestamp_us,
        final(node).node_type == type_after(old(node).node_type, *packet, is_source, inferred),
        final(node).ptp_role == role_after(old(node).ptp_role, *packet, is_source),
        final(node).tsn_capable == (old(node).tsn_capable || packet.info.is_tsn || packet.info.is_ptp
            || packet.info.vlan_pcp.is_some()),
        is_source ==> final(node).packets_sent == old(node).packets_sent + 1,
        !is_source ==> final(node).packets_received == old(node).packets_received + 1,
        final(node).bytes_sent == old(node).bytes_sent + (if is_source { packet.length as int } else { 0int }),
        final(node).bytes_received == old(node).bytes_received + (if is_source { 0int } else { packet.length as int }),
        texts(final(node).ip_addresses@) == ips_after(old(node).ip_addresses@, ip_at(*packet, is_source)),
        final(node).vlan_memberships@.to_set() == match packet.info.vlan_id {
            Some(v) => old(node).vlan_memberships@.to_set().insert(v),
            None => old(node).vlan_memberships@.to_set(),
        },
{
    let ghost ips0 = node.ip_addresses@;
    node.last_seen_us = packet.timestamp_us;
    if is_source {
        node.packets_sent = node.packets_sent + 1;
        node.bytes_sent = node.bytes_sent + packet.length as u64;
        match &packet.info.src_ip {
            Some(a) => push_unique_text(&mut node.ip_addresses, a),
            None => {},
        }
    } else {
        node.packets_received = node.packets_received + 1;
        node.bytes_received = node.bytes_received + packet.length as u64;
        match &packet.info.dst_ip {
            Some(a) => push_unique_text(&mut node.ip_addresses, a),
            None => {},
        }
    }
    proof {
        let ip = ip_at(*packet, is_source);
        if ip.is_some() && !contains_text(ips0, ip.unwrap()) {
            assert(node.ip_addresses@.drop_last() =~= ips0);
            assert(texts(node.ip_addresses@) =~= texts(ips0).push(ip.unwrap()));
        }
        assert(texts(node.ip_addresses@) == ips_after(ips0, ip));
    }
    if hostname.is_some() && node.hostname.is_none() {
        node.hostname = hostname;
    }
    match packet.info.vlan_id {
        Some(v) => insert_sorted_u16(&mut node.vlan_memberships, v),
        None => {},
    }
    if packet.info.is_tsn || packet.info.is_ptp || packet.info.vlan_pcp.is_some() {
        node.tsn_capable = true;
    }
    if is_source {
        if ptp_message_equals(packet, "Announce") || ptp_message_equals(packet, "Sync") {
            node.ptp_role = Some(PtpRole::Grandmaster);
            node.node_type = NodeType::PtpGrandmaster;
        } else if ptp_message_equals(packet, "Delay_Req") {
            if node.ptp_role.is_none() {
                node.ptp_role = Some(PtpRole::OrdinaryClock);
            }
        } else if ptp_message_equals(packet, "Pdelay_Req") || ptp_message_equals(packet, "Pdelay_Resp") {
            if node.ptp_role.is_none() {
                node.ptp_role = Some(PtpRole::TransparentClock);
            }
        }
    }
    promote(node, inferred);
}

/// A node seen for the first time.
fn new_node(mac: &String, vendor: Option<String>, node_type: NodeType, now_us: i64) -> (r: NetworkNode)
    ensures
        r.mac_address@ == mac@,
        counters_of(r) == (0u64, 0u64, 0u64, 0u64),
        r.node_type == node_type,
        r.vlan_memberships@.len() == 0,
        r.ip_addresses@.len() == 0,
        r.ptp_role.is_none(),
        !r.tsn_capable,
{
    NetworkNode {
        id: mac.clone(),
        mac_address: mac.clone(),
        ip_addresses: Vec::new(),
        hostname: None,
        node_type,
        vendor,
        first_seen_us: now_us,
        last_seen_us: now_us,
        packets_sent: 0,
        packets_received: 0,
        bytes_sent: 0,
        bytes_received: 0,
        tsn_capable: false,
        ptp_role: None,
        vlan_memberships: Vec::new(),
        lldp_info: None,
        port_id: None,
        capabilities: Vec::new(),
        management_addresses: Vec::new(),
        ttl: None,
    }
}

/// Raises the type to `t` when `t` ranks strictly higher.
fn promote(node: &mut NetworkNode, t: NodeType)
    ensures
        final(node).node_type == (if priority_of(t) > priority_of(old(node).node_type) { t } else { old(node).node_type }),
        *final(node) == (NetworkNode { node_type: final(node).node_type, ..*old(node) }),
{
    if t.priority() > node.node_type.priority() {
        node.node_type = t;
    }
}

impl TopologyManager {
    pub open spec fn wf(&self) -> bool {
        &&& macs_unique(self.nodes@)
        &&& links_unique(self.links@)
        &&& forall|i: int| 0 <= i < self.nodes@.len() ==> node_wf(#[trigger] self.nodes@[i], self.stats)
        &&& forall|i: int| 0 <= i < self.links@.len() ==> link_wf(#[trigger] self.links@[i], self.stats)
        &&& graph_nodes(self.graph).len() == self.graph_macs@.len() < u32::MAX
        &&& forall|i: int, j: int| 0 <= i < j < self.graph_macs@.len() ==> (#[trigger] self.graph_macs@[i])@ != (#[trigger] self.graph_macs@[j])@
        &&& forall|e: int| 0 <= e < graph_edges(self.graph).len() ==> 0 <= (#[trigger] graph_edges(self.graph)[e]).0 < self.graph_macs@.len()
            && 0 <= graph_edges(self.graph)[e].1 < self.graph_macs@.len()
    }

    /// The graph can take the nodes and the edge of one more frame.
    pub open spec fn graph_has_room(&self) -> bool {
        self.graph_macs@.len() + 2 < u32::MAX && graph_edges(self.graph).len() + 1 < u32::MAX
    }

    /// Whether the graph can take the nodes and the edge of one more frame.
    pub fn has_graph_room(&self) -> (r: bool)
        ensures
            r == self.graph_has_room(),
    {
        self.graph_macs.len() < 0xFFFF_FFFD && graph_edge_count(&self.graph) < 0xFFFF_FFFE
    }

    pub fn new() -> (r: TopologyManager)
        ensures
            r.wf(),
            r.graph_has_room(),
            r.nodes@.len() == 0,
            r.links@.len() == 0,
            r.stats.total_packets == 0,
            r.stats.total_bytes == 0,
    {
        TopologyManager {
            nodes: Vec::new(),
            links: Vec::new(),
            graph_macs: Vec::new(),
            graph: graph_new(),
            ip_to_mac: Vec::new(),
            ip_to_hostname: Vec::new(),
            stats: TopologyStats { total_packets: 0, total_bytes: 0, first_packet_us: None, last_packet_us: None },
        }
    }

    /// Vendor name for the OUI at the start of `mac`, from the built-in table.
    pub fn lookup_vendor(&self, mac: &str) -> (r: Option<String>)
        ensures
            match r {
                Some(v) => vendor_of(mac@).is_some() && v@ == vendor_of(mac@).unwrap().0,
                None => vendor_of(mac@).is_none(),
            },
    {
        match parse_oui(mac) {
            Some(o) => match oui_entry(o) {
                Some((name, _)) => Some(String::from_str(name)),
                None => None,
            },
            None => None,
        }
    }

    fn vendor_type(mac: &str) -> (r: Option<NodeType>)
        ensures
            r == (if vendor_of(mac@).is_some() { vendor_of(mac@).unwrap().1 } else { None }),
    {
        match parse_oui(mac) {
            Some(o) => match oui_entry(o) {
                Some((_, t)) => t,
                None => None,
            },
            None => None,
        }
    }

    /// The device type that one frame suggests for the node at `mac`.
    fn infer_node_type(&self, mac: &String, packet: &CapturedPacket, is_source: bool, ip_count: usize) -> (r: NodeType)
        ensures
            r == inferred_type(mac@, is_source && is_gm_message(*packet), ip_count as nat),
    {
        if starts_with(mac.as_str(), "01:1b:19") {
            return NodeType::PtpGrandmaster;
        }
        if starts_with(mac.as_str(), "01:80:c2") {
            return NodeType::TsnBridge;
        }
        if starts_with(mac.as_str(), "01:") || starts_with(mac.as_str(), "33:33") {
            return NodeType::Unknown;
        }
        if is_source && (ptp_message_equals(packet, "Announce") || ptp_message_equals(packet, "Sync")) {
            return NodeType::PtpGrandmaster;
        }
        match Self::vendor_type(mac.as_str()) {
            Some(t) => {
                return t;
            },
            None => {},
        }
        if ip_count > 3 {
            NodeType::Router
        } else {
            NodeType::EndStation
        }
    }

    fn find_node(&self, mac: &String) -> (r: Option<usize>)
        ensures
            match r {
                Some(i) => i < self.nodes@.len() && self.nodes@[i as int].mac_address@ == mac@,
                None => forall|j: int| 0 <= j < self.nodes@.len() ==> (#[trigger] self.nodes@[j]).mac_address@ != mac@,
            },
    {
        let mut i: usize = 0;
        while i < self.nodes.len()
            invariant
                i <= self.nodes@.len(),
                forall|j: int| 0 <= j < i ==> (#[trigger] self.nodes@[j]).mac_address@ != mac@,
            decreases self.nodes@.len() - i,
        {
            if self.nodes[i].mac_address == *mac {
                return Some(i);
            }
            i = i + 1;
        }
        None
    }

    fn hostname_of(&self, ip: &String) -> (r: Option<String>)
        ensures
            r.is_none() == !has_hostname(self.ip_to_hostname@, ip@),
            r.is_some() ==> exists|i: int| 0 <= i < self.ip_to_hostname@.len() && (#[trigger] self.ip_to_hostname@[i]).0@ == ip@
                && self.ip_to_hostname@[i].1@ == r.unwrap()@,
    {
        let mut i: usize = 0;
        while i < self.ip_to_hostname.len()
            invariant
                i <= self.ip_to_hostname@.len(),
                forall|k: int| 0 <= k < i ==> (#[trigger] self.ip_to_hostname@[k]).0@ != ip@,
            decreases self.ip_to_hostname@.len() - i,
        {
            if self.ip_to_hostname[i].0 == *ip {
                return Some(self.ip_to_hostname[i].1.clone());
            }
            i = i + 1;
        }
        None
    }

    fn remember_ip(&mut self, ip: &String, mac: &String)
        ensures
            final(self).nodes == old(self).nodes,
            final(self).links == old(self).links,
            final(self).stats == old(self).stats,
            final(self).graph == old(self).graph,
            final(self).graph_macs == old(self).graph_macs,
    {
        let mut i: usize = 0;
        while i < self.ip_to_mac.len()
            invariant
                self.nodes == old(self).nodes,
                self.links == old(self).links,
                self.stats == old(self).stats,
                self.graph == old(self).graph,
                self.graph_macs == old(self).graph_macs,
            decreases self.ip_to_mac@.len() - i,
        {
            if self.ip_to_mac[i].0 == *ip {
                self.ip_to_mac.remove(i);
                self.ip_to_mac.insert(i, (ip.clone(), mac.clone()));
                return;
            }
            i = i + 1;
        }
        self.ip_to_mac.push((ip.clone(), mac.clone()));
    }

    /// Refreshes node `idx` from one frame; the other nodes stay as they are.
    #[verifier::rlimit(60)]
    fn refresh_at(
        &mut self,
        idx: usize,
        packet: &CapturedPacket,
        is_source: bool,
        inferred: NodeType,
        hostname: Option<String>,
    )
        requires
            old(self).wf(),
            idx < old(self).nodes@.len(),
            has_room(counters_of(old(self).nodes@[idx as int]), old(self).stats, packet.length, is_source),
        ensures
            final(self).wf(),
            final(self).stats == old(self).stats,
            final(self).links == old(self).links,
            final(self).graph == old(self).graph,
            final(self).graph_macs == old(self).graph_macs,
            final(self).nodes@.len() == old(self).nodes@.len(),
            forall|i: int| 0 <= i < final(self).nodes@.len() && i != idx ==> #[trigger] final(self).nodes@[i] == old(self).nodes@[i],
            final(self).nodes@[idx as int].mac_address == old(self).nodes@[idx as int].mac_address,
            final(self).nodes@[idx as int].node_type == type_after(old(self).nodes@[idx as int].node_type, *packet, is_source, inferred),
            other_side_kept(counters_of(final(self).nodes@[idx as int]), counters_of(old(self).nodes@[idx as int]), is_source),
            same_macs(old(self).nodes@, final(self).nodes@),
            inferred == inferred_type(old(self).nodes@[idx as int].mac_address@, is_source && is_gm_message(*packet), old(self).nodes@[idx as int].ip_addresses@.len())
                ==> node_step(Some(old(self).nodes@[idx as int]), final(self).nodes@[idx as int], *packet, is_source),
    {
        let ghost mid = self.nodes@;
        let mut node = self.nodes.remove(idx);
        let ghost n0 = node;
        refresh_node(&mut node, packet, is_source, inferred, hostname, self.stats);
        proof {
            if inferred == inferred_type(n0.mac_address@, is_source && is_gm_message(*packet), n0.ip_addresses@.len()) {
                lemma_node_step_fields(n0, node, *packet, is_source, inferred);
            }
        }
        self.nodes.insert(idx, node);
        assert forall|i: int| 0 <= i < self.nodes@.len() implies node_wf(#[trigger] self.nodes@[i], self.stats) by {
            if i != idx {
                assert(self.nodes@[i] == mid[i]);
            }
        }
        assert forall|k: int| 0 <= k < mid.len() implies (#[trigger] self.nodes@[k]).mac_address@ == mid[k].mac_address@ by {
            if k != idx {
                assert(self.nodes@[k] == mid[k]);
            }
        }
        assert(same_macs(mid, self.nodes@));
        proof { lemma_same_macs_unique(mid, self.nodes@); }
    }

    /// Records the node and the IP address seen at `mac`, and refreshes the
    /// node from one frame (as sender when `is_source`).
    fn update_node(&mut self, mac: &String, packet: &CapturedPacket, is_source: bool)
        requires
            old(self).wf(),
            forall|i: int| 0 <= i < old(self).nodes@.len() ==> has_room(counters_of(#[trigger] old(self).nodes@[i]), old(self).stats, packet.length, is_source),
            has_room((0u64, 0u64, 0u64, 0u64), old(self).stats, packet.length, is_source),
        ensures
            final(self).wf(),
            final(self).stats == old(self).stats,
            final(self).links == old(self).links,
            final(self).graph == old(self).graph,
            final(self).graph_macs == old(self).graph_macs,
            types_kept(old(self).nodes@, final(self).nodes@),
            final(self).nodes@.len() == old(self).nodes@.len() || (final(self).nodes@.len() == old(self).nodes@.len() + 1 && final(self).nodes@.last().mac_address@ == mac@),
            exists|i: int| 0 <= i < final(self).nodes@.len() && (#[trigger] final(self).nodes@[i]).mac_address@ == mac@,
            exists|i: int| 0 <= i < final(self).nodes@.len() && (#[trigger] final(self).nodes@[i]).mac_address@ == mac@
                && node_step(if i < old(self).nodes@.len() { Some(old(self).nodes@[i]) } else { None }, final(self).nodes@[i], *packet, is_source)
                && (i >= old(self).nodes@.len() ==> node_of(old(self).nodes@, mac@).is_none())
                && (i < old(self).nodes@.len() ==> old(self).nodes@[i].mac_address@ == mac@)
                && forall|k: int| 0 <= k < old(self).nodes@.len() && k != i ==> #[trigger] final(self).nodes@[k] == old(self).nodes@[k],
            forall|i: int| 0 <= i < final(self).nodes@.len() ==> other_side_kept(
                counters_of(#[trigger] final(self).nodes@[i]),
                if i < old(self).nodes@.len() { counters_of(old(self).nodes@[i]) } else { (0u64, 0u64, 0u64, 0u64) },
                is_source,
            ),
    {
        let vendor = self.lookup_vendor(mac.as_str());
        let found = self.find_node(mac);
        let ip_count: usize = match found {
            Some(i) => self.nodes[i].ip_addresses.len(),
            None => 0,
        };
        let inferred = self.infer_node_type(mac, packet, is_source, ip_count);
        let ip = if is_source { &packet.info.src_ip } else { &packet.info.dst_ip };
        let hostname = match ip {
            Some(a) => {
                self.remember_ip(a, mac);
                self.hostname_of(a)
            },
            None => None,
        };
        let ghost before = self.nodes@;
        let idx = match found {
            Some(i) => i,
            None => {
                let n = new_node(mac, vendor, inferred, packet.timestamp_us);
                self.nodes.push(n);
                assert forall|i: int| 0 <= i < self.nodes@.len() implies node_wf(#[trigger] self.nodes@[i], self.stats) by {
                    if i < before.len() {
                        assert(self.nodes@[i] == before[i]);
                    }
                }
                assert forall|i: int, j: int| 0 <= i < j < self.nodes@.len() implies (#[trigger] self.nodes@[i]).mac_address@
                    != (#[trigger] self.nodes@[j]).mac_address@ by {
                    assert(self.nodes@[i] == before[i]);
                    if j < before.len() {
                        assert(self.nodes@[j] == before[j]);
                    }
                }
                self.nodes.len() - 1
            },
        };
        let ghost mid = self.nodes@;
        self.refresh_at(idx, packet, is_source, inferred, hostname);
        proof {
            let i = idx as int;
            assert(self.nodes@[i].mac_address@ == mac@);
            if found.is_none() {
                let f = mid[i];
                assert(f.ip_addresses@ =~= Seq::<String>::empty());
                assert(f.vlan_memberships@ =~= Seq::<u16>::empty());
                assert(f.vlan_memberships@.to_set() =~= Set::<u16>::empty());
                assert(texts(f.ip_addresses@) =~= texts(Seq::<String>::empty()));
                assert(node_step(Some(f), self.nodes@[i], *packet, is_source));
                reveal(node_step);
                assert(node_step(None, self.nodes@[i], *packet, is_source));
                assert(!(exists|k: int| 0 <= k < before.len() && (#[trigger] before[k]).mac_address@ == mac@));
            } else {
                assert(mid == before);
                assert(before[i].mac_address@ == mac@);
            }
            assert forall|k: int| 0 <= k < before.len() && k != i implies #[trigger] self.nodes@[k] == before[k] by {
                assert(self.nodes@[k] == mid[k]);
            }
        }
    }

    fn find_link(&self, src: &String, dst: &String) -> (r: Option<usize>)
        ensures
            match r {
                Some(i) => i < self.links@.len() && self.links@[i as int].source@ == src@ && self.links@[i as int].target@ == dst@,
                None => forall|j: int| 0 <= j < self.links@.len() ==> !((#[trigger] self.links@[j]).source@ == src@ && self.links@[j].target@ == dst@),
            },
    {
        let mut i: usize = 0;
        while i < self.links.len()
            invariant
                i <= self.links@.len(),
                forall|j: int| 0 <= j < i ==> !((#[trigger] self.links@[j]).source@ == src@ && self.links@[j].target@ == dst@),
            decreases self.links@.len() - i,
        {
            if self.links[i].source == *src && self.links[i].target == *dst {
                return Some(i);
            }
            i = i + 1;
        }
        None
    }

    /// Counts one frame on the link `src -> dst`, creating it on first use,
    /// and merges its VLAN and priority; the TSN mark is sticky.
    fn update_link(&mut self, src: &String, dst: &String, packet: &CapturedPacket)
        requires
            old(self).wf(),
            old(self).graph_has_room(),
            forall|i: int| 0 <= i < old(self).links@.len() ==> (#[trigger] old(self).links@[i]).packets < old(self).stats.total_packets
                && old(self).links@[i].bytes + packet.length <= old(self).stats.total_bytes,
            packet.length <= old(self).stats.total_bytes,
            0 < old(self).stats.total_packets,
        ensures
            final(self).wf(),
            final(self).nodes == old(self).nodes,
            final(self).stats == old(self).stats,
            exists|i: int| 0 <= i < final(self).links@.len() && (#[trigger] final(self).links@[i]).source@ == src@
                && final(self).links@[i].target@ == dst@ && link_step(
                if i < old(self).links@.len() { Some(old(self).links@[i]) } else { None },
                final(self).links@[i],
                *packet,
            ) && (i >= old(self).links@.len() ==> forall|k: int| 0 <= k < old(self).links@.len() ==> !((#[trigger] old(self).links@[k]).source@ == src@
                && old(self).links@[k].target@ == dst@))
                && forall|k: int| 0 <= k < old(self).links@.len() && k != i ==> #[trigger] final(self).links@[k] == old(self).links@[k],
    {
        let ghost links0 = self.links@;
        let a = self.ensure_graph_node(src);
        let b = self.ensure_graph_node(dst);
        let idx = match self.find_link(src, dst) {
            Some(i) => i,
            None => {
                let mut id = src.clone();
                id.append(":");
                id.append(dst.as_str());
                let ghost before = self.links@;
                self.links.push(
                    NetworkLink {
                        id,
                        source: src.clone(),
                        target: dst.clone(),
                        packets: 0,
                        bytes: 0,
                        vlan_ids: Vec::new(),
                        traffic_classes: Vec::new(),
                        is_tsn_path: false,
                        link_type: LinkType::Unknown,
                        duplex: None,
                        speed_mbps: None,
                        last_active_us: packet.timestamp_us,
                    },
                );
                assert forall|i: int| 0 <= i < self.links@.len() implies link_wf(#[trigger] self.links@[i], self.stats) by {
                    if i < before.len() {
                        assert(self.links@[i] == before[i]);
                    }
                }
                assert forall|i: int, j: int| 0 <= i < j < self.links@.len() implies !((#[trigger] self.links@[i]).source@
                    == (#[trigger] self.links@[j]).source@ && self.links@[i].target@ == self.links@[j].target@) by {
                    assert(self.links@[i] == before[i]);
                    if j < before.len() {
                        assert(self.links@[j] == before[j]);
                    }
                }
                self.links.len() - 1
            },
        };
        let ghost mid = self.links@;
        let mut link = self.links.remove(idx);
        let ghost l0 = link;
        link.packets = link.packets + 1;
        link.bytes = link.bytes + packet.length as u64;
        link.last_active_us = packet.timestamp_us;
        match packet.info.vlan_id {
            Some(v) => insert_sorted_u16(&mut link.vlan_ids, v),
            None => {},
        }
        match packet.info.vlan_pcp {
            Some(p) => insert_sorted_u8(&mut link.traffic_classes, p),
            None => {},
        }
        if packet.info.is_tsn || packet.info.is_ptp {
            link.is_tsn_path = true;
        }
        self.links.insert(idx, link);
        assert forall|i: int| 0 <= i < self.links@.len() implies link_wf(#[trigger] self.links@[i], self.stats) by {
            if i != idx {
                assert(self.links@[i] == mid[i]);
            }
        }
        assert forall|i: int, j: int| 0 <= i < j < self.links@.len() implies !((#[trigger] self.links@[i]).source@
            == (#[trigger] self.links@[j]).source@ && self.links@[i].target@ == self.links@[j].target@) by {
            assert(self.links@[i].source == mid[i].source && self.links@[i].target == mid[i].target);
            assert(self.links@[j].source == mid[j].source && self.links@[j].target == mid[j].target);
        }
        proof {
            let i = idx as int;
            if i < links0.len() {
                assert(l0 == links0[i]);
            } else {
                assert(l0.vlan_ids@ =~= Seq::<u16>::empty());
                assert(l0.traffic_classes@ =~= Seq::<u8>::empty());
                assert(l0.vlan_ids@.to_set() =~= Set::<u16>::empty());
                assert(l0.traffic_classes@.to_set() =~= Set::<u8>::empty());
            }
            reveal(link_step);
            assert(link_step(if i < links0.len() { Some(links0[i]) } else { None }, self.links@[i], *packet));
            assert forall|k: int| 0 <= k < links0.len() && k != i implies #[trigger] self.links@[k] == links0[k] by {
                assert(self.links@[k] == mid[k]);
            }
        }
        assert(self.links@[idx as int].source@ == src@);
        if graph_find_edge(&self.graph, a, b).is_none() {
            let ghost before = graph_edges(self.graph);
            graph_add_edge(&mut self.graph, a, b, idx as u64);
            assert forall|e: int| 0 <= e < graph_edges(self.graph).len() implies 0 <= (#[trigger] graph_edges(self.graph)[e]).0 < self.graph_macs@.len()
                && 0 <= graph_edges(self.graph)[e].1 < self.graph_macs@.len() by {
                if e < before.len() {
                    assert(graph_edges(self.graph)[e] == before[e]);
                }
            }
        }
        assert(self.links@[idx as int].source@ == src@);
    }

    /// Index of the graph node of `mac`, added on first sight.
    fn ensure_graph_node(&mut self, mac: &String) -> (r: usize)
        requires
            old(self).wf(),
            old(self).graph_macs@.len() + 1 < u32::MAX,
        ensures
            final(self).wf(),
            r < final(self).graph_macs@.len(),
            final(self).graph_macs@[r as int]@ == mac@,
            old(self).graph_macs@.len() <= final(self).graph_macs@.len() <= old(self).graph_macs@.len() + 1,
            forall|k: int| 0 <= k < old(self).graph_macs@.len() ==> #[trigger] final(self).graph_macs@[k] == old(self).graph_macs@[k],
            graph_edges(final(self).graph) == graph_edges(old(self).graph),
            final(self).nodes == old(self).nodes,
            final(self).links == old(self).links,
            final(self).stats == old(self).stats,
    {
        let mut i: usize = 0;
        while i < self.graph_macs.len()
            invariant
                i <= self.graph_macs@.len(),
                forall|k: int| 0 <= k < i ==> (#[trigger] self.graph_macs@[k])@ != mac@,
                self.wf(),
                self.graph_macs == old(self).graph_macs,
                self.graph == old(self).graph,
                self.nodes == old(self).nodes,
                self.links == old(self).links,
                self.stats == old(self).stats,
            decreases self.graph_macs@.len() - i,
        {
            if self.graph_macs[i] == *mac {
                return i;
            }
            i = i + 1;
        }
        let w = self.graph_macs.len() as u64;
        let ghost edges = graph_edges(self.graph);
        let ghost macs0 = self.graph_macs@;
        let r = graph_add_node(&mut self.graph, w);
        self.graph_macs.push(mac.clone());
        assert forall|e: int| 0 <= e < graph_edges(self.graph).len() implies 0 <= (#[trigger] graph_edges(self.graph)[e]).0 < self.graph_macs@.len()
            && 0 <= graph_edges(self.graph)[e].1 < self.graph_macs@.len() by {
            assert(graph_edges(self.graph)[e] == edges[e]);
        }
        assert forall|i: int, j: int| 0 <= i < j < self.graph_macs@.len() implies (#[trigger] self.graph_macs@[i])@
            != (#[trigger] self.graph_macs@[j])@ by {
            assert(self.graph_macs@[i] == macs0[i]);
            if j < macs0.len() {
                assert(self.graph_macs@[j] == macs0[j]);
            }
        }
        r
    }

    /// Applies what an LLDP frame from `mac` announces: enabled capabilities
    /// promote the node's type, and its names and addresses are recorded.
    fn apply_lldp(&mut self, mac: &String, data: &[u8])
        requires
            old(self).wf(),
        ensures
            final(self).wf(),
            final(self).stats == old(self).stats,
            final(self).links == old(self).links,
            types_kept(old(self).nodes@, final(self).nodes@),
            final(self).nodes@.len() == old(self).nodes@.len(),
            forall|i: int| 0 <= i < final(self).nodes@.len() ==> counters_of(#[trigger] final(self).nodes@[i]) == counters_of(old(self).nodes@[i]),
            forall|i: int| 0 <= i < final(self).nodes@.len() ==> (#[trigger] final(self).nodes@[i]).ptp_role == old(self).nodes@[i].ptp_role
                && final(self).nodes@[i].last_seen_us == old(self).nodes@[i].last_seen_us
                && final(self).nodes@[i].tsn_capable == old(self).nodes@[i].tsn_capable
                && final(self).nodes@[i].mac_address@ == old(self).nodes@[i].mac_address@,
            crate::lldp::lldp_of(data@).is_some() ==> forall|i: int, j: int| 0 <= i < final(self).nodes@.len()
                && (#[trigger] final(self).nodes@[i]).mac_address@ == mac@ && 0 <= j < crate::lldp::lldp_of(
                data@,
            ).unwrap().enabled_capabilities.len() ==> priority_of(final(self).nodes@[i].node_type) >= priority_of(
                cap_floor(#[trigger] crate::lldp::lldp_of(data@).unwrap().enabled_capabilities[j]),
            ),
            forall|i: int| 0 <= i < final(self).nodes@.len() && (#[trigger] final(self).nodes@[i]).mac_address@ != mac@
                ==> final(self).nodes@[i] == old(self).nodes@[i],
            forall|i: int| 0 <= i < final(self).nodes@.len() && (#[trigger] final(self).nodes@[i]).mac_address@ == mac@
                ==> final(self).nodes@[i].node_type == (if crate::lldp::lldp_of(data@).is_some() {
                    promote_caps(old(self).nodes@[i].node_type, crate::lldp::lldp_of(data@).unwrap().enabled_capabilities)
                } else {
                    old(self).nodes@[i].node_type
                }),
    {
        let info = match parse_lldp_packet(data) {
            Some(i) => i,
            None => {
                return;
            },
        };
        let idx = match self.find_node(mac) {
            Some(i) => i,
            None => {
                return;
            },
        };
        let ghost mid = self.nodes@;
        let ghost caps = info.enabled_capabilities@;
        let mut node = self.nodes.remove(idx);
        let ghost t0 = node.node_type;
        let mut k: usize = 0;
        while k < info.enabled_capabilities.len()
            invariant
                priority_of(node.node_type) >= priority_of(t0),
                counters_of(node) == counters_of(mid[idx as int]),
                node.mac_address == mid[idx as int].mac_address,
                node.ptp_role == mid[idx as int].ptp_role,
                node.vlan_memberships == mid[idx as int].vlan_memberships,
                t0 == mid[idx as int].node_type,
                forall|j: int| 0 <= j < k && info.enabled_capabilities@[j] == DeviceCapability::Bridge
                    ==> priority_of(node.node_type) >= priority_of(NodeType::Switch),
                forall|j: int| 0 <= j < k ==> priority_of(node.node_type) >= priority_of(cap_floor(#[trigger] info.enabled_capabilities@[j])),
                node.last_seen_us == mid[idx as int].last_seen_us,
                node.tsn_capable == mid[idx as int].tsn_capable,
                caps == info.enabled_capabilities@,
                k <= caps.len(),
                node.node_type == promote_caps(t0, caps.subrange(0, k as int)),
            decreases info.enabled_capabilities@.len() - k,
        {
            proof {
                assert(caps.subrange(0, k + 1).drop_last() =~= caps.subrange(0, k as int));
            }
            match info.enabled_capabilities[k] {
                DeviceCapability::Router => promote(&mut node, NodeType::Router),
                DeviceCapability::Bridge => promote(&mut node, NodeType::Switch),
                DeviceCapability::WlanAP => promote(&mut node, NodeType::AccessPoint),
                DeviceCapability::Repeater => promote(&mut node, NodeType::Repeater),
                _ => {},
            }
            k = k + 1;
        }
        assert(caps.subrange(0, caps.len() as int) =~= caps);
        node.hostname = crate::packet::copy_text(&info.system_name);
        node.port_id = Some(info.port_id.clone());
        node.capabilities = info.enabled_capabilities.clone();
        node.management_addresses = info.management_addresses.clone();
        node.lldp_info = Some(info);
        self.nodes.insert(idx, node);
        assert forall|i: int| 0 <= i < self.nodes@.len() implies node_wf(#[trigger] self.nodes@[i], self.stats)
            && counters_of(self.nodes@[i]) == counters_of(mid[i]) && self.nodes@[i].ptp_role == mid[i].ptp_role
            && self.nodes@[i].mac_address@ == mid[i].mac_address@
            && priority_of(self.nodes@[i].node_type) >= priority_of(mid[i].node_type) by {
            if i != idx {
                assert(self.nodes@[i] == mid[i]);
            }
        }
        proof {
            assert(same_macs(mid, self.nodes@));
            lemma_same_macs_unique(mid, self.nodes@);
            assert(crate::lldp::lldp_of(data@).unwrap().enabled_capabilities == caps);
            assert(self.nodes@[idx as int].node_type == promote_caps(mid[idx as int].node_type, caps));
            assert forall|i: int| 0 <= i < self.nodes@.len() && (#[trigger] self.nodes@[i]).mac_address@ == mac@ implies i == idx by {
                if i != idx {
                    if i < idx {
                        assert(self.nodes@[i].mac_address@ != self.nodes@[idx as int].mac_address@);
                    } else {
                        assert(self.nodes@[idx as int].mac_address@ != self.nodes@[i].mac_address@);
                    }
                }
            }
        }
    }

    /// Updates the sender's node, and the receiver's unless it is a group address.
    fn update_endpoints(&mut self, packet: &CapturedPacket)
        requires
            old(self).wf(),
            forall|i: int| 0 <= i < old(self).nodes@.len() ==> has_room(counters_of(#[trigger] old(self).nodes@[i]), old(self).stats, packet.length, true)
                && has_room(counters_of(old(self).nodes@[i]), old(self).stats, packet.length, false),
            has_room((0u64, 0u64, 0u64, 0u64), old(self).stats, packet.length, true),
            has_room((0u64, 0u64, 0u64, 0u64), old(self).stats, packet.length, false),
        ensures
            final(self).wf(),
            final(self).stats == old(self).stats,
            final(self).links == old(self).links,
            final(self).graph == old(self).graph,
            final(self).graph_macs == old(self).graph_macs,
            types_kept(old(self).nodes@, final(self).nodes@),
            exists|i: int| 0 <= i < final(self).nodes@.len() && (#[trigger] final(self).nodes@[i]).mac_address@ == packet.info.src_mac@
                && sender_update(node_of(old(self).nodes@, packet.info.src_mac@), final(self).nodes@[i], *packet)
                && ((is_multicast_text(packet.info.dst_mac@) || packet.info.dst_mac@ != packet.info.src_mac@) ==> final(self).nodes@[i].node_type
                    == sender_type(node_of(old(self).nodes@, packet.info.src_mac@), packet.info.src_mac@, *packet)),
            !is_multicast_text(packet.info.dst_mac@) ==> exists|i: int| 0 <= i < final(self).nodes@.len()
                && (#[trigger] final(self).nodes@[i]).mac_address@ == packet.info.dst_mac@
                && receiver_update(node_of(old(self).nodes@, packet.info.dst_mac@), final(self).nodes@[i], *packet)
                && (packet.info.dst_mac@ != packet.info.src_mac@ ==> receiver_exact(node_of(old(self).nodes@, packet.info.dst_mac@), final(self).nodes@[i], *packet)),
            final(self).nodes@.len() >= old(self).nodes@.len(),
            forall|k: int| 0 <= k < old(self).nodes@.len() && old(self).nodes@[k].mac_address@ != packet.info.src_mac@
                && old(self).nodes@[k].mac_address@ != packet.info.dst_mac@ ==> #[trigger] final(self).nodes@[k] == old(self).nodes@[k],
    {
        let ghost old_nodes = self.nodes@;
        let ghost src = packet.info.src_mac@;
        let ghost dst = packet.info.dst_mac@;
        self.update_node(&packet.info.src_mac, packet, true);
        let ghost after_src = self.nodes@;
        let ghost w = choose|i: int| 0 <= i < after_src.len() && (#[trigger] after_src[i]).mac_address@ == src
            && node_step(if i < old_nodes.len() { Some(old_nodes[i]) } else { None }, after_src[i], *packet, true)
            && (i >= old_nodes.len() ==> node_of(old_nodes, src).is_none())
            && (i < old_nodes.len() ==> old_nodes[i].mac_address@ == src)
            && forall|k: int| 0 <= k < old_nodes.len() && k != i ==> #[trigger] after_src[k] == old_nodes[k];
        proof {
            lemma_sender_step(old_nodes, after_src, w, *packet);
        }
        assert forall|i: int| 0 <= i < self.nodes@.len() implies has_room(counters_of(#[trigger] self.nodes@[i]), self.stats, packet.length, false) by {
            if i < old_nodes.len() {
                assert(has_room(counters_of(old_nodes[i]), self.stats, packet.length, false));
            }
        }
        if !is_multicast_mac(&packet.info.dst_mac) {
            self.update_node(&packet.info.dst_mac, packet, false);
            proof {
                let c = self.nodes@;
                let i2 = choose|i: int| 0 <= i < c.len() && (#[trigger] c[i]).mac_address@ == dst
                    && node_step(if i < after_src.len() { Some(after_src[i]) } else { None }, c[i], *packet, false)
                    && (i >= after_src.len() ==> node_of(after_src, dst).is_none())
                    && (i < after_src.len() ==> after_src[i].mac_address@ == dst)
                    && forall|k: int| 0 <= k < after_src.len() && k != i ==> #[trigger] c[k] == after_src[k];
                lemma_receiver_step(old_nodes, after_src, c, w, i2, *packet);
                assert(c[w].mac_address@ == src);
                assert forall|k: int| 0 <= k < old_nodes.len() && old_nodes[k].mac_address@ != src && old_nodes[k].mac_address@ != dst
                    implies #[trigger] c[k] == old_nodes[k] by {
                    if k == w {
                        assert(old_nodes[k].mac_address@ == src);
                    }
                    assert(after_src[k] == old_nodes[k]);
                    if k == i2 {
                        assert(after_src[k].mac_address@ == dst);
                    }
                }
            }
        } else {
            assert forall|k: int| 0 <= k < old_nodes.len() && old_nodes[k].mac_address@ != src
                implies #[trigger] after_src[k] == old_nodes[k] by {
                if k == w {
                    assert(old_nodes[k].mac_address@ == src);
                }
            }
        }
    }

    /// Updates the model from one frame: totals, the sending node, the
    /// receiving node unless it is a group address, the link between them,
    /// and what an LLDP frame announces. No node's type ever ranks lower.
    pub fn process_packet(&mut self, packet: &CapturedPacket)
        requires
            old(self).wf(),
            old(self).graph_has_room(),
            old(self).stats.total_packets < u64::MAX,
            old(self).stats.total_bytes + packet.length <= u64::MAX,
        ensures
            final(self).wf(),
            types_kept(old(self).nodes@, final(self).nodes@),
            final(self).stats.total_packets == old(self).stats.total_packets + 1,
            final(self).stats.total_bytes == old(self).stats.total_bytes + packet.length,
            final(self).stats.last_packet_us == Some(packet.timestamp_us),
            exists|i: int| 0 <= i < final(self).nodes@.len() && (#[trigger] final(self).nodes@[i]).mac_address@ == packet.info.src_mac@,
            nodes_after_frame(old(self).nodes@, final(self).nodes@, *packet),
            exists|i: int| 0 <= i < final(self).links@.len() && (#[trigger] final(self).links@[i]).source@ == packet.info.src_mac@
                && final(self).links@[i].target@ == packet.info.dst_mac@ && link_step(
                if i < old(self).links@.len() { Some(old(self).links@[i]) } else { None },
                final(self).links@[i],
                *packet,
            ),
    {
        let ghost old_nodes = self.nodes@;
        let ghost src = packet.info.src_mac@;
        let ghost dst = packet.info.dst_mac@;
        self.count_frame(packet);
        self.update_endpoints(packet);
        let ghost w = choose|i: int| 0 <= i < self.nodes@.len() && (#[trigger] self.nodes@[i]).mac_address@ == src
            && sender_update(node_of(old_nodes, src), self.nodes@[i], *packet)
            && ((is_multicast_text(dst) || dst != src) ==> self.nodes@[i].node_type == sender_type(node_of(old_nodes, src), src, *packet));
        let ghost v = if is_multicast_text(dst) { w } else {
            choose|i: int| 0 <= i < self.nodes@.len() && (#[trigger] self.nodes@[i]).mac_address@ == dst
                && receiver_update(node_of(old_nodes, dst), self.nodes@[i], *packet)
                && (dst != src ==> receiver_exact(node_of(old_nodes, dst), self.nodes@[i], *packet))
        };
        let ghost after_dst = self.nodes@;
        self.link_and_lldp(packet);
        proof {
            lemma_frame_nodes(old_nodes, after_dst, self.nodes@, w, v, *packet);
            assert(self.nodes@[w].mac_address@ == src);
        }
    }

    /// Counts one frame in the totals.
    fn count_frame(&mut self, packet: &CapturedPacket)
        requires
            old(self).wf(),
            old(self).stats.total_packets < u64::MAX,
            old(self).stats.total_bytes + packet.length <= u64::MAX,
        ensures
            final(self).wf(),
            final(self).nodes == old(self).nodes,
            final(self).links == old(self).links,
            final(self).graph == old(self).graph,
            final(self).graph_macs == old(self).graph_macs,
            final(self).stats.total_packets == old(self).stats.total_packets + 1,
            final(self).stats.total_bytes == old(self).stats.total_bytes + packet.length,
            final(self).stats.last_packet_us == Some(packet.timestamp_us),
            forall|i: int| 0 <= i < final(self).nodes@.len() ==> has_room(counters_of(#[trigger] final(self).nodes@[i]), final(self).stats, packet.length, true)
                && has_room(counters_of(final(self).nodes@[i]), final(self).stats, packet.length, false),
            forall|i: int| 0 <= i < final(self).links@.len() ==> (#[trigger] final(self).links@[i]).packets < final(self).stats.total_packets
                && final(self).links@[i].bytes + packet.length <= final(self).stats.total_bytes,
    {
        let ghost old_stats = self.stats;
        let ghost old_nodes = self.nodes@;
        self.stats.total_packets = self.stats.total_packets + 1;
        self.stats.total_bytes = self.stats.total_bytes + packet.length as u64;
        if self.stats.first_packet_us.is_none() {
            self.stats.first_packet_us = Some(packet.timestamp_us);
        }
        self.stats.last_packet_us = Some(packet.timestamp_us);
        assert forall|i: int| 0 <= i < self.nodes@.len() implies node_wf(#[trigger] self.nodes@[i], self.stats)
            && has_room(counters_of(self.nodes@[i]), self.stats, packet.length, true)
            && has_room(counters_of(self.nodes@[i]), self.stats, packet.length, false) by {
            assert(node_wf(old_nodes[i], old_stats));
        }
        assert forall|i: int| 0 <= i < self.links@.len() implies link_wf(#[trigger] self.links@[i], self.stats)
            && self.links@[i].packets < self.stats.total_packets && self.links@[i].bytes + packet.length <= self.stats.total_bytes by {
            assert(link_wf(self.links@[i], old_stats));
        }
    }

    /// Updates the frame's link and applies what an LLDP frame announces.
    fn link_and_lldp(&mut self, packet: &CapturedPacket)
        requires
            old(self).wf(),
            old(self).graph_has_room(),
            forall|i: int| 0 <= i < old(self).links@.len() ==> (#[trigger] old(self).links@[i]).packets < old(self).stats.total_packets
                && old(self).links@[i].bytes + packet.length <= old(self).stats.total_bytes,
            packet.length <= old(self).stats.total_bytes,
            0 < old(self).stats.total_packets,
        ensures
            final(self).wf(),
            final(self).stats == old(self).stats,
            types_kept(old(self).nodes@, final(self).nodes@),
            final(self).nodes@.len() == old(self).nodes@.len(),
            forall|k: int| 0 <= k < final(self).nodes@.len() ==> (#[trigger] final(self).nodes@[k]).mac_address@ == old(self).nodes@[k].mac_address@
                && counters_of(final(self).nodes@[k]) == counters_of(old(self).nodes@[k])
                && final(self).nodes@[k].ptp_role == old(self).nodes@[k].ptp_role
                && final(self).nodes@[k].last_seen_us == old(self).nodes@[k].last_seen_us
                && final(self).nodes@[k].tsn_capable == old(self).nodes@[k].tsn_capable,
            forall|k: int| 0 <= k < final(self).nodes@.len() && (#[trigger] final(self).nodes@[k]).mac_address@ != packet.info.src_mac@
                ==> final(self).nodes@[k] == old(self).nodes@[k],
            forall|k: int| 0 <= k < final(self).nodes@.len() && (#[trigger] final(self).nodes@[k]).mac_address@ == packet.info.src_mac@
                ==> final(self).nodes@[k].node_type == lldp_type(old(self).nodes@[k].node_type, *packet),
            exists|i: int| 0 <= i < final(self).links@.len() && (#[trigger] final(self).links@[i]).source@ == packet.info.src_mac@
                && final(self).links@[i].target@ == packet.info.dst_mac@ && link_step(
                if i < old(self).links@.len() { Some(old(self).links@[i]) } else { None },
                final(self).links@[i],
                *packet,
            ),
    {
        self.update_link(&packet.info.src_mac, &packet.info.dst_mac, packet);
        let ghost mid = self.links@;
        if packet.info.ethertype == 0x88CC {
            self.apply_lldp(&packet.info.src_mac, packet.data.as_slice());
        }
        assert(self.links@ == mid);
    }

    /// The node of `mac`, if it has been seen.
    pub fn get_node(&self, mac: &String) -> (r: Option<&NetworkNode>)
        requires
            self.wf(),
        ensures
            match r {
                Some(n) => node_of(self.nodes@, mac@) == Some(*n),
                None => node_of(self.nodes@, mac@).is_none(),
            },
    {
        match self.find_node(mac) {
            Some(i) => {
                proof {
                    lemma_node_of_at(self.nodes@, i as int);
                }
                Some(&self.nodes[i])
            },
            None => None,
        }
    }

    pub fn nodes(&self) -> (r: &Vec<NetworkNode>)
        ensures
            r == &self.nodes,
    {
        &self.nodes
    }

    pub fn links(&self) -> (r: &Vec<NetworkLink>)
        ensures
            r == &self.links,
    {
        &self.links
    }

    /// Whether a host name for `ip` is still unknown.
    pub fn needs_hostname(&self, ip: &String) -> (r: bool)
        ensures
            r == !has_hostname(self.ip_to_hostname@, ip@),
    {
        self.hostname_of(ip).is_none()
    }

    /// Records the host name that reverse resolution gave for `ip` and puts
    /// it on the node last seen with that address. A name equal to the
    /// address itself is ignored.
    pub fn record_hostname(&mut self, ip: &String, hostname: &String)
        requires
            old(self).wf(),
        ensures
            final(self).wf(),
            types_kept(old(self).nodes@, final(self).nodes@),
            final(self).nodes@.len() == old(self).nodes@.len(),
            final(self).stats == old(self).stats,
            hostname@ != ip@ && !has_hostname(old(self).ip_to_hostname@, ip@) ==> has_hostname(final(self).ip_to_hostname@, ip@)
                && final(self).ip_to_hostname@.len() == old(self).ip_to_hostname@.len() + 1,
            !(hostname@ != ip@ && !has_hostname(old(self).ip_to_hostname@, ip@)) ==> final(self).ip_to_hostname@
                == old(self).ip_to_hostname@,
            (hostname@ != ip@ && !has_hostname(old(self).ip_to_hostname@, ip@) && last_mac_for(old(self).ip_to_mac@, ip@).is_some()
                && node_of(old(self).nodes@, last_mac_for(old(self).ip_to_mac@, ip@).unwrap()).is_some()) ==> ({
                let n = node_of(final(self).nodes@, last_mac_for(old(self).ip_to_mac@, ip@).unwrap()).unwrap();
                n.hostname.is_some() && n.hostname.unwrap()@ == hostname@
            }),
    {
        if *hostname == *ip || !self.needs_hostname(ip) {
            return;
        }
        self.ip_to_hostname.push((ip.clone(), hostname.clone()));
        assert(self.ip_to_hostname@[self.ip_to_hostname@.len() - 1].0@ == ip@);
        let ghost names = self.ip_to_hostname@;
        let mut i: usize = 0;
        let mut mac: Option<String> = None;
        while i < self.ip_to_mac.len()
            invariant
                i <= self.ip_to_mac@.len(),
                self.ip_to_mac@ == old(self).ip_to_mac@,
                self.nodes == old(self).nodes,
                self.wf(),
                match mac {
                    Some(m) => last_mac_for(self.ip_to_mac@.subrange(0, i as int), ip@) == Some(m@),
                    None => last_mac_for(self.ip_to_mac@.subrange(0, i as int), ip@).is_none(),
                },
            decreases self.ip_to_mac@.len() - i,
        {
            proof {
                assert(self.ip_to_mac@.subrange(0, i + 1).drop_last() =~= self.ip_to_mac@.subrange(0, i as int));
            }
            if self.ip_to_mac[i].0 == *ip {
                mac = Some(self.ip_to_mac[i].1.clone());
            }
            i = i + 1;
        }
        assert(self.ip_to_mac@.subrange(0, i as int) =~= self.ip_to_mac@);
        match mac {
            Some(m) => match self.find_node(&m) {
                Some(k) => {
                    let ghost mid = self.nodes@;
                    let mut node = self.nodes.remove(k);
                    node.hostname = Some(hostname.clone());
                    self.nodes.insert(k, node);
                    proof {
                        lemma_node_of_at(mid, k as int);
                    }
                    assert forall|j: int| 0 <= j < self.nodes@.len() implies node_wf(#[trigger] self.nodes@[j], self.stats)
                        && self.nodes@[j].mac_address@ == mid[j].mac_address@
                        && self.nodes@[j].node_type == mid[j].node_type by {
                        if j != k {
                            assert(self.nodes@[j] == mid[j]);
                        }
                    }
                    proof {
                        assert(same_macs(mid, self.nodes@));
                        lemma_same_macs_unique(mid, self.nodes@);
                        lemma_node_of_at(self.nodes@, k as int);
                    }
                },
                None => {},
            },
            None => {},
        }
    }

    fn find_graph_node(&self, mac: &String) -> (r: Option<usize>)
        ensures
            match r {
                Some(i) => i < self.graph_macs@.len() && self.graph_macs@[i as int]@ == mac@
                    && forall|j: int| 0 <= j < i ==> (#[trigger] self.graph_macs@[j])@ != mac@,
                None => forall|j: int| 0 <= j < self.graph_macs@.len() ==> (#[trigger] self.graph_macs@[j])@ != mac@,
            },
    {
        let mut i: usize = 0;
        while i < self.graph_macs.len()
            invariant
                i <= self.graph_macs@.len(),
                forall|j: int| 0 <= j < i ==> (#[trigger] self.graph_macs@[j])@ != mac@,
            decreases self.graph_macs@.len() - i,
        {
            if self.graph_macs[i] == *mac {
                return Some(i);
            }
            i = i + 1;
        }
        None
    }

    /// MAC addresses joined to `mac` by a link in either direction, once per link.
    pub fn get_neighbors(&self, mac: &String) -> (r: Vec<String>)
        requires
            self.wf(),
        ensures
            forall|k: int| 0 <= k < r@.len() ==> graph_linked(self.graph_macs@, graph_edges(self.graph), mac@, (#[trigger] r@[k])@),
            forall|i: int, e: int| 0 <= i < self.graph_macs@.len() && (#[trigger] self.graph_macs@[i])@ == mac@ && 0 <= e
                < graph_edges(self.graph).len() && (#[trigger] graph_edges(self.graph)[e]).0 == i ==> has_text(
                r@,
                self.graph_macs@[graph_edges(self.graph)[e].1]@,
            ),
            forall|i: int, e: int| 0 <= i < self.graph_macs@.len() && (#[trigger] self.graph_macs@[i])@ == mac@ && 0 <= e
                < graph_edges(self.graph).len() && (#[trigger] graph_edges(self.graph)[e]).1 == i ==> has_text(
                r@,
                self.graph_macs@[graph_edges(self.graph)[e].0]@,
            ),
    {
        let mut out: Vec<String> = Vec::new();
        let a = match self.find_graph_node(mac) {
            Some(a) => a,
            None => {
                return out;
            },
        };
        let ns = graph_neighbors_undirected(&self.graph, a);
        proof {
            assert forall|i: int| 0 <= i < self.graph_macs@.len() && (#[trigger] self.graph_macs@[i])@ == mac@ implies i == a by {
                if i != a as int {
                    if i < a {
                        assert(self.graph_macs@[i]@ != self.graph_macs@[a as int]@);
                    } else {
                        assert(self.graph_macs@[a as int]@ != self.graph_macs@[i]@);
                    }
                }
            }
        }
        let mut k: usize = 0;
        while k < ns.len()
            invariant
                self.wf(),
                a < self.graph_macs@.len(),
                self.graph_macs@[a as int]@ == mac@,
                forall|t: int| 0 <= t < ns@.len() ==> has_edge(graph_edges(self.graph), a as int, #[trigger] ns@[t] as int)
                    || has_edge(graph_edges(self.graph), ns@[t] as int, a as int),
                forall|t: int| 0 <= t < out@.len() ==> graph_linked(self.graph_macs@, graph_edges(self.graph), mac@, (#[trigger] out@[t])@),
                k <= ns@.len(),
                out@.len() == k,
                forall|t: int| 0 <= t < k ==> (#[trigger] out@[t])@ == self.graph_macs@[ns@[t] as int]@,
                forall|t: int| 0 <= t < ns@.len() ==> (#[trigger] ns@[t]) < self.graph_macs@.len(),
            decreases ns@.len() - k,
        {
            let j = ns[k];
            proof {
                let edges = graph_edges(self.graph);
                assert(has_edge(edges, a as int, j as int) || has_edge(edges, j as int, a as int));
                if has_edge(edges, a as int, j as int) {
                    let e = choose|e: int| 0 <= e < edges.len() && (#[trigger] edges[e]).0 == a && edges[e].1 == j;
                    assert(0 <= edges[e].1 < self.graph_macs@.len());
                } else {
                    let e = choose|e: int| 0 <= e < edges.len() && (#[trigger] edges[e]).0 == j && edges[e].1 == a;
                    assert(0 <= edges[e].0 < self.graph_macs@.len());
                }
            }
            let m = self.graph_macs[j].clone();
            out.push(m);
            proof {
                let t = out@.len() - 1;
                assert(out@[t]@ == self.graph_macs@[j as int]@);
                assert(graph_linked(self.graph_macs@, graph_edges(self.graph), mac@, out@[t]@)) by {
                    assert(self.graph_macs@[a as int]@ == mac@ && self.graph_macs@[j as int]@ == out@[t]@);
                }
            }
            k = k + 1;
        }
        proof {
            let edges = graph_edges(self.graph);
            assert forall|i: int, e: int| 0 <= i < self.graph_macs@.len() && (#[trigger] self.graph_macs@[i])@ == mac@ && 0 <= e
                < edges.len() && (#[trigger] edges[e]).0 == i implies has_text(out@, self.graph_macs@[edges[e].1]@) by {
                assert(i == a);
                assert(ns@.contains(edges[e].1 as usize));
                let t = choose|t: int| 0 <= t < ns@.len() && ns@[t] == edges[e].1 as usize;
                assert(out@[t]@ == self.graph_macs@[ns@[t] as int]@);
            }
            assert forall|i: int, e: int| 0 <= i < self.graph_macs@.len() && (#[trigger] self.graph_macs@[i])@ == mac@ && 0 <= e
                < edges.len() && (#[trigger] edges[e]).1 == i implies has_text(out@, self.graph_macs@[edges[e].0]@) by {
                assert(i == a);
                assert(ns@.contains(edges[e].0 as usize));
                let t = choose|t: int| 0 <= t < ns@.len() && ns@[t] == edges[e].0 as usize;
                assert(out@[t]@ == self.graph_macs@[ns@[t] as int]@);
            }
        }
        out
    }

    /// The first router or gateway; otherwise the node with the most
    /// traffic (the first of equals); `None` without nodes.
    pub fn find_gateway_node(&self) -> (r: Option<String>)
        ensures
            r.is_none() == (self.nodes@.len() == 0),
            r.is_some() ==> exists|j: int| 0 <= j < self.nodes@.len() && (#[trigger] self.nodes@[j]).mac_address@ == r.unwrap()@
                && gateway_choice(self.nodes@, j),
    {
        let mut best: Option<usize> = None;
        let mut best_traffic: u128 = 0;
        let mut i: usize = 0;
        while i < self.nodes.len()
            invariant
                i <= self.nodes@.len(),
                best.is_none() == (i == 0),
                best.is_some() ==> best.unwrap() < i && best_traffic == traffic_of(self.nodes@[best.unwrap() as int]),
                forall|k: int| 0 <= k < i ==> !is_gateway_type((#[trigger] self.nodes@[k]).node_type),
                best.is_some() ==> forall|k: int| 0 <= k < i ==> traffic_of(#[trigger] self.nodes@[k]) <= best_traffic,
                best.is_some() ==> forall|k: int| 0 <= k < best.unwrap() ==> traffic_of(#[trigger] self.nodes@[k]) < best_traffic,
            decreases self.nodes@.len() - i,
        {
            let n = &self.nodes[i];
            if n.node_type == NodeType::Router || n.node_type == NodeType::Gateway {
                assert(gateway_choice(self.nodes@, i as int));
                return Some(n.mac_address.clone());
            }
            let traffic = n.bytes_sent as u128 + n.bytes_received as u128;
            match best {
                Some(_) => {
                    if traffic > best_traffic {
                        best = Some(i);
                        best_traffic = traffic;
                    }
                },
                None => {
                    best = Some(i);
                    best_traffic = traffic;
                },
            }
            i = i + 1;
        }
        match best {
            Some(b) => {
                assert(gateway_choice(self.nodes@, b as int));
                Some(self.nodes[b].mac_address.clone())
            },
            None => None,
        }
    }

    /// Node, link and frame totals, with the TSN-capable and PTP nodes counted.
    pub fn get_stats(&self) -> (r: TopologyStatsResponse)
        ensures
            r.total_nodes == self.nodes@.len(),
            r.total_links == self.links@.len(),
            r.total_packets == self.stats.total_packets,
            r.total_bytes == self.stats.total_bytes,
            r.tsn_nodes == self.nodes@.filter(|n: NetworkNode| n.tsn_capable).len(),
            r.ptp_nodes == self.nodes@.filter(|n: NetworkNode| n.ptp_role.is_some()).len(),
    {
        let mut tsn: usize = 0;
        let mut ptp: usize = 0;
        let mut i: usize = 0;
        while i < self.nodes.len()
            invariant
                i <= self.nodes@.len(),
                tsn == self.nodes@.subrange(0, i as int).filter(|n: NetworkNode| n.tsn_capable).len(),
                ptp == self.nodes@.subrange(0, i as int).filter(|n: NetworkNode| n.ptp_role.is_some()).len(),
                tsn <= i && ptp <= i,
            decreases self.nodes@.len() - i,
        {
            let ghost pre = self.nodes@.subrange(0, i as int);
            assert(self.nodes@.subrange(0, i + 1) =~= pre.push(self.nodes@[i as int]));
            reveal(Seq::filter);
            assert(self.nodes@.subrange(0, i + 1).drop_last() =~= pre);
            if self.nodes[i].tsn_capable {
                tsn = tsn + 1;
            }
            if self.nodes[i].ptp_role.is_some() {
                ptp = ptp + 1;
            }
            i = i + 1;
        }
        assert(self.nodes@.subrange(0, self.nodes@.len() as int) =~= self.nodes@);
        TopologyStatsResponse {
            total_nodes: self.nodes.len(),
            total_links: self.links.len(),
            total_packets: self.stats.total_packets,
            total_bytes: self.stats.total_bytes,
            tsn_nodes: tsn,
            ptp_nodes: ptp,
        }
    }

    /// Forgets all nodes, links, addresses, names and totals.
    pub fn clear(&mut self)
        ensures
            final(self).wf(),
            final(self).nodes@.len() == 0,
            final(self).links@.len() == 0,
            final(self).stats.total_packets == 0,
            final(self).stats.total_bytes == 0,
    {
        self.nodes.clear();
        self.links.clear();
        self.graph_macs.clear();
        graph_clear(&mut self.graph);
        self.ip_to_mac.clear();
        self.ip_to_hostname.clear();
        self.stats = TopologyStats { total_packets: 0, total_bytes: 0, first_packet_us: None, last_packet_us: None };
    }

    /// Nodes that reported TSN traffic.
    pub fn get_tsn_nodes(&self) -> (r: Vec<&NetworkNode>)
        ensures
            r@.len() == self.nodes@.filter(|n: NetworkNode| n.tsn_capable).len(),
            forall|i: int| 0 <= i < r@.len() ==> (#[trigger] r@[i]).tsn_capable,
    {
        let mut out: Vec<&NetworkNode> = Vec::new();
        let mut i: usize = 0;
        while i < self.nodes.len()
            invariant
                i <= self.nodes@.len(),
                out@.len() == self.nodes@.subrange(0, i as int).filter(|n: NetworkNode| n.tsn_capable).len(),
                forall|k: int| 0 <= k < out@.len() ==> (#[trigger] out@[k]).tsn_capable,
            decreases self.nodes@.len() - i,
        {
            proof {
                reveal(Seq::filter);
                assert(self.nodes@.subrange(0, i + 1).drop_last() =~= self.nodes@.subrange(0, i as int));
            }
            if self.nodes[i].tsn_capable {
                out.push(&self.nodes[i]);
            }
            i = i + 1;
        }
        assert(self.nodes@.subrange(0, self.nodes@.len() as int) =~= self.nodes@);
        out
    }

    /// Nodes with a PTP role.
    pub fn get_ptp_nodes(&self) -> (r: Vec<&NetworkNode>)
        ensures
            r@.len() == self.nodes@.filter(|n: NetworkNode| n.ptp_role.is_some()).len(),
            forall|i: int| 0 <= i < r@.len() ==> (#[trigger] r@[i]).ptp_role.is_some(),
    {
        let mut out: Vec<&NetworkNode> = Vec::new();
        let mut i: usize = 0;
        while i < self.nodes.len()
            invariant
                i <= self.nodes@.len(),
                out@.len() == self.nodes@.subrange(0, i as int).filter(|n: NetworkNode| n.ptp_role.is_some()).len(),
                forall|k: int| 0 <= k < out@.len() ==> (#[trigger] out@[k]).ptp_role.is_some(),
            decreases self.nodes@.len() - i,
        {
            proof {
                reveal(Seq::filter);
                assert(self.nodes@.subrange(0, i + 1).drop_last() =~= self.nodes@.subrange(0, i as int));
            }
            if self.nodes[i].ptp_role.is_some() {
                out.push(&self.nodes[i]);
            }
            i = i + 1;
        }
        assert(self.nodes@.subrange(0, self.nodes@.len() as int) =~= self.nodes@);
        out
    }

    /// Links that carried TSN or PTP traffic.
    pub fn get_tsn_paths(&self) -> (r: Vec<&NetworkLink>)
        ensures
            r@.len() == self.links@.filter(|l: NetworkLink| l.is_tsn_path).len(),
            forall|i: int| 0 <= i < r@.len() ==> (#[trigger] r@[i]).is_tsn_path,
    {
        let mut out: Vec<&NetworkLink> = Vec::new();
        let mut i: usize = 0;
        while i < self.links.len()
            invariant
                i <= self.links@.len(),
                out@.len() == self.links@.subrange(0, i as int).filter(|l: NetworkLink| l.is_tsn_path).len(),
                forall|k: int| 0 <= k < out@.len() ==> (#[trigger] out@[k]).is_tsn_path,
            decreases self.links@.len() - i,
        {
            proof {
                reveal(Seq::filter);
                assert(self.links@.subrange(0, i + 1).drop_last() =~= self.links@.subrange(0, i as int));
            }
            if self.links[i].is_tsn_path {
                out.push(&self.links[i]);
            }
            i = i + 1;
        }
        assert(self.links@.subrange(0, self.links@.len() as int) =~= self.links@);
        out
    }

    /// The endpoints of a route from `src_mac` to `dst_mac` along directed
    /// links, when both addresses have been seen on links and one exists.
    pub fn get_path(&self, src_mac: &String, dst_mac: &String) -> (r: Option<Vec<String>>)
        requires
            self.wf(),
        ensures
            r.is_some() ==> r.unwrap()@.len() == 2 && r.unwrap()@[0]@ == src_mac@ && r.unwrap()@[1]@ == dst_mac@,
            r.is_some() <==> exists|i: int, j: int| 0 <= i < self.graph_macs@.len() && 0 <= j < self.graph_macs@.len()
                && (#[trigger] self.graph_macs@[i])@ == src_mac@ && (#[trigger] self.graph_macs@[j])@ == dst_mac@
                && (forall|k: int| 0 <= k < i ==> self.graph_macs@[k]@ != src_mac@)
                && (forall|k: int| 0 <= k < j ==> self.graph_macs@[k]@ != dst_mac@)
                && reachable(graph_edges(self.graph), i, j),
    {
        let a = match self.find_graph_node(src_mac) {
            Some(i) => i,
            None => {
                return None;
            },
        };
        let b = match self.find_graph_node(dst_mac) {
            Some(i) => i,
            None => {
                return None;
            },
        };
        if !graph_has_path(&self.graph, a, b) {
            return None;
        }
        let mut path: Vec<String> = Vec::new();
        path.push(src_mac.clone());
        path.push(dst_mac.clone());
        Some(path)
    }
}

impl Default for TopologyManager {
    fn default() -> (r: TopologyManager)
        ensures
            r.wf() && r.nodes@.len() == 0 && r.links@.len() == 0,
    {
        TopologyManager::new()
    }
}

} // verus!
