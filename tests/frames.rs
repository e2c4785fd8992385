use tsn_map::capture::CaptureManager;
use tsn_map::interval::{calculate_stats, percentile, seq_le};
use tsn_map::packet::{format_ipv6, parse_packet_info, CapturedPacket, TsnType};
use tsn_map::pcap::{PcapError, PcapHandler};
use tsn_map::topology::{NodeType, PtpRole, TopologyManager};

fn ptp_header(msg_type: u8, seq: u16) -> Vec<u8> {
    let mut h = vec![0u8; 34];
    h[0] = msg_type;
    h[1] = 2;
    h[2] = 0;
    h[3] = 44;
    h[4] = 0;
    h[20..28].copy_from_slice(&[0x00, 0x11, 0x22, 0x33, 0x44, 0x55, 0x66, 0x77]);
    h[28] = 0;
    h[29] = 1;
    h[30..32].copy_from_slice(&seq.to_be_bytes());
    h
}

fn ptp_frame(src: [u8; 6], msg_type: u8, seq: u16, vlan: Option<u16>) -> Vec<u8> {
    let mut f = vec![0x01, 0x1b, 0x19, 0x00, 0x00, 0x00];
    f.extend_from_slice(&src);
    if let Some(tci) = vlan {
        f.extend_from_slice(&[0x81, 0x00]);
        f.extend_from_slice(&tci.to_be_bytes());
    }
    f.extend_from_slice(&[0x88, 0xF7]);
    f.extend_from_slice(&ptp_header(msg_type, seq));
    f
}

fn tcp_frame(src: [u8; 4], dst: [u8; 4], sport: u16, dport: u16, seq: u32, ack: u32, flags: u8, payload: usize) -> Vec<u8> {
    let mut f = vec![0x02, 0, 0, 0, 0, 2, 0x02, 0, 0, 0, 0, 1, 0x08, 0x00];
    let total = (20 + 20 + payload) as u16;
    f.extend_from_slice(&[0x45, 0]);
    f.extend_from_slice(&total.to_be_bytes());
    f.extend_from_slice(&[0, 1, 0, 0, 64, 6, 0, 0]);
    f.extend_from_slice(&src);
    f.extend_from_slice(&dst);
    f.extend_from_slice(&sport.to_be_bytes());
    f.extend_from_slice(&dport.to_be_bytes());
    f.extend_from_slice(&seq.to_be_bytes());
    f.extend_from_slice(&ack.to_be_bytes());
    f.extend_from_slice(&[0x50, flags, 0xff, 0xff, 0, 0, 0, 0]);
    f.extend(std::iter::repeat(0u8).take(payload));
    f
}

fn lldp_bridge_frame(src: [u8; 6]) -> Vec<u8> {
    let mut f = vec![0x01, 0x80, 0xc2, 0x00, 0x00, 0x0e];
    f.extend_from_slice(&src);
    f.extend_from_slice(&[0x88, 0xCC]);
    // chassis id: MAC subtype
    f.extend_from_slice(&[0x02, 0x07, 0x04]);
    f.extend_from_slice(&src);
    // port id: locally assigned "eth0"
    f.extend_from_slice(&[0x04, 0x05, 0x07]);
    f.extend_from_slice(b"eth0");
    // ttl
    f.extend_from_slice(&[0x06, 0x02, 0x00, 0x78]);
    // system capabilities: bridge, enabled bridge
    f.extend_from_slice(&[0x0e, 0x04, 0x00, 0x04, 0x00, 0x04]);
    // end
    f.extend_from_slice(&[0x00, 0x00]);
    f
}

#[test]
fn vlan_tagged_ptp_sync() {
    let frame = ptp_frame([0xaa, 0xbb, 0xcc, 0xdd, 0xee, 0xff], 0x00, 7, Some((4 << 13) | 10));
    let p = CapturedPacket::from_raw(1, &frame, 0);
    assert_eq!(p.info.vlan_id, Some(10));
    assert_eq!(p.info.vlan_pcp, Some(4));
    assert!(p.info.is_ptp);
    assert_eq!(p.info.ethertype_name, "PTP");
    assert_eq!(p.info.src_mac, "aa:bb:cc:dd:ee:ff");
    assert_eq!(p.info.dst_mac, "01:1b:19:00:00:00");
    let tsn = p.tsn_info.expect("annotation");
    assert_eq!(tsn.tsn_type, TsnType::Ptp);
    assert_eq!(tsn.stream_id.as_deref(), Some("aa:bb:cc:dd:ee:ff:10"));
    let ptp = tsn.ptp_info.expect("ptp header");
    assert_eq!(ptp.message_type, "Sync");
    assert_eq!(ptp.version, 2);
    assert_eq!(ptp.sequence_id, 7);
    assert_eq!(ptp.source_port_identity, "00:11:22:33:44:55:66:77-1");
}

#[test]
fn ptp_header_offset_untagged_and_tagged() {
    for vlan in [None, Some(3u16)] {
        let frame = ptp_frame([2, 0, 0, 0, 0, 9], 0x0B, 513, vlan);
        let p = CapturedPacket::from_raw(0, &frame, 0);
        assert!(p.info.is_ptp);
        let ptp = p.tsn_info.unwrap().ptp_info.unwrap();
        assert_eq!(ptp.message_type, "Announce");
        assert_eq!(ptp.sequence_id, 513);
    }
}

#[test]
fn short_frame_gives_empty_record() {
    let info = parse_packet_info(&[1, 2, 3]);
    assert_eq!(info.ethertype_name, "Unknown");
    assert_eq!(info.src_mac, "");
    assert!(!info.is_ptp);
}

#[test]
fn unknown_ethertype_is_hex() {
    let mut f = vec![0u8; 12];
    f.extend_from_slice(&[0xAB, 0xCD, 0, 0]);
    let info = parse_packet_info(&f);
    assert_eq!(info.ethertype, 0xABCD);
    assert_eq!(info.ethertype_name, "0xABCD");
}

#[test]
fn llc_frames_are_marked() {
    let mut f = vec![0u8; 12];
    f.extend_from_slice(&[0x00, 0x30, 0x42, 0x42, 0x03]);
    assert_eq!(parse_packet_info(&f).ethertype_name, "STP");
    let mut g = vec![0u8; 12];
    g.extend_from_slice(&[0x00, 0x30, 0xAA, 0xAA, 0x03, 0, 0, 0, 0x08, 0x06]);
    assert_eq!(parse_packet_info(&g).ethertype_name, "ARP");
    let mut h = vec![0u8; 12];
    h.extend_from_slice(&[0x00, 0x30, 0xE0, 0xE0, 0x03]);
    assert_eq!(parse_packet_info(&h).ethertype_name, "802.3");
    let mut o = vec![0u8; 12];
    o.extend_from_slice(&[0x00, 0x30, 0xFE, 0xFE, 0x03]);
    assert_eq!(parse_packet_info(&o).ethertype, 0x0001);
    assert_eq!(parse_packet_info(&o).ethertype_name, "802.3");
}

#[test]
fn tcp_fields_decoded() {
    let f = tcp_frame([10, 0, 0, 1], [10, 0, 0, 2], 40000, 80, 1000, 5, 0x12, 0);
    let info = parse_packet_info(&f);
    assert_eq!(info.protocol.as_deref(), Some("TCP"));
    assert_eq!(info.src_ip.as_deref(), Some("10.0.0.1"));
    assert_eq!(info.dst_ip.as_deref(), Some("10.0.0.2"));
    assert_eq!(info.src_port, Some(40000));
    assert_eq!(info.dst_port, Some(80));
    assert_eq!(info.seq_num, Some(1000));
    assert_eq!(info.ack_num, Some(5));
    let flags = info.tcp_flags.unwrap();
    assert!(flags.syn && flags.ack && !flags.fin);
    assert_eq!(info.ttl, Some(64));
}

#[test]
fn ipv6_text_groups() {
    let b: Vec<u8> = (0u8..16).collect();
    assert_eq!(format_ipv6(&b), "0001:0203:0405:0607:0809:0a0b:0c0d:0e0f");
}

#[test]
fn tcp_rtt_pairing() {
    let mut store = CaptureManager::new("eth0", 64);
    let a = tcp_frame([10, 0, 0, 1], [10, 0, 0, 2], 40000, 80, 1000, 0, 0x00, 100);
    let b = tcp_frame([10, 0, 0, 2], [10, 0, 0, 1], 80, 40000, 1, 1100, 0x10, 0);
    store.ingest(&a, 0, 0);
    store.ingest(&b, 10_000, 10_000);
    let data = store.get_interval_data(100);
    assert_eq!(data.rtt_samples.len(), 1);
    assert_eq!(data.rtt_samples[0].rtt_us, 10_000);
    assert_eq!(data.rtt_samples[0].flow, "10.0.0.1:40000 -> 10.0.0.2:80");
    assert!(data.rtt_stats.is_some());
}

#[test]
fn late_ack_gives_no_rtt() {
    let mut store = CaptureManager::new("eth0", 64);
    let a = tcp_frame([10, 0, 0, 1], [10, 0, 0, 2], 40000, 80, 1000, 0, 0x00, 100);
    let b = tcp_frame([10, 0, 0, 2], [10, 0, 0, 1], 80, 40000, 1, 1100, 0x10, 0);
    store.ingest(&a, 0, 0);
    store.ingest(&b, 10_000_000, 10_000_000);
    let data = store.get_interval_data(100);
    assert!(data.rtt_samples.is_empty());
    assert!(data.rtt_stats.is_none());
}

#[test]
fn single_packet_interval_is_zero() {
    let mut store = CaptureManager::new("eth0", 64);
    let a = tcp_frame([10, 0, 0, 1], [10, 0, 0, 2], 1, 2, 0, 0, 0, 0);
    store.ingest(&a, 5, 123);
    let data = store.get_interval_data(10);
    assert_eq!(data.intervals.len(), 1);
    assert_eq!(data.intervals[0].delta_us, 0);
    assert_eq!(data.intervals[0].src, "10.0.0.1:1");
    assert_eq!(data.interval_stats.count, 0);
}

#[test]
fn empty_percentiles_are_zero() {
    let st = calculate_stats(&[]);
    assert_eq!(st.count, 0);
    assert_eq!(st.min_us, 0);
    assert_eq!(st.max_us, 0);
    assert_eq!(st.percentile_50_us, 0);
    assert_eq!(st.percentile_95_us, 0);
    assert_eq!(st.percentile_99_us, 0);
    assert_eq!(percentile(&[], 99), 0);
}

#[test]
fn nearest_rank_percentiles() {
    let values: Vec<u64> = (1..=100).rev().collect();
    let st = calculate_stats(&values);
    assert_eq!(st.count, 100);
    assert_eq!(st.min_us, 1);
    assert_eq!(st.max_us, 100);
    assert_eq!(st.sum_us, 5050);
    // round(0.5 * 99) = 50 (half up) -> 51
    assert_eq!(st.percentile_50_us, 51);
    assert_eq!(st.percentile_95_us, 95);
    assert_eq!(st.percentile_99_us, 99);
}

#[test]
fn sequence_wrap_comparison() {
    assert!(seq_le(0xFFFF_FFF0, 0x10));
    assert!(seq_le(5, 5));
    assert!(seq_le(0, 0x7FFF_FFFF));
    assert!(!seq_le(0, 0x8000_0000));
    assert!(!seq_le(0x10, 0xFFFF_FFF0));
}

#[test]
fn ring_eviction() {
    let mut store = CaptureManager::with_capacity("eth0", 1, 3);
    let frame = tcp_frame([10, 0, 0, 1], [10, 0, 0, 2], 1, 2, 0, 0, 0, 0);
    for id in 1..=5u64 {
        let p = CapturedPacket::from_raw(id, &frame, id as i64);
        store.add_packet(p, id);
    }
    let ids: Vec<u64> = store.get_packets(0, 10).iter().map(|p| p.id).collect();
    assert_eq!(ids, vec![3, 4, 5]);
    assert_eq!(store.get_stats().packets_captured, 5);
    assert_eq!(store.get_stats().packets_dropped, 2);
    assert_eq!(store.get_packet_count(), 3);
}

#[test]
fn full_ring_drops_one_per_admit() {
    let mut store = CaptureManager::with_capacity("eth0", 1, 2);
    let frame = tcp_frame([10, 0, 0, 1], [10, 0, 0, 2], 1, 2, 0, 0, 0, 0);
    let mut dropped = Vec::new();
    for i in 0..6 {
        store.ingest(&frame, i, i as u64);
        dropped.push(store.get_stats().packets_dropped);
    }
    assert_eq!(dropped, vec![0, 0, 1, 2, 3, 4]);
    assert_eq!(store.get_packet_count(), 2);
}

#[test]
fn ids_strictly_increase() {
    let mut store = CaptureManager::new("eth0", 1);
    let frame = tcp_frame([10, 0, 0, 1], [10, 0, 0, 2], 1, 2, 0, 0, 0, 0);
    let a = store.ingest(&frame, 0, 0);
    let b = store.ingest(&frame, 1, 1);
    let c = store.ingest(&frame[..20], 2, 2);
    assert!(a < b && b < c);
    for p in store.get_packets(0, 10) {
        assert!(p.length as usize >= p.data.len());
    }
}

#[test]
fn count_is_min_of_ingests_and_capacity() {
    let frame = tcp_frame([10, 0, 0, 1], [10, 0, 0, 2], 1, 2, 0, 0, 0, 0);
    for n in 0..6usize {
        let mut store = CaptureManager::with_capacity("eth0", 1, 4);
        for i in 0..n {
            store.ingest(&frame, i as i64, i as u64);
        }
        assert_eq!(store.get_packet_count(), n.min(4));
        assert_eq!(store.get_stats().packets_captured, n as u64);
    }
}

#[test]
fn interface_change_refused_while_capturing() {
    let mut store = CaptureManager::new("eth0", 1);
    assert!(store.set_interface("eth1").is_ok());
    assert_eq!(store.get_interface(), "eth1");
    assert!(store.start_capture(0));
    assert!(store.set_interface("eth2").is_err());
    assert_eq!(store.get_interface(), "eth1");
    store.stop_capture();
    assert!(!store.is_capturing());
}

#[test]
fn topology_promotion() {
    let m_g = [0x02, 0x00, 0x00, 0x00, 0x00, 0x01];
    let m_s = [0x02, 0x00, 0x00, 0x00, 0x00, 0x02];
    let mut topo = TopologyManager::new();
    for (i, f) in [ptp_frame(m_g, 0x00, 1, None), ptp_frame(m_s, 0x01, 2, None), lldp_bridge_frame(m_s)]
        .iter()
        .enumerate()
    {
        let p = CapturedPacket::from_raw(i as u64, f, i as i64);
        topo.process_packet(&p);
    }
    let g = topo.get_node(&"02:00:00:00:00:01".to_string()).unwrap();
    assert_eq!(g.node_type, NodeType::PtpGrandmaster);
    assert_eq!(g.ptp_role, Some(PtpRole::Grandmaster));
    let s = topo.get_node(&"02:00:00:00:00:02".to_string()).unwrap();
    assert_eq!(s.node_type, NodeType::Switch);
    assert_eq!(s.ptp_role, Some(PtpRole::OrdinaryClock));
    assert!(s.lldp_info.is_some());
    assert_eq!(topo.get_stats().total_nodes, 2);
    assert_eq!(topo.get_stats().ptp_nodes, 2);
}

#[test]
fn node_type_never_drops() {
    let m = [0x02, 0x00, 0x00, 0x00, 0x00, 0x07];
    let mut topo = TopologyManager::new();
    let sync = CapturedPacket::from_raw(0, &ptp_frame(m, 0x00, 1, None), 0);
    topo.process_packet(&sync);
    let mut plain = ptp_frame(m, 0x01, 2, None);
    plain[12] = 0x08;
    plain[13] = 0x00;
    let p = CapturedPacket::from_raw(1, &plain, 1);
    topo.process_packet(&p);
    let n = topo.get_node(&"02:00:00:00:00:07".to_string()).unwrap();
    assert_eq!(n.node_type, NodeType::PtpGrandmaster);
}

#[test]
fn vendor_lookup() {
    let topo = TopologyManager::new();
    assert_eq!(topo.lookup_vendor("00:1B:21:aa:bb:cc").as_deref(), Some("Intel"));
    assert_eq!(topo.lookup_vendor("00:04:9f:00:00:01").as_deref(), Some("NXP/Freescale"));
    assert_eq!(topo.lookup_vendor("12:34:56:00:00:01"), None);
    assert_eq!(topo.lookup_vendor("00:1b"), None);
}

#[test]
fn pcap_round_trip() {
    let frames = vec![
        ptp_frame([0xaa, 0xbb, 0xcc, 0xdd, 0xee, 0xff], 0x00, 7, Some((4 << 13) | 10)),
        tcp_frame([10, 0, 0, 1], [10, 0, 0, 2], 40000, 80, 1000, 0, 0x00, 100),
        lldp_bridge_frame([2, 0, 0, 0, 0, 3]),
    ];
    let packets: Vec<CapturedPacket> = frames
        .iter()
        .enumerate()
        .map(|(i, f)| CapturedPacket::from_raw(i as u64, f, 1_700_000_000_123_456 + i as i64))
        .collect();
    let bytes = PcapHandler::save_pcap_to_bytes(&packets);
    assert_eq!(&bytes[0..4], &0xa1b2c3d4u32.to_le_bytes());
    let loaded = PcapHandler::load_pcap_from_bytes(&bytes).unwrap();
    assert_eq!(loaded.len(), 3);
    for (a, b) in loaded.iter().zip(packets.iter()) {
        assert_eq!(a.length, b.length);
        assert_eq!(a.timestamp_us, b.timestamp_us);
        assert_eq!(a.info.src_mac, b.info.src_mac);
        assert_eq!(a.info.dst_mac, b.info.dst_mac);
        assert_eq!(a.info.ethertype, b.info.ethertype);
        assert_eq!(a.info.ethertype_name, b.info.ethertype_name);
        assert_eq!(a.info.vlan_id, b.info.vlan_id);
        assert_eq!(a.info.vlan_pcp, b.info.vlan_pcp);
        assert_eq!(a.info.src_port, b.info.src_port);
    }
}

#[test]
fn pcap_errors_and_truncation() {
    assert!(matches!(PcapHandler::load_pcap_from_bytes(&[0u8; 10]), Err(PcapError::TooShort)));
    assert!(matches!(PcapHandler::load_pcap_from_bytes(&[0u8; 24]), Err(PcapError::BadMagic(0))));
    let frame = tcp_frame([10, 0, 0, 1], [10, 0, 0, 2], 1, 2, 0, 0, 0, 0);
    let p = CapturedPacket::from_raw(0, &frame, 3_000_000);
    let bytes = PcapHandler::save_pcap_to_bytes(&[p]);
    let cut = &bytes[..bytes.len() - 1];
    assert_eq!(PcapHandler::load_pcap_from_bytes(cut).unwrap().len(), 0);
    let mut nano = bytes.clone();
    nano[0..4].copy_from_slice(&0xa1b23c4du32.to_le_bytes());
    let loaded = PcapHandler::load_pcap_from_bytes(&nano).unwrap();
    assert_eq!(loaded[0].timestamp_us, 3_000_000);
    nano[28..32].copy_from_slice(&123_456_789u32.to_le_bytes());
    let fine = PcapHandler::load_pcap_from_bytes(&nano).unwrap();
    assert_eq!(fine[0].timestamp_us, 3_123_456);
    assert_eq!(fine[0].timestamp_sub_us_ns, 789);
}

#[test]
fn path_and_filters() {
    let a = [0x02, 0, 0, 0, 0, 0x0a];
    let mut topo = TopologyManager::new();
    let mut f1 = tcp_frame([10, 0, 0, 1], [10, 0, 0, 2], 1, 2, 0, 0, 0, 0);
    f1[0..6].copy_from_slice(&[0x02, 0, 0, 0, 0, 0x0b]);
    f1[6..12].copy_from_slice(&a);
    let mut f2 = f1.clone();
    f2[0..6].copy_from_slice(&[0x02, 0, 0, 0, 0, 0x0c]);
    f2[6..12].copy_from_slice(&[0x02, 0, 0, 0, 0, 0x0b]);
    topo.process_packet(&CapturedPacket::from_raw(0, &f1, 0));
    topo.process_packet(&CapturedPacket::from_raw(1, &f2, 1));
    topo.process_packet(&CapturedPacket::from_raw(2, &ptp_frame(a, 0, 1, None), 2));
    let path = topo.get_path(&"02:00:00:00:00:0a".to_string(), &"02:00:00:00:00:0c".to_string()).unwrap();
    assert_eq!(path, vec!["02:00:00:00:00:0a".to_string(), "02:00:00:00:00:0c".to_string()]);
    assert!(topo.get_path(&"02:00:00:00:00:0c".to_string(), &"02:00:00:00:00:0a".to_string()).is_none());
    assert_eq!(topo.get_tsn_nodes().len(), 1);
    assert_eq!(topo.get_ptp_nodes().len(), 1);
    assert_eq!(topo.get_tsn_paths().len(), 1);
    let mut n = topo.get_neighbors(&"02:00:00:00:00:0b".to_string());
    n.sort();
    assert_eq!(n, vec!["02:00:00:00:00:0a".to_string(), "02:00:00:00:00:0c".to_string()]);
    topo.clear();
    assert_eq!(topo.get_stats().total_nodes, 0);
}

#[test]
fn hostname_cache() {
    let mut topo = TopologyManager::new();
    let f = tcp_frame([10, 0, 0, 1], [10, 0, 0, 2], 1, 2, 0, 0, 0, 0);
    topo.process_packet(&CapturedPacket::from_raw(0, &f, 0));
    let ip = "10.0.0.1".to_string();
    assert!(topo.needs_hostname(&ip));
    topo.record_hostname(&ip, &ip.clone());
    assert!(topo.needs_hostname(&ip));
    topo.record_hostname(&ip, &"host-a".to_string());
    assert!(!topo.needs_hostname(&ip));
    let n = topo.get_node(&"02:00:00:00:00:01".to_string()).unwrap();
    assert_eq!(n.hostname.as_deref(), Some("host-a"));
    assert_eq!(n.ip_addresses, vec!["10.0.0.1".to_string()]);
}

#[test]
fn one_graph_edge_per_link() {
    let mut topo = TopologyManager::new();
    let f = tcp_frame([10, 0, 0, 1], [10, 0, 0, 2], 1, 2, 0, 0, 0, 0);
    topo.process_packet(&CapturedPacket::from_raw(0, &f, 0));
    topo.process_packet(&CapturedPacket::from_raw(1, &f, 1));
    assert_eq!(topo.graph.node_count(), 2);
    assert_eq!(topo.graph.edge_count(), 1);
    assert_eq!(topo.links.len(), 1);
    assert_eq!(topo.links[0].packets, 2);
    assert_eq!(topo.links[0].id, "02:00:00:00:00:01:02:00:00:00:00:02");
}

#[test]
fn unicast_sync_receiver_not_grandmaster() {
    let mut f = ptp_frame([0x02, 0, 0, 0, 0, 0x21], 0x00, 1, None);
    f[0..6].copy_from_slice(&[0x02, 0, 0, 0, 0, 0x22]);
    let mut topo = TopologyManager::new();
    topo.process_packet(&CapturedPacket::from_raw(0, &f, 0));
    let s = topo.get_node(&"02:00:00:00:00:21".to_string()).unwrap();
    assert_eq!(s.node_type, NodeType::PtpGrandmaster);
    let r = topo.get_node(&"02:00:00:00:00:22".to_string()).unwrap();
    assert_eq!(r.node_type, NodeType::EndStation);
    assert_eq!(r.ptp_role, None);
}

#[test]
fn imported_records_are_renumbered() {
    let mut store = CaptureManager::new("eth0", 1);
    let frame = tcp_frame([10, 0, 0, 1], [10, 0, 0, 2], 1, 2, 0, 0, 0, 0);
    store.ingest(&frame, 0, 0);
    let loaded = CapturedPacket::from_raw(0, &frame, 5);
    assert_eq!(store.import_packet(loaded, 1), 1);
    let ids: Vec<u64> = store.get_packets(0, 10).iter().map(|p| p.id).collect();
    assert_eq!(ids, vec![0, 1]);
}
