use tsn_map::capture::CaptureManager;
use tsn_map::cbs::{pcp_to_tc, CbsAnalyzer};
use tsn_map::frer::FrerAnalyzer;
use tsn_map::iograph::bucket_width;
use tsn_map::packet::{CapturedPacket, TsnType};
use tsn_map::pipeline::CaptureEngine;
use tsn_map::protocols::ProtocolAnalyzer;
use tsn_map::ptp::PtpAnalyzer;
use tsn_map::tas::{CycleDetector, TasAnalyzer};

fn ptp_frame(src: [u8; 6], msg_type: u8, seq: u16, correction: i64) -> Vec<u8> {
    let mut f = vec![0x01, 0x1b, 0x19, 0x00, 0x00, 0x00];
    f.extend_from_slice(&src);
    f.extend_from_slice(&[0x88, 0xF7]);
    let mut h = vec![0u8; 34];
    h[0] = msg_type;
    h[1] = 2;
    h[4] = 3;
    h[8..16].copy_from_slice(&correction.to_be_bytes());
    h[20..26].copy_from_slice(&src);
    h[29] = 1;
    h[30..32].copy_from_slice(&seq.to_be_bytes());
    f.extend_from_slice(&h);
    f
}

fn vlan_frame(pcp: u8, vid: u16, len: usize) -> Vec<u8> {
    let mut f = vec![0x02, 0, 0, 0, 0, 9, 0x02, 0, 0, 0, 0, 8, 0x81, 0x00];
    f.extend_from_slice(&(((pcp as u16) << 13) | vid).to_be_bytes());
    f.extend_from_slice(&[0x12, 0x34]);
    f.resize(len, 0);
    f
}

#[test]
fn empty_capture_io_graph() {
    let store = CaptureManager::new("eth0", 1);
    let g = store.io_graph(bucket_width(None));
    assert!(g.buckets.is_empty());
    assert!(g.protocols.is_empty());
    assert_eq!(g.total_packets, 0);
    assert_eq!(g.peak_pps, 0);
}

#[test]
fn io_graph_buckets_and_protocols() {
    let mut store = CaptureManager::new("eth0", 1);
    let a = vlan_frame(0, 1, 60);
    let b = ptp_frame([2, 0, 0, 0, 0, 1], 0, 1, 0);
    store.ingest(&a, 0, 0);
    store.ingest(&a, 50_000, 1);
    store.ingest(&b, 250_000, 2);
    let g = store.io_graph(100);
    assert_eq!(g.duration_ms, 250);
    assert_eq!(g.buckets.len(), 3);
    assert_eq!(g.buckets[0].packets, 2);
    assert_eq!(g.buckets[1].packets, 0);
    assert_eq!(g.buckets[2].packets, 1);
    assert_eq!(g.buckets[2].time_ms, 200);
    assert_eq!(g.total_packets, 3);
    assert_eq!(g.total_bytes, 60 + 60 + b.len() as u64);
    assert_eq!(g.peak_pps, 20);
    assert_eq!(g.protocols.len(), 2);
    assert_eq!(g.protocols[0].protocol, "0x1234");
    assert_eq!(g.protocols[0].count, 2);
    assert_eq!(g.protocols[1].protocol, "PTP");
    assert_eq!(bucket_width(Some(0)), 1);
    assert_eq!(bucket_width(Some(100_000)), 60_000);
}

#[test]
fn engine_updates_topology_then_store() {
    let mut e = CaptureEngine::new("eth0", 1);
    let id = e.ingest_frame(&ptp_frame([2, 0, 0, 0, 0, 1], 0, 1, 0), 0, 0);
    assert_eq!(id, Some(0));
    assert_eq!(e.ingest_frame(&vlan_frame(5, 3, 64), 1, 1), Some(1));
    assert_eq!(e.store.get_packet_count(), 2);
    assert_eq!(e.topology.get_stats().total_packets, 2);
}

#[test]
fn ptp_analyzer_counts_and_samples() {
    let m = [0x02, 0, 0, 0, 0, 0x42];
    let mut a = PtpAnalyzer::new();
    let frames = [
        (ptp_frame(m, 11, 1, 0), 0i64),
        (ptp_frame(m, 0, 5, 0), 1_000_000),
        (ptp_frame(m, 8, 5, 3 * 65536), 1_000_100),
        (ptp_frame(m, 8, 6, 65536), 1_000_200),
        (ptp_frame(m, 0, 6, 0), 1_125_000),
        (ptp_frame(m, 9, 6, -2 * 65536), 1_200_000),
    ];
    for (f, ts) in frames.iter() {
        let p = CapturedPacket::from_raw(0, f, *ts);
        a.process_packet(&p);
    }
    let st = a.get_stats();
    assert_eq!(st.announce_count, 1);
    assert_eq!(st.sync_count, 2);
    assert_eq!(st.follow_up_count, 2);
    assert_eq!(st.delay_resp_count, 1);
    assert_eq!(st.domain, Some(3));
    assert_eq!(st.grandmaster_id.as_deref(), Some("02:00:00:00:00:42:00:00-1"));
    assert_eq!(a.offset_samples, vec![3 * 65536]);
    assert_eq!(a.delay_samples, vec![2 * 65536]);
    assert_eq!(a.sync_intervals_us, vec![125_000]);
    assert_eq!(a.get_clocks().len(), 1);
    assert!(a.get_clocks()[0].is_grandmaster);
    assert_eq!(a.get_clocks()[0].sync_messages, 4);
}

#[test]
fn cbs_traffic_classes() {
    assert_eq!(pcp_to_tc(0), 1);
    assert_eq!(pcp_to_tc(1), 0);
    assert_eq!(pcp_to_tc(6), 6);
    let mut c = CbsAnalyzer::new();
    let f = vlan_frame(4, 7, 100);
    for i in 0..3 {
        let p = CapturedPacket::from_raw(i, &f, i as i64 * 500);
        c.process_packet(&p);
    }
    let p = CapturedPacket::from_raw(3, &vlan_frame(1, 7, 80), 200_000);
    c.process_packet(&p);
    assert_eq!(c.total_packets, 4);
    assert_eq!(c.priority_distribution[4], 3);
    assert_eq!(c.traffic_classes(), vec![0, 4]);
    let tc4 = c.classes.iter().find(|t| t.tc == 4).unwrap();
    assert_eq!(tc4.max_burst_size, 300);
    assert_eq!(c.bandwidth_samples.len(), 1);
    assert_eq!(c.bandwidth_samples[0].elapsed_ms, 200);
}

#[test]
fn tas_cycle_detection() {
    let mut d = CycleDetector::new();
    for i in 0..120u64 {
        d.add_sample(if i % 3 == 0 { 2_000 } else { 1_000 + (i % 2) * 20 });
    }
    assert_eq!(d.detected_bin, Some(10));
    let mut t = TasAnalyzer::new();
    let f = vlan_frame(3, 1, 64);
    for i in 0..3 {
        let p = CapturedPacket::from_raw(i, &f, i as i64 * 1_000);
        t.process_packet(&p);
    }
    assert_eq!(t.queues.len(), 1);
    assert_eq!(t.queues[0].inter_arrival_us, vec![1_000, 1_000]);
}

#[test]
fn frer_counts_streams() {
    let mut fr = FrerAnalyzer::new();
    let p = CapturedPacket::from_raw(0, &vlan_frame(2, 9, 64), 0);
    fr.process_packet(&p);
    fr.process_packet(&p);
    let s = fr.get_stream_stats(&"02:00:00:00:00:08:9".to_string()).unwrap();
    assert_eq!(s.packets_received, 2);
    assert_eq!(s.replication_factor, 1);
    assert_eq!(fr.get_stats().total_packets, 2);
    assert_eq!(fr.get_stats().total_duplicates, 0);
}

#[test]
fn protocol_dispatch() {
    let mut pa = ProtocolAnalyzer::new();
    let sync = CapturedPacket::from_raw(0, &ptp_frame([2, 0, 0, 0, 0, 1], 0, 1, 0), 0);
    let video = CapturedPacket::from_raw(1, &vlan_frame(5, 3, 64), 1);
    assert_eq!(video.tsn_info.as_ref().unwrap().tsn_type, TsnType::Cbs);
    pa.analyze_packet(&sync);
    pa.analyze_packet(&video);
    pa.analyze_packet(&video);
    assert_eq!(pa.ptp.get_stats().sync_count, 1);
    assert_eq!(pa.cbs.total_packets, 2);
    assert_eq!(pa.get_streams().len(), 1);
    assert_eq!(pa.get_streams()[0].packet_count, 2);
    assert_eq!(pa.get_flows().len(), 2);
    assert_eq!(pa.get_flows()[1].flow_id, "02:00:00:00:00:08:02:00:00:00:00:09:3:ETH");
    pa.reset();
    assert!(pa.get_flows().is_empty());
}
