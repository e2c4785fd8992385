use tsn_map::latency::{self, is_reply_to, latency_packet, latency_reply, parse_latency_packet, LatencyResult};
use tsn_map::throughput::{
    received_totals,
    decode_header, encode_header, ThroughputHeader, ThroughputSession, ThroughputTester, OP_DATA, OP_END, OP_RESULT,
    OP_START, THROUGHPUT_MAGIC,
};

#[test]
fn throughput_header_round_trip() {
    let h = ThroughputHeader {
        magic: THROUGHPUT_MAGIC,
        op: OP_DATA,
        seq: 0x0102030405060708,
        timestamp: 99,
        total_bytes: 1 << 40,
        total_packets: 7,
    };
    let b = encode_header(&h);
    assert_eq!(b.len(), 40);
    assert_eq!(&b[0..4], b"TPHT");
    assert_eq!(&b[8..16], &0x0102030405060708u64.to_le_bytes());
    assert_eq!(decode_header(&b), Some(h));
    assert_eq!(decode_header(&b[..39]), None);
    let mut bad = b.clone();
    bad[0] = 0;
    assert_eq!(decode_header(&bad), None);
}

#[test]
fn throughput_pacing_and_payload() {
    let t = ThroughputTester::new("10.0.0.2", None).with_packet_size(10).with_bandwidth_limit(8_000_000);
    assert_eq!(t.port, 7879);
    assert_eq!(t.packet_size, 64);
    assert_eq!(t.packet_delay_ns(), 64_000);
    let big = ThroughputTester::new("h", Some(9)).with_packet_size(100_000);
    assert_eq!(big.packet_size, 65000);
    assert_eq!(big.packet_delay_ns(), 0);
    let p = ThroughputTester::new("h", None).with_packet_size(300).payload();
    assert_eq!(p.len(), 300);
    assert_eq!(p[39], 0);
    assert_eq!(p[40], 40);
    assert_eq!(p[299], (299 % 256) as u8);
}

#[test]
fn throughput_session_tally() {
    let mut s = ThroughputSession::new();
    let a = "10.0.0.1:5000".to_string();
    let other = "10.0.0.9:5000".to_string();
    let mk = |op, seq| ThroughputHeader { magic: THROUGHPUT_MAGIC, op, seq, timestamp: 0, total_bytes: 0, total_packets: 0 };
    assert!(s.on_datagram(&a, 40, &mk(OP_START, 0), 1_000).is_none());
    assert!(s.on_datagram(&a, 1400, &mk(OP_DATA, 0), 2_000).is_none());
    assert!(s.on_datagram(&other, 1400, &mk(OP_DATA, 5), 2_500).is_none());
    assert!(s.on_datagram(&a, 1400, &mk(OP_DATA, 1), 3_000).is_none());
    let r = s.on_datagram(&a, 40, &mk(OP_END, 2), 11_000).unwrap();
    assert_eq!(r.op, OP_RESULT);
    assert_eq!(r.total_bytes, 2800);
    assert_eq!(r.total_packets, 2);
    assert_eq!(r.seq, 1);
    assert_eq!(r.timestamp, 10_000);
}

#[test]
fn latency_probe_format() {
    let p = latency_packet(0x0A0B0C0D, latency::OP_PING);
    assert_eq!(p.len(), 12);
    assert_eq!(&p[0..4], b"YTAL");
    assert_eq!(parse_latency_packet(&p), Some((0x0A0B0C0D, latency::OP_PING)));
    let reply = latency_reply(&p).unwrap();
    let t = "10.0.0.2:7878";
    assert!(is_reply_to(&reply, 0x0A0B0C0D, t, t));
    assert!(!is_reply_to(&reply, 0x0A0B0C0D, "10.0.0.3:7878", t));
    assert!(!is_reply_to(&reply, 1, t, t));
    assert!(!is_reply_to(&p, 0x0A0B0C0D, t, t));
    let ok = latency::probe_result(0x0A0B0C0D, Some(&reply), t, t, 500, 1, 2);
    assert!(ok.success && ok.rtt_ns == 500);
    let bad = latency::probe_result(0x0A0B0C0D, Some(&reply), "10.0.0.9:1", t, 500, 1, 2);
    assert!(!bad.success && bad.rtt_ns == 0);
    assert!(latency_reply(&reply).is_none());
    assert_eq!(parse_latency_packet(&p[..11]), None);
}

#[test]
fn latency_statistics() {
    let r = |seq, success, rtt_ns| LatencyResult { seq, success, rtt_ns, tx_time: 0, rx_time: 0 };
    let st = latency::calculate_stats(&[r(0, true, 300), r(1, false, 0), r(2, true, 100), r(3, true, 200)]);
    assert_eq!(st.count, 4);
    assert_eq!(st.success_count, 3);
    assert_eq!(st.min_ns, 100);
    assert_eq!(st.max_ns, 300);
    assert_eq!(st.sum_ns, 600);
    let none = latency::calculate_stats(&[r(0, false, 0)]);
    assert_eq!((none.success_count, none.min_ns, none.max_ns), (0, 0, 0));
}

#[test]
fn throughput_received_totals() {
    let r = ThroughputHeader { magic: THROUGHPUT_MAGIC, op: OP_RESULT, seq: 0, timestamp: 0, total_bytes: 900, total_packets: 9 };
    assert_eq!(received_totals(Some(r), 10, 1000), (9, 900));
    let d = ThroughputHeader { op: OP_DATA, ..r };
    assert_eq!(received_totals(Some(d), 10, 1000), (10, 1000));
    assert_eq!(received_totals(None, 10, 1000), (10, 1000));
}
