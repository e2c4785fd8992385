use tsn_map::api::ApiResponse;
use tsn_map::hwts::{
    calculate_stats, make_pong, parse_pong_packet, ping_outcome, select_timestamp, HwTimestamp, TimestampSource, OP_PONG,
};
use tsn_map::icmp::{checksum, icmp_echo_request, is_echo_reply};
use tsn_map::lldp::{encode, parse_lldp_packet};
use tsn_map::scanner::TopologyScanner;
use tsn_map::topology::{DeviceCapability, NodeType};

#[test]
fn hw_ping_with_software_fallback() {
    let mut results = Vec::new();
    for seq in 0..5u32 {
        let tx = select_timestamp([(100, 1_000 + seq as i64), (0, 0), (0, 0)]);
        let rx = select_timestamp([(100, 51_000 + seq as i64 * 2), (0, 0), (0, 0)]);
        results.push(ping_outcome(seq, tx, rx, Some(seq)));
    }
    for r in &results {
        assert!(r.success);
        assert_eq!(r.timestamp_source, TimestampSource::Software);
        assert!(r.rtt_ns > 0);
    }
    let st = calculate_stats(&results);
    assert_eq!(st.count, 5);
    assert_eq!(st.success_count, 5);
    assert_eq!(st.hw_timestamp_count, 0);
    assert_eq!(st.sw_timestamp_count, 5);
    assert_eq!(st.min_ns, 50_000);
    assert_eq!(st.max_ns, 50_004);
}

#[test]
fn hardware_timestamps_preferred() {
    let t = select_timestamp([(1, 2), (0, 0), (3, 4)]).unwrap();
    assert_eq!(t.source, TimestampSource::Hardware);
    assert_eq!((t.sec, t.nsec), (3, 4));
    assert!(select_timestamp([(0, 0), (9, 9), (0, 0)]).is_none());
    let tx = HwTimestamp { sec: 10, nsec: 999_999_000, source: TimestampSource::Hardware };
    let rx = HwTimestamp { sec: 11, nsec: 1_000, source: TimestampSource::Hardware };
    let r = ping_outcome(7, Some(tx), Some(rx), Some(7));
    assert_eq!(r.rtt_ns, 2_000);
    assert_eq!(r.timestamp_source, TimestampSource::Hardware);
}

#[test]
fn mismatched_response_fails_round() {
    let tx = HwTimestamp { sec: 1, nsec: 0, source: TimestampSource::Software };
    let r = ping_outcome(3, Some(tx), Some(tx), Some(4));
    assert!(!r.success);
    assert_eq!(r.timestamp_source, TimestampSource::Unavailable);
    assert!(r.rx_timestamp.is_none());
    let st = calculate_stats(&[r]);
    assert_eq!(st.success_count, 0);
    assert_eq!(st.min_ns, 0);
}

#[test]
fn pong_round_trip() {
    let ping = tsn_map::hwts::create_ping_packet(0x01020304);
    assert_eq!(parse_pong_packet(&ping), None);
    let pong = make_pong(&ping).unwrap();
    assert_eq!(pong[8], OP_PONG);
    assert_eq!(pong.len(), 64);
    assert_eq!(parse_pong_packet(&pong), Some(0x01020304));
    assert!(make_pong(&pong).is_none());
    assert_eq!(parse_pong_packet(&pong[..11]), None);
}

#[test]
fn internet_checksum() {
    // Example from RFC 1071: words 0001 f203 f4f5 f6f7 sum to ddf2 after folding.
    assert_eq!(checksum(&[0x00, 0x01, 0xf2, 0x03, 0xf4, 0xf5, 0xf6, 0xf7]), !0xddf2u16);
    assert_eq!(checksum(&[0xff]), 0x00ff);
    let req = icmp_echo_request(0x1234, 7, 0x0102030405060708);
    assert_eq!(req.len(), 64);
    assert_eq!(req[0], 8);
    assert_eq!(checksum(&req), 0);
    assert_eq!(&req[4..8], &[0x12, 0x34, 0x00, 0x07]);
    assert_eq!(&req[8..16], &[1, 2, 3, 4, 5, 6, 7, 8]);
    let mut reply = vec![0u8; 28];
    reply[24] = 0x12;
    reply[25] = 0x34;
    reply[27] = 7;
    assert!(is_echo_reply(&reply, 0x1234, 7));
    reply[20] = 8;
    assert!(!is_echo_reply(&reply, 0x1234, 7));
}

#[test]
fn lldp_frame_decoded() {
    let mut f = vec![0x01, 0x80, 0xc2, 0x00, 0x00, 0x0e, 2, 0, 0, 0, 0, 5, 0x88, 0xCC];
    f.extend_from_slice(&[0x02, 0x07, 0x04, 2, 0, 0, 0, 0, 5]);
    f.extend_from_slice(&[0x04, 0x05, 0x07]);
    f.extend_from_slice(b"eth0");
    f.extend_from_slice(&[0x0a, 0x04]);
    f.extend_from_slice(b" sw ");
    f.extend_from_slice(&[0x0e, 0x04, 0x00, 0x14, 0x00, 0x10]);
    f.extend_from_slice(&[0x10, 0x0c, 0x05, 0x01, 192, 168, 1, 9, 0x02, 0, 0, 0, 1, 0]);
    f.extend_from_slice(&[0x00, 0x00]);
    let info = parse_lldp_packet(&f).unwrap();
    assert_eq!(info.chassis_id, "02:00:00:00:00:05");
    assert_eq!(info.chassis_id_subtype, 4);
    assert_eq!(info.port_id, "eth0");
    assert_eq!(info.system_name.as_deref(), Some("sw"));
    assert_eq!(info.system_capabilities, vec![DeviceCapability::Bridge, DeviceCapability::Router]);
    assert_eq!(info.enabled_capabilities, vec![DeviceCapability::Router]);
    assert_eq!(info.management_addresses, vec!["192.168.1.9".to_string()]);
    let mut no_port = f.clone();
    no_port[23] = 0x00;
    no_port[24] = 0x00;
    assert!(parse_lldp_packet(&no_port[..25]).is_none());
    f[13] = 0xCD;
    assert!(parse_lldp_packet(&f).is_none());
}

#[test]
fn hex_encoding() {
    assert_eq!(encode(&[0x00, 0xab, 0x10]), "00ab10");
    assert_eq!(encode(&[]), "");
}

#[test]
fn response_envelope() {
    let ok: ApiResponse<u32> = ApiResponse::success(5);
    assert!(ok.success);
    assert_eq!(ok.data, Some(5));
    let err: ApiResponse<u32> = ApiResponse::error("bad target");
    assert!(!err.success);
    assert_eq!(err.error.as_deref(), Some("bad target"));
}

#[test]
fn scanner_state() {
    let mut s = TopologyScanner::new("eth0").with_timeout(250);
    assert_eq!(s.timeout_ms, 250);
    assert!(!s.is_running());
    s.set_progress(1, 4);
    assert_eq!(s.get_progress(), 25);
    s.stop();
    assert!(!s.is_running());
}

#[test]
fn node_type_ranks() {
    assert_eq!(NodeType::PtpGrandmaster.priority(), 10);
    assert_eq!(NodeType::Unknown.priority(), 0);
    assert!(NodeType::Switch.priority() > NodeType::Bridge.priority());
    assert!(!NodeType::Router.icon().is_empty());
}

#[test]
fn lldp_text_is_lossy_and_trimmed() {
    let mut f = vec![0x01, 0x80, 0xc2, 0x00, 0x00, 0x0e, 2, 0, 0, 0, 0, 5, 0x88, 0xCC];
    f.extend_from_slice(&[0x02, 0x05, 0x07, b' ', b'c', 0xff, b'\t']);
    f.extend_from_slice(&[0x04, 0x03, 0x01, b'p', b'1']);
    f.extend_from_slice(&[0x00, 0x00]);
    let info = parse_lldp_packet(&f).unwrap();
    assert_eq!(info.chassis_id, "c\u{FFFD}");
    assert_eq!(info.port_id, "p1");
}
