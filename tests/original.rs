use tsn_map::hwts::{create_ping_packet, MAGIC, OP_PING};
use tsn_map::lldp::{parse_capabilities, CAP_BRIDGE, CAP_ROUTER};
use tsn_map::topology::DeviceCapability;

#[test]
fn test_packet_format() {
    let packet = create_ping_packet(42);
    assert_eq!(&packet[0..4], &MAGIC);
    assert_eq!(u32::from_le_bytes([packet[4], packet[5], packet[6], packet[7]]), 42);
    assert_eq!(packet[8], OP_PING);
}

#[test]
fn test_parse_capabilities() {
    let caps = parse_capabilities(CAP_BRIDGE | CAP_ROUTER);
    assert!(caps.contains(&DeviceCapability::Bridge));
    assert!(caps.contains(&DeviceCapability::Router));
    assert!(!caps.contains(&DeviceCapability::WlanAP));
}
