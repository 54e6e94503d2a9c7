use xv6_kernel::net::{
    earliest_delay, ephemeral_port, is_eth_addr, kick, listen_is_eth, millis_of_ticks, net_deadline, now_instant, parse_endpoint,
    EPHEMERAL_FIRST,
};
use xv6_kernel::wait::WakerCell;

#[test]
fn endpoints_with_host_and_port() {
    assert_eq!(parse_endpoint(b"10.0.2.2:8080"), Some(([10, 0, 2, 2], 8080)));
    assert_eq!(parse_endpoint(b"127.0.0.1:+22"), Some(([127, 0, 0, 1], 22)));
    assert_eq!(parse_endpoint(b"0.0.0.0:80"), Some(([0, 0, 0, 0], 80)));
    assert_eq!(parse_endpoint(b"1.2.3.004:65535"), Some(([1, 2, 3, 4], 65535)));
}

#[test]
fn endpoints_for_binds() {
    assert_eq!(parse_endpoint(b":7"), Some(([0, 0, 0, 0], 7)));
    assert_eq!(parse_endpoint(b"7000"), Some(([0, 0, 0, 0], 7000)));
}

#[test]
fn malformed_endpoints() {
    assert_eq!(parse_endpoint(b"1.2.3.4:0"), None);
    assert_eq!(parse_endpoint(b"1.2.3.4:65536"), None);
    assert_eq!(parse_endpoint(b"1.2.3.4:"), None);
    assert_eq!(parse_endpoint(b"1.2.3.4:+"), None);
    assert_eq!(parse_endpoint(b"1.2.3.4:-5"), None);
    assert_eq!(parse_endpoint(b"1.2.3:80"), None);
    assert_eq!(parse_endpoint(b"1.2.3.4.5:80"), None);
    assert_eq!(parse_endpoint(b"1.2.3.256:80"), None);
    assert_eq!(parse_endpoint(b"1..3.4:80"), None);
    assert_eq!(parse_endpoint(b"a.b.c.d:80"), None);
    assert_eq!(parse_endpoint(b""), None);
    // The last colon splits host from port.
    assert_eq!(parse_endpoint(b"1:2:3"), None);
}

#[test]
fn interface_routing() {
    assert!(!is_eth_addr([127, 0, 0, 1]));
    assert!(is_eth_addr([10, 0, 2, 2]));
    assert!(!listen_is_eth([127, 1, 2, 3], true));
    assert!(listen_is_eth([0, 0, 0, 0], true));
    assert!(!listen_is_eth([0, 0, 0, 0], false));
    assert!(listen_is_eth([10, 0, 2, 15], false));
}

#[test]
fn ephemeral_ports_count_up_and_wrap() {
    let mut next = EPHEMERAL_FIRST;
    assert_eq!(ephemeral_port(&mut next), 49152);
    assert_eq!(ephemeral_port(&mut next), 49153);
    let mut top = 0xffffu16;
    assert_eq!(ephemeral_port(&mut top), 0xffff);
    assert_eq!(top, 49152);
    assert_eq!(ephemeral_port(&mut top), 49152);
    assert_eq!(top, 49153);
    // A counter below the range starts over at its bottom.
    let mut low = 1u16;
    assert_eq!(ephemeral_port(&mut low), 49152);
    assert_eq!(low, 49153);
}

#[test]
fn kick_wakes_parked_task() {
    let mut cell = WakerCell::new();
    assert_eq!(kick(&mut cell), None);
    cell.register(5);
    assert_eq!(kick(&mut cell), Some(5));
    assert_eq!(cell.slot, None);
}

#[test]
fn stack_clock() {
    assert_eq!(millis_of_ticks(0), 0);
    assert_eq!(millis_of_ticks(25_000), 2);
    assert_eq!(millis_of_ticks(u64::MAX), 1_844_674_407_370_955);
    let t = now_instant(123_450_000);
    assert_eq!(t.total_millis(), 12_345);
    assert_eq!(t.total_micros(), 12_345_000);
    assert_eq!(now_instant(u64::MAX).total_millis(), 1_844_674_407_370_955);
}

#[test]
fn poll_deadlines() {
    assert_eq!(net_deadline(1000, None), 1000 + 200_000);
    assert_eq!(net_deadline(1000, Some(0)), 1000 + 10_000);
    assert_eq!(net_deadline(1000, Some(5)), 1000 + 50_000);
    assert_eq!(net_deadline(1000, Some(500)), 1000 + 200_000);
}

#[test]
fn earliest_of_two_poll_delays() {
    assert_eq!(earliest_delay(Some(30), Some(5)), Some(5));
    assert_eq!(earliest_delay(Some(5), Some(30)), Some(5));
    assert_eq!(earliest_delay(Some(7), None), Some(7));
    assert_eq!(earliest_delay(None, Some(9)), Some(9));
    assert_eq!(earliest_delay(None, None), None);
}
