use tcgscan::drivers::{browser_url, cleanup, driver_ports, port_arg};

#[test]
fn driver_ports_count_up_from_the_base() {
    assert_eq!(driver_ports(4000, 8), vec![4000, 4001, 4002, 4003, 4004, 4005, 4006, 4007]);
    assert!(driver_ports(4000, 0).is_empty());
}

#[test]
fn driver_addresses_use_the_port() {
    assert_eq!(port_arg(4003), "--port=4003");
    assert_eq!(browser_url(4003), "http://localhost:4003");
}

#[test]
fn cleanup_does_nothing() {
    cleanup();
}
