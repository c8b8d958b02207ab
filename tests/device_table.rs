use netguard::device::{parse, Device, ParseError};

const TABLE: &str = "Inter-|   Receive                                                |  Transmit
 face |bytes    packets errs drop fifo frame compressed multicast|bytes    packets errs drop fifo colls carrier compressed
    lo:  123456     789    0    0    0     0          0         0   123456     789    0    0    0     0       0          0
  eth0: 9876543210 1234567 1 2 3 4 5 6 1122334455 998877 7 8 9 10 11 12
";

#[test]
fn new_device_is_empty() {
    let d = Device::new();
    assert_eq!(d.interface, "");
    assert_eq!(d.receive_bytes, 0);
    assert_eq!(d.transmit_compressed, 0);
}

#[test]
fn parse_reads_every_interface() {
    let devices = parse(TABLE).unwrap();
    assert_eq!(devices.len(), 2);
    assert_eq!(devices[0].interface, "lo");
    assert_eq!(devices[0].receive_bytes, 123456);
    assert_eq!(devices[0].receive_packets, 789);
    assert_eq!(devices[0].transmit_bytes, 123456);
    let eth = &devices[1];
    assert_eq!(eth.interface, "eth0");
    assert_eq!(eth.receive_bytes, 9876543210);
    assert_eq!(eth.receive_packets, 1234567);
    assert_eq!(eth.receive_errs, 1);
    assert_eq!(eth.receive_drop, 2);
    assert_eq!(eth.receive_fifo, 3);
    assert_eq!(eth.receive_frame, 4);
    assert_eq!(eth.receive_compressed, 5);
    assert_eq!(eth.receive_multicast, 6);
    assert_eq!(eth.transmit_bytes, 1122334455);
    assert_eq!(eth.transmit_packets, 998877);
    assert_eq!(eth.transmit_errs, 7);
    assert_eq!(eth.transmit_drop, 8);
    assert_eq!(eth.transmit_fifo, 9);
    assert_eq!(eth.transmit_colls, 10);
    assert_eq!(eth.transmit_carrier, 11);
    assert_eq!(eth.transmit_compressed, 12);
}

#[test]
fn parse_headers_only_gives_no_interface() {
    assert_eq!(parse("a\nb\n").unwrap().len(), 0);
    assert_eq!(parse("").unwrap().len(), 0);
}

#[test]
fn parse_last_line_without_line_break() {
    let devices = parse("h\nh\nwlan0: 1 2 3 4 5 6 7 8 9 10 11 12 13 14 15 16").unwrap();
    assert_eq!(devices.len(), 1);
    assert_eq!(devices[0].interface, "wlan0");
    assert_eq!(devices[0].transmit_compressed, 16);
}

#[test]
fn parse_accepts_a_plus_sign_and_ignores_extra_words() {
    let devices = parse("h\nh\nx: +1 2 3 4 5 6 7 8 9 10 11 12 13 14 15 16 17\n").unwrap();
    assert_eq!(devices[0].receive_bytes, 1);
    assert_eq!(devices[0].transmit_compressed, 16);
}

#[test]
fn parse_reports_short_line() {
    let r = parse("h\nh\nlo: 1 2 3 4 5 6 7 8 9 10 11 12 13 14 15 16\neth0: 1 2 3\n");
    assert_eq!(r.unwrap_err(), ParseError { entry: 1 });
}

#[test]
fn parse_reports_bad_number() {
    let r = parse("h\nh\nlo: 1 2 3 4 5 6 7 8 9 10 11 12 13 14 15 x\n");
    assert_eq!(r.unwrap_err(), ParseError { entry: 0 });
    let r = parse("h\nh\nlo: 18446744073709551616 2 3 4 5 6 7 8 9 10 11 12 13 14 15 16\n");
    assert_eq!(r.unwrap_err(), ParseError { entry: 0 });
}

#[test]
fn parse_reports_blank_line() {
    let r = parse("h\nh\n\nlo: 1 2 3 4 5 6 7 8 9 10 11 12 13 14 15 16\n");
    assert_eq!(r.unwrap_err(), ParseError { entry: 0 });
}

#[test]
fn parse_largest_counter() {
    let devices =
        parse("h\nh\nlo: 18446744073709551615 2 3 4 5 6 7 8 9 10 11 12 13 14 15 16\n").unwrap();
    assert_eq!(devices[0].receive_bytes, u64::MAX);
}
