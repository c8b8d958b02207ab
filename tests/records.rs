use netguard::record::{decode_metrics, encode_event, encode_metrics, LogRecord};

fn text(cs: Vec<char>) -> String {
    cs.into_iter().collect()
}

#[test]
fn metrics_line_layout() {
    let r = LogRecord {
        time_us: 1_700_000_000_123_456,
        tx_packets: 1,
        tx_bytes: 2000,
        rx_packets: 0,
        rx_bytes: 40,
    };
    assert_eq!(text(encode_metrics(&r)), "1700000000.123456\t1\t2000\t0\t40\n");
}

#[test]
fn metrics_line_pads_microseconds() {
    let r = LogRecord { time_us: 5_000_007, tx_packets: 0, tx_bytes: 0, rx_packets: 0, rx_bytes: 0 };
    assert_eq!(text(encode_metrics(&r)), "5.000007\t0\t0\t0\t0\n");
}

#[test]
fn metrics_round_trip() {
    let records = [
        LogRecord { time_us: 0, tx_packets: 0, tx_bytes: 0, rx_packets: 0, rx_bytes: 0 },
        LogRecord {
            time_us: u64::MAX,
            tx_packets: u64::MAX,
            tx_bytes: 12,
            rx_packets: 340,
            rx_bytes: u64::MAX,
        },
        LogRecord { time_us: 1_000_000, tx_packets: 9, tx_bytes: 10, rx_packets: 99, rx_bytes: 100 },
    ];
    for r in records {
        let line = text(encode_metrics(&r));
        assert_eq!(decode_metrics(&line), Some(r));
    }
}

#[test]
fn decode_rejects_malformed_lines() {
    assert_eq!(decode_metrics("1.12345\t1\t2\t3\t4\n"), None);
    assert_eq!(decode_metrics("1.123456\t1\t2\t3\t4"), None);
    assert_eq!(decode_metrics("1.123456\t1\t2\t3\n"), None);
    assert_eq!(decode_metrics("1.123456\t1\t2\t3\t18446744073709551616\n"), None);
    assert_eq!(decode_metrics("18446744073709.551616\t1\t2\t3\t4\n"), None);
    assert_eq!(decode_metrics("1.123456\t1\t2\t3\t4\nx"), None);
    assert_eq!(
        decode_metrics("18446744073709.551615\t1\t2\t3\t4\n").map(|r| r.time_us),
        Some(u64::MAX)
    );
}

#[test]
fn event_line_layout() {
    assert_eq!(text(encode_event(1_500_000, ">=90%")), "1.500000\t>=90%\n");
}
