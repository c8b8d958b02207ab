use netguard::bands::{Band, Classifier};
use netguard::device::Device;
use netguard::rate::{compute, reaches, RateSample};

fn device(name: &str, rx_bytes: u64, rx_packets: u64, tx_bytes: u64, tx_packets: u64) -> Device {
    let mut d = Device::new();
    d.interface = name.to_string();
    d.receive_bytes = rx_bytes;
    d.receive_packets = rx_packets;
    d.transmit_bytes = tx_bytes;
    d.transmit_packets = tx_packets;
    d
}

fn tx(bytes: u64) -> RateSample {
    RateSample { tx_bytes: bytes, tx_packets: 0, rx_bytes: 0, rx_packets: 0 }
}

#[test]
fn compute_gives_exact_deltas() {
    let prev = device("eth0", 100, 10, 1000, 20);
    let cur = device("eth0", 350, 10, 6000, 27);
    let s = compute(&prev, &cur).unwrap();
    assert_eq!(s, RateSample { tx_bytes: 5000, tx_packets: 7, rx_bytes: 250, rx_packets: 0 });
}

#[test]
fn compute_on_unchanged_counters_is_zero() {
    let prev = device("eth0", u64::MAX, 5, 7, 9);
    let s = compute(&prev, &prev.clone()).unwrap();
    assert_eq!(s, RateSample { tx_bytes: 0, tx_packets: 0, rx_bytes: 0, rx_packets: 0 });
}

#[test]
fn compute_on_reset_counters_gives_none() {
    let prev = device("eth0", 100, 10, 1000, 20);
    let cur = device("eth0", 5, 1, 2000, 30);
    assert!(compute(&prev, &cur).is_none());
}

#[test]
fn reaches_compares_exactly() {
    // 5,000,000 bytes on a 50,000,000 bit link is exactly 80 percent.
    assert!(reaches(&tx(5_000_000), 50_000_000, 80));
    assert!(!reaches(&tx(4_999_999), 50_000_000, 80));
    let rx = RateSample { tx_bytes: 1, tx_packets: 0, rx_bytes: 5_000_000, rx_packets: 0 };
    assert!(reaches(&rx, 50_000_000, 80));
    assert!(reaches(&tx(u64::MAX), u64::MAX, 800));
}

#[test]
fn eighty_percent_falls_in_seventy_band() {
    let mut c = Classifier::standard();
    assert_eq!(c.update(&tx(5_000_000), 50_000_000), Some(2));
    assert_eq!(c.current(), 2);
    assert_eq!(c.label(2), ">=70%");
}

#[test]
fn eighty_percent_band_when_configured() {
    let mut c = Classifier::with_eighty();
    assert_eq!(c.update(&tx(5_000_000), 50_000_000), Some(3));
    assert_eq!(c.label(3), ">=80%");
    assert_eq!(c.band_count(), 4);
}

#[test]
fn dwelling_in_a_band_reports_once() {
    let mut c = Classifier::standard();
    let cap = 800;
    let mut reported = Vec::new();
    for pct in [10u64, 55, 60, 95, 99, 72, 75, 10, 20] {
        if let Some(b) = c.update(&tx(pct), cap) {
            reported.push(b);
        }
    }
    assert_eq!(reported, vec![1, 3, 2, 0]);
    for w in reported.windows(2) {
        assert_ne!(w[0], w[1]);
    }
    assert_eq!(c.label(0), "<50%");
}

#[test]
fn classifier_thresholds_must_increase() {
    let bands = vec![
        Band { percent: 50, label: "a".to_string() },
        Band { percent: 50, label: "b".to_string() },
    ];
    assert!(Classifier::new("low".to_string(), bands).is_none());
    let bands = vec![
        Band { percent: 30, label: "a".to_string() },
        Band { percent: 60, label: "b".to_string() },
    ];
    let mut c = Classifier::new("low".to_string(), bands).unwrap();
    assert_eq!(c.update(&tx(45), 800), Some(1));
    assert_eq!(c.label(1), "a");
    assert!(Classifier::new("low".to_string(), Vec::new()).is_some());
}

#[test]
fn deltas_between_two_parsed_tables() {
    let t1 = "h\nh\nlo: 5 5 0 0 0 0 0 0 5 5 0 0 0 0 0 0\neth0: 100 10 0 0 0 0 0 0 2000 20 0 0 0 0 0 0\n";
    let t2 = "h\nh\neth0: 100 13 0 0 0 0 0 0 9000 20 0 0 0 0 0 0\n";
    let d1 = netguard::device::parse(t1).unwrap();
    let d2 = netguard::device::parse(t2).unwrap();
    let s = compute(&d1[1], &d2[0]).unwrap();
    assert_eq!(s, RateSample { tx_bytes: 7000, tx_packets: 0, rx_bytes: 0, rx_packets: 3 });
    let same = netguard::device::parse(t1).unwrap();
    let z = compute(&d1[1], &same[1]).unwrap();
    assert_eq!(z, RateSample { tx_bytes: 0, tx_packets: 0, rx_bytes: 0, rx_packets: 0 });
}

#[test]
fn table_without_the_interface_still_parses() {
    let devices = netguard::device::parse("h\nh\nlo: 1 2 3 4 5 6 7 8 9 10 11 12 13 14 15 16\n").unwrap();
    assert!(netguard::monitor::find_device(&devices, &"eth0".to_string()).is_none());
    assert_eq!(devices.len(), 1);
}
