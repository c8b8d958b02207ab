use netguard::bands::Classifier;
use netguard::device::Device;
use netguard::mitigation::MitigationAction;
use netguard::monitor::{find_device, Monitor, MonitorConfig, TickOutcome};

fn device(name: &str, rx_bytes: u64, tx_bytes: u64) -> Device {
    let mut d = Device::new();
    d.interface = name.to_string();
    d.receive_bytes = rx_bytes;
    d.transmit_bytes = tx_bytes;
    d
}

fn config(action: MitigationAction) -> MonitorConfig {
    // 800 bits per interval: a delta of `n` bytes is `n` percent.
    MonitorConfig {
        interface: "eth0".to_string(),
        capacity_bits: 800,
        trigger_percent: 70,
        required_count: 3,
        action,
    }
}

#[test]
fn start_needs_the_interface() {
    let snap = vec![device("lo", 0, 0)];
    assert!(Monitor::start(config(MitigationAction::NoAction), Classifier::standard(), snap).is_none());
    let snap = vec![device("lo", 0, 0), device("eth0", 7, 9)];
    let m = Monitor::start(config(MitigationAction::NoAction), Classifier::standard(), snap).unwrap();
    assert_eq!(m.baseline.receive_bytes, 7);
    assert_eq!(m.breach.count, 0);
}

#[test]
fn find_device_takes_the_first_match() {
    let snap = vec![device("lo", 0, 0), device("eth0", 1, 0), device("eth0", 2, 0)];
    assert_eq!(find_device(&snap, &"eth0".to_string()), Some(1));
    assert_eq!(find_device(&snap, &"eth1".to_string()), None);
}

#[test]
fn sustained_breach_dispatches_once_at_sixth_sample() {
    let mut m =
        Monitor::start(config(MitigationAction::Reroute), Classifier::standard(), vec![device("eth0", 0, 0)])
            .unwrap();
    let mut total = 0u64;
    let mut counts = Vec::new();
    let mut fired = Vec::new();
    for (i, pct) in [75u64, 72, 40, 80, 85, 90].iter().enumerate() {
        total += pct;
        match m.tick(vec![device("lo", 1, 1), device("eth0", 0, total)]) {
            TickOutcome::Sampled(t) => {
                assert_eq!(t.rates.tx_bytes, *pct);
                counts.push(t.breach_count);
                if let Some(a) = t.dispatch {
                    fired.push((i, a));
                }
            }
            other => panic!("unexpected {:?}", other),
        }
    }
    assert_eq!(counts, vec![1, 2, 0, 1, 2, 3]);
    assert_eq!(fired, vec![(5, MitigationAction::Reroute)]);
    total += 95;
    match m.tick(vec![device("eth0", 0, total)]) {
        TickOutcome::Sampled(t) => {
            assert_eq!(t.breach_count, 4);
            assert_eq!(t.dispatch, None);
        }
        other => panic!("unexpected {:?}", other),
    }
}

#[test]
fn absent_interface_skips_the_tick() {
    let mut m =
        Monitor::start(config(MitigationAction::Suppress), Classifier::standard(), vec![device("eth0", 0, 0)])
            .unwrap();
    assert!(matches!(m.tick(vec![device("eth0", 0, 75)]), TickOutcome::Sampled(_)));
    assert!(matches!(m.tick(vec![device("lo", 5, 5)]), TickOutcome::Absent));
    assert!(matches!(m.tick(Vec::new()), TickOutcome::Absent));
    assert_eq!(m.breach.count, 1);
    assert_eq!(m.baseline.transmit_bytes, 75);
    match m.tick(vec![device("eth0", 0, 150)]) {
        TickOutcome::Sampled(t) => {
            assert_eq!(t.rates.tx_bytes, 75);
            assert_eq!(t.breach_count, 2);
            assert_eq!(t.transition, None);
        }
        other => panic!("unexpected {:?}", other),
    }
}

#[test]
fn band_transitions_are_reported_on_change() {
    let mut m =
        Monitor::start(config(MitigationAction::NoAction), Classifier::standard(), vec![device("eth0", 0, 0)])
            .unwrap();
    let mut total = 0u64;
    let mut seen = Vec::new();
    for pct in [80u64, 85, 95, 30, 20] {
        total += pct;
        if let TickOutcome::Sampled(t) = m.tick(vec![device("eth0", total, 0)]) {
            seen.push(t.transition);
        }
    }
    assert_eq!(seen, vec![Some(2), None, Some(3), Some(0), None]);
}

#[test]
fn counter_reset_rebaselines() {
    let mut m =
        Monitor::start(config(MitigationAction::NoAction), Classifier::standard(), vec![device("eth0", 500, 500)])
            .unwrap();
    assert!(matches!(m.tick(vec![device("eth0", 10, 600)]), TickOutcome::Reset));
    assert_eq!(m.baseline.receive_bytes, 10);
    match m.tick(vec![device("eth0", 90, 600)]) {
        TickOutcome::Sampled(t) => assert_eq!(t.rates.rx_bytes, 80),
        other => panic!("unexpected {:?}", other),
    }
}
