use netguard::breach::BreachTracker;
use netguard::mitigation::{MitigationAction, MitigationDispatcher};
use netguard::rate::RateSample;

fn rx(bytes: u64) -> RateSample {
    RateSample { tx_bytes: 0, tx_packets: 0, rx_bytes: bytes, rx_packets: 0 }
}

#[test]
fn breach_run_then_reset() {
    let mut t = BreachTracker::new();
    let counts: Vec<u64> = [70u64, 90, 100, 69].iter().map(|p| t.observe(&rx(*p), 800, 70)).collect();
    assert_eq!(counts, vec![1, 2, 3, 0]);
}

#[test]
fn breach_count_saturates() {
    let mut t = BreachTracker { count: u64::MAX };
    assert_eq!(t.observe(&rx(100), 800, 70), u64::MAX);
}

#[test]
fn dispatch_fires_once() {
    let mut d = MitigationDispatcher::new(MitigationAction::Suppress);
    assert_eq!(d.maybe_dispatch(2, 3), None);
    assert!(!d.dispatched);
    assert_eq!(d.maybe_dispatch(3, 3), Some(MitigationAction::Suppress));
    for c in 3..20 {
        assert_eq!(d.maybe_dispatch(c, 3), None);
    }
    assert_eq!(d.maybe_dispatch(0, 3), None);
    assert!(d.dispatched);
}

#[test]
fn no_action_still_counts_as_dispatched() {
    let mut d = MitigationDispatcher::new(MitigationAction::NoAction);
    assert_eq!(d.maybe_dispatch(5, 3), Some(MitigationAction::NoAction));
    assert_eq!(d.maybe_dispatch(6, 3), None);
}
