//! One tick of the sampling loop: from a fresh snapshot of the device table
//! to what is logged and what is started.
use crate::bands::{level_of, Classifier};
use crate::breach::{next_count, BreachTracker};
use crate::device::Device;
use crate::mitigation::{MitigationAction, MitigationDispatcher};
use crate::rate::{compute, counters_advance, load_reaches, RateSample};
use vstd::prelude::*;

verus! {

/// What the monitor watches and how it reacts.
#[derive(Debug, Clone)]
pub struct MonitorConfig {
    /// The interface to watch.
    pub interface: String,
    /// How many bits the link carries in one sampling interval.
    pub capacity_bits: u64,
    /// The load, in percent of capacity, at or above which a sample is a breach.
    pub trigger_percent: u64,
    /// How many breaches in a row set off the mitigation.
    pub required_count: u64,
    /// The mitigation.
    pub action: MitigationAction,
}

/// What one sample gave.
#[derive(Debug, Clone, Copy)]
pub struct TickReport {
    /// The deltas over the interval, for the metrics log.
    pub rates: RateSample,
    /// The band the load moved into, when it changed.
    pub transition: Option<usize>,
    /// The breaches in a row so far.
    pub breach_count: u64,
    /// The mitigation to start now, if any.
    pub dispatch: Option<MitigationAction>,
}

/// What became of one tick.
#[derive(Debug, Clone, Copy)]
pub enum TickOutcome {
    /// The interface is missing from the snapshot: nothing is logged and
    /// nothing changes; the next tick where it is back goes on from the
    /// same baseline.
    Absent,
    /// A counter of the interface went backward (the interface was reset):
    /// its new counters become the baseline, and the tick is not sampled.
    Reset,
    /// The interval was sampled.
    Sampled(TickReport),
}

/// The position of the first interface of `snapshot` named `name`.
pub fn find_device(snapshot: &Vec<Device>, name: &String) -> (r: Option<usize>)
    ensures
        r matches Some(i) ==> i < snapshot@.len() && snapshot@[i as int].interface@ == name@,
        r matches Some(i) ==> forall|j: int| 0 <= j < i ==> (#[trigger] snapshot@[j]).interface@ != name@,
        r is None ==> forall|j: int|
            0 <= j < snapshot@.len() ==> (#[trigger] snapshot@[j]).interface@ != name@,
{
    let mut i: usize = 0;
    while i < snapshot.len()
        invariant
            i <= snapshot@.len(),
            forall|j: int| 0 <= j < i ==> (#[trigger] snapshot@[j]).interface@ != name@,
        decreases snapshot.len() - i,
    {
        if snapshot[i].interface == *name {
            return Some(i);
        }
        i = i + 1;
    }
    None
}

/// The sampling loop's state between ticks.
pub struct Monitor {
    pub config: MonitorConfig,
    /// The counters of the last tick that was taken.
    pub baseline: Device,
    pub classifier: Classifier,
    pub breach: BreachTracker,
    pub dispatcher: MitigationDispatcher,
}

impl Monitor {
    pub open spec fn wf(&self) -> bool {
        &&& self.classifier.wf()
        &&& self.baseline.interface@ == self.config.interface@
        &&& self.dispatcher.action == self.config.action
    }

    /// Starts monitoring from the snapshot `snapshot`, which must hold the
    /// configured interface; none when it does not.
    pub fn start(config: MonitorConfig, classifier: Classifier, snapshot: Vec<Device>) -> (r: Option<
        Monitor,
    >)
        requires
            classifier.wf(),
        ensures
            r is Some <==> exists|j: int|
                0 <= j < snapshot@.len() && (#[trigger] snapshot@[j]).interface@ == config.interface@,
            r matches Some(m) ==> {
                &&& m.wf()
                &&& m.config == config
                &&& m.classifier == classifier
                &&& m.breach.count == 0
                &&& !m.dispatcher.dispatched
                &&& exists|i: int|
                    0 <= i < snapshot@.len() && m.baseline == snapshot@[i] && forall|j: int|
                        0 <= j < i ==> (#[trigger] snapshot@[j]).interface@ != config.interface@
            },
    {
        let mut snapshot = snapshot;
        match find_device(&snapshot, &config.interface) {
            None => None,
            Some(i) => {
                let baseline = snapshot.remove(i);
                let dispatcher = MitigationDispatcher::new(config.action);
                Some(Monitor { config, baseline, classifier, breach: BreachTracker::new(), dispatcher })
            },
        }
    }

    /// One tick on a fresh snapshot. When the interface is in it and no
    /// counter went backward, the deltas are taken against the baseline, the
    /// band and the breach count are updated, the mitigation decision is made,
    /// and the new counters become the baseline.
    pub fn tick(&mut self, snapshot: Vec<Device>) -> (r: TickOutcome)
        requires
            old(self).wf(),
        ensures
            final(self).wf(),
            final(self).config == old(self).config,
            (forall|j: int|
                0 <= j < snapshot@.len() ==> (#[trigger] snapshot@[j]).interface@
                    != old(self).config.interface@) ==> r is Absent,
            (exists|j: int|
                0 <= j < snapshot@.len() && (#[trigger] snapshot@[j]).interface@
                    == old(self).config.interface@) ==> !(r is Absent),
            r is Absent ==> *final(self) == *old(self),
            r is Reset ==> {
                &&& !counters_advance(old(self).baseline, final(self).baseline)
                &&& final(self).classifier == old(self).classifier
                &&& final(self).breach == old(self).breach
                &&& final(self).dispatcher == old(self).dispatcher
            },
            !(r is Absent) ==> exists|i: int|
                0 <= i < snapshot@.len() && final(self).baseline == snapshot@[i] && forall|j: int|
                    0 <= j < i ==> (#[trigger] snapshot@[j]).interface@
                        != old(self).config.interface@,
            r matches TickOutcome::Sampled(t) ==> {
                let prev = old(self).baseline;
                let cur = final(self).baseline;
                let cfg = old(self).config;
                let level = level_of(old(self).classifier.thresholds(), t.rates, cfg.capacity_bits);
                let count = next_count(
                    old(self).breach.count,
                    load_reaches(t.rates, cfg.capacity_bits, cfg.trigger_percent),
                );
                &&& counters_advance(prev, cur)
                &&& t.rates.tx_bytes == cur.transmit_bytes - prev.transmit_bytes
                &&& t.rates.tx_packets == cur.transmit_packets - prev.transmit_packets
                &&& t.rates.rx_bytes == cur.receive_bytes - prev.receive_bytes
                &&& t.rates.rx_packets == cur.receive_packets - prev.receive_packets
                &&& final(self).classifier.level() == level
                &&& (t.transition is Some <==> level != old(self).classifier.level())
                &&& (t.transition matches Some(b) ==> b == level)
                &&& final(self).breach.count == count
                &&& t.breach_count == count
                &&& final(self).dispatcher.dispatched == (old(self).dispatcher.dispatched || count
                    >= cfg.required_count)
                &&& t.dispatch == (if !old(self).dispatcher.dispatched && count
                    >= cfg.required_count {
                    Some(cfg.action)
                } else {
                    None
                })
            },
    {
        let mut snapshot = snapshot;
        let i = match find_device(&snapshot, &self.config.interface) {
            None => {
                return TickOutcome::Absent;
            },
            Some(i) => i,
        };
        let current = snapshot.remove(i);
        match compute(&self.baseline, &current) {
            None => {
                self.baseline = current;
                TickOutcome::Reset
            },
            Some(rates) => {
                let transition = self.classifier.update(&rates, self.config.capacity_bits);
                let breach_count = self.breach.observe(
                    &rates,
                    self.config.capacity_bits,
                    self.config.trigger_percent,
                );
                let dispatch = self.dispatcher.maybe_dispatch(
                    breach_count,
                    self.config.required_count,
                );
                self.baseline = current;
                TickOutcome::Sampled(TickReport { rates, transition, breach_count, dispatch })
            },
        }
    }
}

} // verus!
