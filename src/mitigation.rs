//! The one-shot mitigation decision.
use vstd::prelude::*;

verus! {

/// What is done against a sustained overload.
#[derive(Debug, Clone, Copy, PartialEq, Eq, Structural)]
pub enum MitigationAction {
    /// Install a packet filter rule that drops the matching traffic.
    Suppress,
    /// Prepend the route's AS path and restart the routing daemon.
    Reroute,
    /// Nothing.
    NoAction,
}

/// How many times a dispatcher that starts with `dispatched` fires over the
/// breach counts `counts`.
pub open spec fn fire_count(dispatched: bool, counts: Seq<u64>, required: u64) -> nat
    decreases counts.len(),
{
    if counts.len() == 0 {
        0
    } else {
        let fires = !dispatched && counts[0] >= required;
        (if fires {
            1nat
        } else {
            0nat
        }) + fire_count(dispatched || counts[0] >= required, counts.drop_first(), required)
    }
}

/// Whether a dispatcher that starts with `dispatched` has fired after `counts`.
pub open spec fn dispatched_after(dispatched: bool, counts: Seq<u64>, required: u64) -> bool
    decreases counts.len(),
{
    if counts.len() == 0 {
        dispatched
    } else {
        dispatched_after(dispatched || counts[0] >= required, counts.drop_first(), required)
    }
}

/// One more breach count extends a run the way one more call of
/// `MitigationDispatcher::maybe_dispatch` does: it fires once more exactly when
/// the run has not fired yet and the count reaches the required one. So the
/// number of actions that a sequence of `maybe_dispatch` calls returns is
/// `fire_count` of its counts.
pub proof fn lemma_fire_count_push(dispatched: bool, counts: Seq<u64>, c: u64, required: u64)
    ensures
        dispatched_after(dispatched, counts.push(c), required) == (dispatched_after(
            dispatched,
            counts,
            required,
        ) || c >= required),
        fire_count(dispatched, counts.push(c), required) == fire_count(dispatched, counts, required)
            + (if !dispatched_after(dispatched, counts, required) && c >= required {
            1nat
        } else {
            0nat
        }),
    decreases counts.len(),
{
    let all = counts.push(c);
    if counts.len() == 0 {
        let d = dispatched || c >= required;
        assert(all.drop_first() =~= Seq::<u64>::empty());
        assert(fire_count(d, all.drop_first(), required) == 0);
        assert(dispatched_after(d, all.drop_first(), required) == d);
    } else {
        assert(all.drop_first() =~= counts.drop_first().push(c));
        assert(all[0] == counts[0]);
        lemma_fire_count_push(dispatched || counts[0] >= required, counts.drop_first(), c, required);
    }
}

/// However many breach counts reach the required count, the action fires at
/// most once, and never again once it has fired.
pub proof fn lemma_fires_at_most_once(dispatched: bool, counts: Seq<u64>, required: u64)
    ensures
        fire_count(dispatched, counts, required) <= 1,
        dispatched ==> fire_count(dispatched, counts, required) == 0,
    decreases counts.len(),
{
    if counts.len() > 0 {
        lemma_fires_at_most_once(true, counts.drop_first(), required);
        lemma_fires_at_most_once(dispatched, counts.drop_first(), required);
    }
}

/// Fires the configured action once, the first time the breach count reaches
/// the required count; never again afterwards.
#[derive(Debug, Clone, Copy, PartialEq, Eq, Structural)]
pub struct MitigationDispatcher {
    pub action: MitigationAction,
    pub dispatched: bool,
}

impl MitigationDispatcher {
    pub fn new(action: MitigationAction) -> (d: MitigationDispatcher)
        ensures
            d.action == action,
            !d.dispatched,
    {
        MitigationDispatcher { action, dispatched: false }
    }

    /// Returns the action to start when it has not fired yet and
    /// `breach_count >= required_count`; the dispatcher is then marked
    /// dispatched for good, whatever becomes of the action.
    pub fn maybe_dispatch(&mut self, breach_count: u64, required_count: u64) -> (r: Option<
        MitigationAction,
    >)
        ensures
            final(self).action == old(self).action,
            final(self).dispatched == (old(self).dispatched || breach_count >= required_count),
            r == (if !old(self).dispatched && breach_count >= required_count {
                Some(old(self).action)
            } else {
                None
            }),
    {
        if !self.dispatched && breach_count >= required_count {
            self.dispatched = true;
            Some(self.action)
        } else {
            None
        }
    }
}

} // verus!
