//! Detection of sustained overload: runs of consecutive samples at or above
//! the trigger threshold.
use crate::rate::{load_reaches, reaches, RateSample};
use vstd::prelude::*;

verus! {

/// The count after one more sample: one more on a breach (held at the
/// largest `u64`), zero otherwise.
pub open spec fn next_count(count: u64, breached: bool) -> u64 {
    if !breached {
        0
    } else if count < u64::MAX {
        (count + 1) as u64
    } else {
        count
    }
}

/// The counts that a tracker standing at `count` returns for `samples` in turn.
pub open spec fn breach_counts(
    count: u64,
    samples: Seq<RateSample>,
    capacity_bits: u64,
    percent: u64,
) -> Seq<u64>
    decreases samples.len(),
{
    if samples.len() == 0 {
        Seq::empty()
    } else {
        let c = next_count(count, load_reaches(samples[0], capacity_bits, percent));
        seq![c] + breach_counts(c, samples.drop_first(), capacity_bits, percent)
    }
}

/// The count of a tracker standing at `count` after `samples`.
pub open spec fn count_after(
    count: u64,
    samples: Seq<RateSample>,
    capacity_bits: u64,
    percent: u64,
) -> u64
    decreases samples.len(),
{
    if samples.len() == 0 {
        count
    } else {
        count_after(
            next_count(count, load_reaches(samples[0], capacity_bits, percent)),
            samples.drop_first(),
            capacity_bits,
            percent,
        )
    }
}

/// One more sample extends a run the way one more call of
/// `BreachTracker::observe` does: it appends the next count after the one the
/// run ended in. So the counts that a sequence of `observe` calls returns are
/// `breach_counts` of its samples.
pub proof fn lemma_breach_counts_push(
    count: u64,
    samples: Seq<RateSample>,
    s: RateSample,
    capacity_bits: u64,
    percent: u64,
)
    ensures
        count_after(count, samples.push(s), capacity_bits, percent) == next_count(
            count_after(count, samples, capacity_bits, percent),
            load_reaches(s, capacity_bits, percent),
        ),
        breach_counts(count, samples.push(s), capacity_bits, percent) == breach_counts(
            count,
            samples,
            capacity_bits,
            percent,
        ).push(
            next_count(
                count_after(count, samples, capacity_bits, percent),
                load_reaches(s, capacity_bits, percent),
            ),
        ),
    decreases samples.len(),
{
    let all = samples.push(s);
    if samples.len() == 0 {
        let c = next_count(count, load_reaches(s, capacity_bits, percent));
        assert(all.drop_first() =~= Seq::<RateSample>::empty());
        assert(breach_counts(c, all.drop_first(), capacity_bits, percent) == Seq::<u64>::empty());
        assert(count_after(c, all.drop_first(), capacity_bits, percent) == c);
        assert(breach_counts(count, samples, capacity_bits, percent) == Seq::<u64>::empty());
        assert(breach_counts(count, all, capacity_bits, percent) =~= Seq::<u64>::empty().push(c));
    } else {
        let c = next_count(count, load_reaches(samples[0], capacity_bits, percent));
        let rest = samples.drop_first();
        assert(all.drop_first() =~= rest.push(s));
        assert(all[0] == samples[0]);
        lemma_breach_counts_push(c, rest, s, capacity_bits, percent);
        let before = breach_counts(c, rest, capacity_bits, percent);
        let x = next_count(
            count_after(c, rest, capacity_bits, percent),
            load_reaches(s, capacity_bits, percent),
        );
        assert(seq![c] + before.push(x) =~= (seq![c] + before).push(x));
    }
}

/// `n` breaches in a row, then a sample below the threshold, take a fresh
/// tracker through the counts `1, 2, ..., n, 0`.
pub proof fn lemma_breach_run_then_reset(
    samples: Seq<RateSample>,
    capacity_bits: u64,
    percent: u64,
    n: nat,
)
    requires
        n < u64::MAX,
        samples.len() == n + 1,
        forall|i: int| 0 <= i < n ==> load_reaches(#[trigger] samples[i], capacity_bits, percent),
        !load_reaches(samples[n as int], capacity_bits, percent),
    ensures
        breach_counts(0, samples, capacity_bits, percent) == Seq::new(
            n + 1,
            |i: int| if i < n { (i + 1) as u64 } else { 0u64 },
        ),
{
    lemma_breach_run_from(0, samples, capacity_bits, percent, n);
    assert(breach_counts(0, samples, capacity_bits, percent) =~= Seq::new(
        n + 1,
        |i: int| if i < n { (i + 1) as u64 } else { 0u64 },
    ));
}

proof fn lemma_breach_run_from(
    count: u64,
    samples: Seq<RateSample>,
    capacity_bits: u64,
    percent: u64,
    n: nat,
)
    requires
        count + n < u64::MAX,
        samples.len() == n + 1,
        forall|i: int| 0 <= i < n ==> load_reaches(#[trigger] samples[i], capacity_bits, percent),
        !load_reaches(samples[n as int], capacity_bits, percent),
    ensures
        breach_counts(count, samples, capacity_bits, percent) =~= Seq::new(
            n + 1,
            |i: int| if i < n { (count + i + 1) as u64 } else { 0u64 },
        ),
    decreases n,
{
    let rest = samples.drop_first();
    let target = Seq::new(n + 1, |i: int| if i < n { (count + i + 1) as u64 } else { 0u64 });
    if n == 0 {
        assert(rest.len() == 0);
        assert(breach_counts(0u64, rest, capacity_bits, percent) == Seq::<u64>::empty());
        assert(breach_counts(count, samples, capacity_bits, percent) =~= seq![0u64] + Seq::<
            u64,
        >::empty());
    } else {
        assert(load_reaches(samples[0], capacity_bits, percent));
        assert forall|i: int| 0 <= i < n - 1 implies load_reaches(
            #[trigger] rest[i],
            capacity_bits,
            percent,
        ) by {
            assert(rest[i] == samples[i + 1]);
        }
        let c = (count + 1) as u64;
        lemma_breach_run_from(c, rest, capacity_bits, percent, (n - 1) as nat);
        let tail = breach_counts(c, rest, capacity_bits, percent);
        assert(breach_counts(count, samples, capacity_bits, percent) == seq![c] + tail);
        assert forall|i: int| 0 <= i < n + 1 implies (seq![c] + tail)[i] == target[i] by {
            if i > 0 {
                assert((seq![c] + tail)[i] == tail[i - 1]);
            }
        }
        assert(seq![c] + tail =~= target);
    }
}

/// Counts consecutive samples at or above a trigger threshold.
#[derive(Debug, Clone, Copy, PartialEq, Eq, Structural)]
pub struct BreachTracker {
    pub count: u64,
}

impl BreachTracker {
    pub fn new() -> (t: BreachTracker)
        ensures
            t.count == 0,
    {
        BreachTracker { count: 0 }
    }

    /// Takes one sample: at or above `percent` percent of capacity the count
    /// grows by one, below it the count drops to zero. Returns the new count.
    pub fn observe(&mut self, s: &RateSample, capacity_bits: u64, percent: u64) -> (r: u64)
        ensures
            final(self).count == next_count(
                old(self).count,
                load_reaches(*s, capacity_bits, percent),
            ),
            r == final(self).count,
    {
        if reaches(s, capacity_bits, percent) {
            if self.count < u64::MAX {
                self.count = self.count + 1;
            }
        } else {
            self.count = 0;
        }
        self.count
    }
}

} // verus!
