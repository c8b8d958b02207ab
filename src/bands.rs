//! Hysteretic classification of the link's load into severity bands.
use crate::rate::{load_reaches, reaches, RateSample};
use vstd::prelude::*;

verus! {

/// A severity band: the load reaches it at `percent` percent of capacity.
#[derive(Debug, Clone)]
pub struct Band {
    pub percent: u64,
    pub label: String,
}

/// The band that a sample falls in, for thresholds `ps` in increasing order:
/// the number of the highest threshold reached, counting from one, or zero
/// when the load is below all of them.
pub open spec fn level_of(ps: Seq<u64>, s: RateSample, capacity_bits: u64) -> nat
    decreases ps.len(),
{
    if ps.len() == 0 {
        0
    } else if load_reaches(s, capacity_bits, ps.last()) {
        ps.len()
    } else {
        level_of(ps.drop_last(), s, capacity_bits)
    }
}

pub open spec fn strictly_increasing(ps: Seq<u64>) -> bool {
    forall|i: int, j: int| 0 <= i < j < ps.len() ==> ps[i] < ps[j]
}

/// The bands that one update reports, for a classifier that stands at `current`
/// and then sees `samples` in turn: a band is reported each time it differs from
/// the one before.
pub open spec fn transitions(
    ps: Seq<u64>,
    current: nat,
    samples: Seq<RateSample>,
    capacity_bits: u64,
) -> Seq<nat>
    decreases samples.len(),
{
    if samples.len() == 0 {
        Seq::empty()
    } else {
        let next = level_of(ps, samples[0], capacity_bits);
        let rest = transitions(ps, next, samples.drop_first(), capacity_bits);
        if next != current {
            seq![next] + rest
        } else {
            rest
        }
    }
}

/// Consecutive reported bands always differ, and the first differs from the
/// band that the classifier started in: dwelling in a band reports nothing.
pub proof fn lemma_transitions_never_repeat(
    ps: Seq<u64>,
    current: nat,
    samples: Seq<RateSample>,
    capacity_bits: u64,
)
    ensures
        ({
            let t = transitions(ps, current, samples, capacity_bits);
            &&& t.len() > 0 ==> t[0] != current
            &&& forall|i: int| 0 <= i < t.len() - 1 ==> #[trigger] t[i] != t[i + 1]
        }),
    decreases samples.len(),
{
    if samples.len() > 0 {
        let next = level_of(ps, samples[0], capacity_bits);
        lemma_transitions_never_repeat(ps, next, samples.drop_first(), capacity_bits);
        let rest = transitions(ps, next, samples.drop_first(), capacity_bits);
        if next != current {
            let t = seq![next] + rest;
            assert forall|i: int| 0 <= i < t.len() - 1 implies #[trigger] t[i] != t[i + 1] by {
                if i > 0 {
                    assert(t[i] == rest[i - 1] && t[i + 1] == rest[i]);
                }
            }
        }
    }
}

/// The band that a classifier standing at `current` stands in after `samples`.
pub open spec fn level_after(
    ps: Seq<u64>,
    current: nat,
    samples: Seq<RateSample>,
    capacity_bits: u64,
) -> nat
    decreases samples.len(),
{
    if samples.len() == 0 {
        current
    } else {
        level_after(ps, level_of(ps, samples[0], capacity_bits), samples.drop_first(), capacity_bits)
    }
}

/// One more sample extends a run the way one more call of `Classifier::update`
/// does: the band moves to `level_of` the sample, and is reported exactly when
/// it differs from the band the run ended in. So the bands that a sequence of
/// `update` calls reports are `transitions` of its samples.
pub proof fn lemma_transitions_push(
    ps: Seq<u64>,
    current: nat,
    samples: Seq<RateSample>,
    s: RateSample,
    capacity_bits: u64,
)
    ensures
        level_after(ps, current, samples.push(s), capacity_bits) == level_of(ps, s, capacity_bits),
        transitions(ps, current, samples.push(s), capacity_bits) == transitions(
            ps,
            current,
            samples,
            capacity_bits,
        ) + (if level_of(ps, s, capacity_bits) != level_after(ps, current, samples, capacity_bits) {
            seq![level_of(ps, s, capacity_bits)]
        } else {
            Seq::empty()
        }),
    decreases samples.len(),
{
    let l = level_of(ps, s, capacity_bits);
    let tail = if l != level_after(ps, current, samples, capacity_bits) {
        seq![l]
    } else {
        Seq::<nat>::empty()
    };
    let all = samples.push(s);
    if samples.len() == 0 {
        assert(all.drop_first() =~= Seq::<RateSample>::empty());
        assert(transitions(ps, l, all.drop_first(), capacity_bits) == Seq::<nat>::empty());
        assert(level_after(ps, l, all.drop_first(), capacity_bits) == l);
        assert(transitions(ps, current, samples, capacity_bits) == Seq::<nat>::empty());
        assert(transitions(ps, current, all, capacity_bits) =~= Seq::<nat>::empty() + tail);
    } else {
        let next = level_of(ps, samples[0], capacity_bits);
        let rest = samples.drop_first();
        assert(all.drop_first() =~= rest.push(s));
        assert(all[0] == samples[0]);
        lemma_transitions_push(ps, next, rest, s, capacity_bits);
        let before = transitions(ps, next, rest, capacity_bits);
        if next != current {
            assert(seq![next] + (before + tail) =~= (seq![next] + before) + tail);
        }
    }
}

/// The band that the link's load currently stands in, among a configured,
/// increasing set of thresholds. Band zero lies below the lowest threshold;
/// band `k` is the `k`-th threshold.
pub struct Classifier {
    below_label: String,
    bands: Vec<Band>,
    current: usize,
}

impl Classifier {
    pub closed spec fn band_list(&self) -> Seq<Band> {
        self.bands@
    }

    pub closed spec fn below(&self) -> Seq<char> {
        self.below_label@
    }

    /// The band the classifier stands in.
    pub closed spec fn level(&self) -> nat {
        self.current as nat
    }

    pub open spec fn thresholds(&self) -> Seq<u64> {
        self.band_list().map_values(|b: Band| b.percent)
    }

    pub open spec fn wf(&self) -> bool {
        &&& strictly_increasing(self.thresholds())
        &&& self.level() <= self.band_list().len()
    }

    /// A classifier over `bands`, standing below all of them; none when the
    /// thresholds are not strictly increasing.
    pub fn new(below_label: String, bands: Vec<Band>) -> (r: Option<Classifier>)
        ensures
            r is Some <==> strictly_increasing(bands@.map_values(|b: Band| b.percent)),
            r matches Some(c) ==> {
                &&& c.wf()
                &&& c.level() == 0
                &&& c.band_list() == bands@
                &&& c.below() == below_label@
            },
    {
        let ghost ps = bands@.map_values(|b: Band| b.percent);
        let mut i: usize = 1;
        while i < bands.len()
            invariant
                1 <= i,
                ps == bands@.map_values(|b: Band| b.percent),
                bands@.len() > 0 ==> i <= bands@.len(),
                forall|x: int, y: int| 0 <= x < y < i && y < ps.len() ==> ps[x] < ps[y],
            decreases bands.len() - i,
        {
            if bands[i - 1].percent >= bands[i].percent {
                assert(ps[i - 1] >= ps[i as int]);
                return None;
            }
            assert forall|x: int, y: int| 0 <= x < y < i + 1 && y < ps.len() implies ps[x]
                < ps[y] by {
                if y == i && x < i - 1 {
                    assert(ps[x] < ps[i - 1]);
                }
            }
            i = i + 1;
        }
        Some(Classifier { below_label, bands, current: 0 })
    }

    /// The 50/70/90 percent bands.
    pub fn standard() -> (r: Classifier)
        ensures
            r.wf(),
            r.level() == 0,
            r.thresholds() == seq![50u64, 70u64, 90u64],
            r.below() == "<50%"@,
            r.band_list()[0].label@ == ">=50%"@,
            r.band_list()[1].label@ == ">=70%"@,
            r.band_list()[2].label@ == ">=90%"@,
    {
        let mut bands: Vec<Band> = Vec::new();
        bands.push(Band { percent: 50, label: String::from_str(">=50%") });
        bands.push(Band { percent: 70, label: String::from_str(">=70%") });
        bands.push(Band { percent: 90, label: String::from_str(">=90%") });
        let ghost ps = bands@.map_values(|b: Band| b.percent);
        assert(ps =~= seq![50u64, 70u64, 90u64]);
        Classifier { below_label: String::from_str("<50%"), bands, current: 0 }
    }

    /// The 50/70/80/90 percent bands.
    pub fn with_eighty() -> (r: Classifier)
        ensures
            r.wf(),
            r.level() == 0,
            r.thresholds() == seq![50u64, 70u64, 80u64, 90u64],
            r.below() == "<50%"@,
            r.band_list()[0].label@ == ">=50%"@,
            r.band_list()[1].label@ == ">=70%"@,
            r.band_list()[2].label@ == ">=80%"@,
            r.band_list()[3].label@ == ">=90%"@,
    {
        let mut bands: Vec<Band> = Vec::new();
        bands.push(Band { percent: 50, label: String::from_str(">=50%") });
        bands.push(Band { percent: 70, label: String::from_str(">=70%") });
        bands.push(Band { percent: 80, label: String::from_str(">=80%") });
        bands.push(Band { percent: 90, label: String::from_str(">=90%") });
        let ghost ps = bands@.map_values(|b: Band| b.percent);
        assert(ps =~= seq![50u64, 70u64, 80u64, 90u64]);
        Classifier { below_label: String::from_str("<50%"), bands, current: 0 }
    }

    /// The band the classifier stands in: zero below every threshold, `k` at
    /// the `k`-th.
    pub fn current(&self) -> (r: usize)
        ensures
            r == self.level(),
    {
        self.current
    }

    /// How many thresholds the classifier holds.
    pub fn band_count(&self) -> (r: usize)
        ensures
            r == self.band_list().len(),
    {
        self.bands.len()
    }

    /// The label of band `level`.
    pub fn label(&self, level: usize) -> (r: &String)
        requires
            level <= self.band_list().len(),
        ensures
            level == 0 ==> r@ == self.below(),
            level > 0 ==> r@ == self.band_list()[level - 1].label@,
    {
        if level == 0 {
            &self.below_label
        } else {
            &self.bands[level - 1].label
        }
    }

    /// Classifies one sample: the classifier moves to the highest band whose
    /// threshold the busier direction reaches, and reports that band only when
    /// it differs from the one it stood in.
    pub fn update(&mut self, s: &RateSample, capacity_bits: u64) -> (r: Option<usize>)
        requires
            old(self).wf(),
        ensures
            final(self).wf(),
            final(self).band_list() == old(self).band_list(),
            final(self).below() == old(self).below(),
            final(self).level() == level_of(old(self).thresholds(), *s, capacity_bits),
            r is Some <==> final(self).level() != old(self).level(),
            r matches Some(b) ==> b == final(self).level(),
    {
        let ghost ps = self.thresholds();
        assert(ps =~= self.bands@.map_values(|b: Band| b.percent));
        let mut k = self.bands.len();
        assert(ps.subrange(0, k as int) =~= ps);
        while k > 0 && !reaches(s, capacity_bits, self.bands[k - 1].percent)
            invariant
                k <= self.bands@.len(),
                ps == self.bands@.map_values(|b: Band| b.percent),
                level_of(ps, *s, capacity_bits) == level_of(ps.subrange(0, k as int), *s, capacity_bits),
            decreases k,
        {
            assert(ps.subrange(0, k as int).drop_last() =~= ps.subrange(0, k - 1));
            k = k - 1;
        }
        proof {
            if k > 0 {
                assert(ps.subrange(0, k as int).last() == ps[k - 1]);
            } else {
                assert(ps.subrange(0, 0) =~= Seq::<u64>::empty());
            }
        }
        if k != self.current {
            self.current = k;
            Some(k)
        } else {
            None
        }
    }
}

} // verus!
