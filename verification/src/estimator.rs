//! The tempo estimator: the history of recent taps, and the two operations on
//! it, recording a tap and reading the tempo.

use vstd::prelude::*;
use crate::model::{
    after_tap, fresh, fresh_at, interval_sum, latest, lemma_after_tap_bounded,
    lemma_after_tap_valid, lemma_interval_sum_telescopes, may_follow, mean_interval, tempo_of,
    valid_history, IDLE_TIMEOUT_MICROS, MAX_SAMPLES, MINUTE_MICROS,
};
use crate::timestamp::Timestamp;

verus! {

/// Estimates a tempo from taps: it keeps the timestamps of the recent taps,
/// oldest first, and derives the beats per minute from the intervals between
/// them.
pub struct TempoEstimator {
    history: Vec<Timestamp>,
}

/// The microsecond readings of `taps`, in their order.
pub open spec fn readings(taps: Seq<Timestamp>) -> Seq<nat> {
    taps.map_values(|t: Timestamp| t@)
}

impl View for TempoEstimator {
    type V = Seq<nat>;

    /// The recorded taps as microsecond readings, oldest first.
    closed spec fn view(&self) -> Seq<nat> {
        readings(self.history@)
    }
}

impl Default for TempoEstimator {
    /// The estimator that has seen no tap yet, as `new` gives it.
    fn default() -> (estimator: TempoEstimator)
        ensures
            estimator@ == Seq::<nat>::empty(),
    {
        TempoEstimator::new()
    }
}

/// The taps of `taps` that are still fresh at `now`, in their order.
fn retain_fresh(taps: &Vec<Timestamp>, now: Timestamp) -> (kept: Vec<Timestamp>)
    requires
        forall|i: int| 0 <= i < taps.len() ==> taps[i]@ <= now@,
    ensures
        readings(kept@) == fresh(readings(taps@), now@),
{
    let ghost all = readings(taps@);
    let mut kept: Vec<Timestamp> = Vec::new();
    let mut i: usize = 0;
    proof {
        reveal(Seq::filter);
        assert(all.take(0).len() == 0);
        assert(readings(kept@) =~= fresh(all.take(0), now@));
    }
    while i < taps.len()
        invariant
            i <= taps.len(),
            all == readings(taps@),
            forall|j: int| 0 <= j < taps.len() ==> taps[j]@ <= now@,
            readings(kept@) == fresh(all.take(i as int), now@),
        decreases taps.len() - i,
    {
        let tap = taps[i];
        let ghost before = readings(kept@);
        proof {
            assert(all.take(i + 1) =~= all.take(i as int).push(all[i as int]));
            all.take(i as int).lemma_filter_push(all[i as int], fresh_at(now@));
        }
        if now.as_micros() - tap.as_micros() < IDLE_TIMEOUT_MICROS {
            kept.push(tap);
            assert(readings(kept@) =~= before.push(tap@));
        }
        i = i + 1;
    }
    assert(all.take(taps.len() as int) =~= all);
    kept
}

/// Drops the oldest taps of `taps` until no more than `MAX_SAMPLES` are left.
fn keep_latest(taps: &mut Vec<Timestamp>)
    ensures
        readings(final(taps)@) == latest(readings(old(taps)@), MAX_SAMPLES as nat),
{
    let ghost before = taps@;
    while taps.len() > MAX_SAMPLES
        invariant
            taps.len() <= before.len(),
            taps.len() >= MAX_SAMPLES || taps.len() == before.len(),
            taps@ == before.subrange(before.len() - taps.len(), before.len() as int),
        decreases taps.len(),
    {
        taps.remove(0);
        assert(taps@ =~= before.subrange(before.len() - taps.len(), before.len() as int));
    }
    assert(readings(taps@) =~= latest(readings(before), MAX_SAMPLES as nat));
}

impl TempoEstimator {
    #[verifier::type_invariant]
    spec fn well_formed(&self) -> bool {
        valid_history(readings(self.history@))
    }

    /// An estimator that has seen no tap yet.
    pub fn new() -> (estimator: TempoEstimator)
        ensures
            estimator@ == Seq::<nat>::empty(),
    {
        TempoEstimator { history: Vec::new() }
    }

    /// How many taps the history holds.
    pub fn len(&self) -> (count: usize)
        ensures
            count == self@.len(),
            count <= MAX_SAMPLES,
    {
        proof {
            use_type_invariant(self);
        }
        self.history.len()
    }

    /// The recorded taps, oldest first.
    pub fn taps(&self) -> (taps: &[Timestamp])
        ensures
            readings(taps@) == self@,
    {
        self.history.as_slice()
    }

    /// Whether a tap at `now` can be recorded: no tap is recorded yet, or `now`
    /// is no earlier than the latest one.
    pub fn accepts(&self, now: Timestamp) -> (ok: bool)
        ensures
            ok == may_follow(self@, now@),
    {
        let count = self.history.len();
        count == 0 || self.history[count - 1].as_micros() <= now.as_micros()
    }

    /// Records a tap at `now`. The taps that are stale by then, `IDLE_TIMEOUT_MICROS`
    /// old or older, are forgotten first; then the tap joins the history as
    /// its latest; then the oldest taps leave until `MAX_SAMPLES` are left.
    ///
    /// The clock must not have gone back: `now` is no earlier than the latest
    /// tap recorded so far.
    pub fn record_tap(&mut self, now: Timestamp)
        requires
            may_follow(old(self)@, now@),
        ensures
            final(self)@ == after_tap(old(self)@, now@),
            1 <= final(self)@.len() <= MAX_SAMPLES,
            final(self)@.last() == now@,
            valid_history(final(self)@),
    {
        proof {
            use_type_invariant(&*self);
            lemma_after_tap_bounded(self@, now@);
            lemma_after_tap_valid(self@, now@);
            let taps = self@;
            assert forall|i: int| 0 <= i < self.history.len() implies self.history[i]@
                <= now@ by {
                assert(taps[i] <= taps.last());
            }
        }
        let mut kept = retain_fresh(&self.history, now);
        let ghost retained = readings(kept@);
        kept.push(now);
        assert(readings(kept@) =~= retained.push(now@));
        keep_latest(&mut kept);
        self.history = kept;
    }

    /// The tempo that the recorded taps imply, in beats per minute rounded
    /// down; `None` while it is unknown: with fewer than two taps, and where
    /// the mean interval between the taps rounds to zero microseconds.
    ///
    /// The estimate depends on the recorded taps alone, and reading it leaves
    /// them as they are: until the next tap is recorded every read gives the
    /// same answer.
    pub fn current_bpm(&self) -> (bpm: Option<u128>)
        ensures
            match bpm {
                Some(beats) => tempo_of(self@) == Some(beats as nat),
                None => tempo_of(self@) is None,
            },
            self@.len() < 2 ==> bpm is None,
            valid_history(self@),
    {
        proof {
            use_type_invariant(self);
        }
        let count = self.history.len();
        if count < 2 {
            return None;
        }
        let ghost taps = self@;
        let mut sum: u128 = 0;
        let mut i: usize = 1;
        while i < count
            invariant
                1 <= i <= count,
                count == self.history.len(),
                taps == readings(self.history@),
                valid_history(taps),
                sum == interval_sum(taps.take(i as int)),
            decreases count - i,
        {
            proof {
                let upto = taps.take(i + 1);
                assert(upto.drop_last() =~= taps.take(i as int));
                lemma_interval_sum_telescopes(upto);
            }
            let earlier = self.history[i - 1].as_micros();
            let later = self.history[i].as_micros();
            sum = sum + (later - earlier);
            i = i + 1;
        }
        assert(taps.take(count as int) =~= taps);
        let mean = sum / ((count - 1) as u128);
        assert(mean == mean_interval(taps));
        if mean == 0 {
            None
        } else {
            Some(MINUTE_MICROS / mean)
        }
    }
}

} // verus!
