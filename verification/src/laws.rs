//! What holds of an estimator over whole runs of taps: the bound on its
//! history, the restart after an idle gap, and the exact tempo of steady
//! tapping.

use vstd::prelude::*;
use crate::model::{
    after_tap, fresh, interval_sum, is_fresh, lemma_after_tap_bounded, lemma_after_tap_valid,
    lemma_fresh_is_suffix, mean_interval, ordered, tempo_of, valid_history,
    IDLE_TIMEOUT_MICROS, MAX_SAMPLES, MINUTE_MICROS,
};

verus! {

/// The history of an estimator that started empty and recorded `taps` one
/// after the other.
pub open spec fn replay(taps: Seq<nat>) -> Seq<nat>
    decreases taps.len(),
{
    if taps.len() == 0 {
        Seq::empty()
    } else {
        after_tap(replay(taps.drop_last()), taps.last())
    }
}

/// However many taps are recorded, and whatever their times, the history
/// never holds more than `MAX_SAMPLES` of them; once a tap is recorded it
/// ends in the latest.
pub proof fn lemma_replay_bounded(taps: Seq<nat>)
    ensures
        replay(taps).len() <= MAX_SAMPLES,
        taps.len() > 0 ==> replay(taps).len() >= 1 && replay(taps).last() == taps.last(),
{
    if taps.len() > 0 {
        lemma_after_tap_bounded(replay(taps.drop_last()), taps.last());
    }
}

/// Taps that come in time order always leave a valid history: bounded,
/// ordered, and with no tap in it that was stale when the last one came.
pub proof fn lemma_replay_valid(taps: Seq<nat>)
    requires
        ordered(taps),
    ensures
        valid_history(replay(taps)),
    decreases taps.len(),
{
    if taps.len() > 0 {
        let earlier = taps.drop_last();
        lemma_replay_valid(earlier);
        lemma_replay_bounded(earlier);
        if earlier.len() > 0 {
            assert(earlier.last() == taps[taps.len() - 2]);
        }
        lemma_after_tap_valid(replay(earlier), taps.last());
    }
}

/// A tap that comes `IDLE_TIMEOUT_MICROS` or more after the latest one starts
/// the history afresh: every earlier tap is forgotten, the new tap is the only
/// one left, and the tempo is unknown again.
pub proof fn lemma_idle_gap_restarts(history: Seq<nat>, now: nat)
    requires
        ordered(history),
        history.len() > 0,
        now - history.last() >= IDLE_TIMEOUT_MICROS,
    ensures
        after_tap(history, now) == seq![now],
        tempo_of(after_tap(history, now)) is None,
{
    let cut = lemma_fresh_is_suffix(history, now);
    assert(cut == history.len()) by {
        if cut < history.len() {
            assert(is_fresh(history[cut], now));
            assert(history[cut] <= history.last());
        }
    }
    assert(fresh(history, now).len() == 0);
    assert(after_tap(history, now) =~= seq![now]);
}

/// The times of `count` taps that start at `first` and come `step`
/// microseconds apart.
pub open spec fn steady_taps(first: nat, step: nat, count: nat) -> Seq<nat> {
    Seq::new(count, |i: int| (first + i * step) as nat)
}

/// Whether each tap of `history` comes exactly `step` microseconds after the
/// one before it.
pub open spec fn evenly_spaced(history: Seq<nat>, step: nat) -> bool {
    forall|i: int| 0 <= i < history.len() - 1 ==> history[i + 1] == #[trigger] history[i] + step
}

/// Taps that are `step` apart imply a tempo of one minute over `step`.
pub proof fn lemma_evenly_spaced_tempo(history: Seq<nat>, step: nat)
    requires
        evenly_spaced(history, step),
        history.len() >= 2,
        step > 0,
    ensures
        tempo_of(history) == Some((MINUTE_MICROS as int / step as int) as nat),
{
    lemma_evenly_spaced_sum(history, step);
    let gaps = history.len() - 1;
    assert((gaps * step) / gaps == step) by (nonlinear_arith)
        requires
            gaps > 0,
    ;
    assert(mean_interval(history) == step);
}

proof fn lemma_evenly_spaced_sum(history: Seq<nat>, step: nat)
    requires
        evenly_spaced(history, step),
        history.len() >= 1,
    ensures
        interval_sum(history) == (history.len() - 1) * step,
    decreases history.len(),
{
    if history.len() >= 2 {
        let front = history.drop_last();
        assert forall|i: int| 0 <= i < front.len() - 1 implies front[i + 1] == #[trigger] front[i]
            + step by {
            assert(history[i + 1] == history[i] + step);
        }
        lemma_evenly_spaced_sum(front, step);
        let last = history.len() - 1;
        assert(history[last - 1 + 1] == history[last - 1] + step);
        assert(interval_sum(front) == (last - 1) * step);
        assert((last - 1) * step + step == last * step) by (nonlinear_arith);
    } else {
        assert((history.len() - 1) * step == 0) by (nonlinear_arith)
            requires
                history.len() == 1,
        ;
    }
}

/// After one more steady tap an evenly spaced history is evenly spaced still,
/// and holds at least two taps.
proof fn lemma_steady_step(history: Seq<nat>, step: nat)
    requires
        valid_history(history),
        evenly_spaced(history, step),
        history.len() >= 1,
        0 < step < IDLE_TIMEOUT_MICROS,
    ensures
        evenly_spaced(after_tap(history, history.last() + step), step),
        after_tap(history, history.last() + step).len() >= 2,
{
    let now = history.last() + step;
    let cut = lemma_fresh_is_suffix(history, now);
    assert(cut < history.len()) by {
        assert(is_fresh(history.last(), now));
        assert(history.last() == history[history.len() - 1]);
    }
    let grown = fresh(history, now).push(now);
    assert forall|i: int| 0 <= i < grown.len() - 1 implies grown[i + 1] == #[trigger] grown[i]
        + step by {
        assert(grown[i] == history[cut + i]);
        if i + 1 < grown.len() - 1 {
            assert(grown[i + 1] == history[cut + i + 1]);
        }
    }
    let next = after_tap(history, now);
    let skip = grown.len() - next.len();
    assert forall|i: int| 0 <= i < next.len() - 1 implies next[i + 1] == #[trigger] next[i]
        + step by {
        assert(next[i] == grown[skip + i]);
        assert(next[i + 1] == grown[skip + i + 1]);
    }
}

proof fn lemma_steady_replay(first: nat, step: nat, count: nat)
    requires
        0 < step < IDLE_TIMEOUT_MICROS,
        count >= 1,
    ensures
        valid_history(replay(steady_taps(first, step, count))),
        evenly_spaced(replay(steady_taps(first, step, count)), step),
        replay(steady_taps(first, step, count)).len() >= 1,
        replay(steady_taps(first, step, count)).last() == first + (count - 1) * step,
        count >= 2 ==> replay(steady_taps(first, step, count)).len() >= 2,
    decreases count,
{
    let taps = steady_taps(first, step, count);
    let earlier = steady_taps(first, step, (count - 1) as nat);
    assert(taps.drop_last() =~= earlier);
    assert(taps.last() == first + (count - 1) * step);
    assert((count - 1) * step >= 0) by (nonlinear_arith)
        requires
            count >= 1,
            step > 0,
    ;
    lemma_after_tap_bounded(replay(earlier), taps.last());
    if count == 1 {
        assert(earlier.len() == 0);
        assert(replay(earlier).len() == 0);
        lemma_after_tap_valid(replay(earlier), taps.last());
        assert(replay(taps).len() == 1) by {
            reveal(Seq::filter);
        }
    } else {
        lemma_steady_replay(first, step, (count - 1) as nat);
        let before = replay(earlier);
        assert(first + (count - 2) * step + step == first + (count - 1) * step)
            by (nonlinear_arith);
        assert(taps.last() == before.last() + step);
        lemma_after_tap_valid(before, taps.last());
        lemma_steady_step(before, step);
    }
}

/// Steady tapping gives the exact tempo. An estimator that started empty and
/// recorded two or more taps, each `step` microseconds after the one before,
/// reports one minute over `step`, rounded down. The step is shorter than the
/// idle timeout: with a longer one every tap finds the one before it stale and
/// the tempo stays unknown.
pub proof fn lemma_steady_taps_tempo(first: nat, step: nat, count: nat)
    requires
        0 < step < IDLE_TIMEOUT_MICROS,
        count >= 2,
    ensures
        tempo_of(replay(steady_taps(first, step, count))) == Some(
            (MINUTE_MICROS as int / step as int) as nat,
        ),
{
    lemma_steady_replay(first, step, count);
    lemma_evenly_spaced_tempo(replay(steady_taps(first, step, count)), step);
}

} // verus!
