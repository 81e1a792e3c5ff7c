//! The mathematical model of a tap history: a sequence of microsecond
//! readings, oldest first, and what recording a tap and reading the tempo
//! mean on it.

use vstd::prelude::*;

verus! {

/// The most taps that a history holds.
pub const MAX_SAMPLES: usize = 16;

/// The age, in microseconds, at which a tap has gone stale: 15 seconds.
pub const IDLE_TIMEOUT_MICROS: u128 = 15_000_000;

/// One minute in microseconds.
pub const MINUTE_MICROS: u128 = 60_000_000;

/// Whether a tap at `tap` is still fresh at time `now`: younger than the idle
/// timeout.
pub open spec fn is_fresh(tap: nat, now: nat) -> bool {
    now - tap < IDLE_TIMEOUT_MICROS
}

/// The test that `fresh` applies to each tap: is it fresh at `now`?
pub open spec fn fresh_at(now: nat) -> spec_fn(nat) -> bool {
    |tap: nat| is_fresh(tap, now)
}

/// The taps of `history` that are still fresh at `now`, in their order.
pub open spec fn fresh(history: Seq<nat>, now: nat) -> Seq<nat> {
    history.filter(fresh_at(now))
}

/// The last `limit` entries of `history`, or all of it where it has no more.
pub open spec fn latest(history: Seq<nat>, limit: nat) -> Seq<nat> {
    if history.len() > limit {
        history.subrange(history.len() - limit, history.len() as int)
    } else {
        history
    }
}

/// The history that follows `history` once a tap at `now` is recorded: stale
/// taps leave, the new tap joins at the end, and only the latest
/// `MAX_SAMPLES` stay.
pub open spec fn after_tap(history: Seq<nat>, now: nat) -> Seq<nat> {
    latest(fresh(history, now).push(now), MAX_SAMPLES as nat)
}

/// Whether `now` may be recorded after `history`: the clock has not gone back.
pub open spec fn may_follow(history: Seq<nat>, now: nat) -> bool {
    history.len() > 0 ==> history.last() <= now
}

/// Whether the taps of `history` stand in non-decreasing order.
pub open spec fn ordered(history: Seq<nat>) -> bool {
    forall|i: int, j: int| 0 <= i <= j < history.len() ==> history[i] <= history[j]
}

/// What holds of every history that an estimator keeps: at most `MAX_SAMPLES`
/// taps, in non-decreasing order, each of them fresh at the time of the last.
pub open spec fn valid_history(history: Seq<nat>) -> bool {
    &&& history.len() <= MAX_SAMPLES
    &&& ordered(history)
    &&& forall|i: int| 0 <= i < history.len() ==> is_fresh(#[trigger] history[i], history.last())
}

/// The sum of the intervals between adjacent taps of `history`.
pub open spec fn interval_sum(history: Seq<nat>) -> int
    decreases history.len(),
{
    if history.len() < 2 {
        0
    } else {
        interval_sum(history.drop_last()) + (history.last() - history[history.len() - 2])
    }
}

/// The mean interval between adjacent taps, rounded down to a microsecond.
pub open spec fn mean_interval(history: Seq<nat>) -> int
    recommends
        history.len() >= 2,
{
    interval_sum(history) / (history.len() - 1)
}

/// The tempo that `history` implies, in beats per minute rounded down: one
/// minute over the mean interval. Unknown with fewer than two taps, and where
/// the mean interval rounds to zero (or, for taps out of order, lies below it).
pub open spec fn tempo_of(history: Seq<nat>) -> Option<nat> {
    if history.len() < 2 || mean_interval(history) <= 0 {
        None
    } else {
        Some((MINUTE_MICROS as int / mean_interval(history)) as nat)
    }
}

/// The intervals between adjacent taps add up to the distance between the
/// first tap and the last, whatever the order of the taps.
pub proof fn lemma_interval_sum_telescopes(history: Seq<nat>)
    requires
        history.len() >= 1,
    ensures
        interval_sum(history) == history.last() - history.first(),
    decreases history.len(),
{
    if history.len() >= 2 {
        lemma_interval_sum_telescopes(history.drop_last());
    }
}

/// In an ordered history the fresh taps are the ones from some position on:
/// `fresh` cuts off a front part and keeps the rest. The position is returned.
pub proof fn lemma_fresh_is_suffix(history: Seq<nat>, now: nat) -> (cut: int)
    requires
        ordered(history),
    ensures
        0 <= cut <= history.len(),
        fresh(history, now) == history.subrange(cut, history.len() as int),
        forall|i: int| 0 <= i < cut ==> !is_fresh(#[trigger] history[i], now),
        forall|i: int| cut <= i < history.len() ==> is_fresh(#[trigger] history[i], now),
    decreases history.len(),
{
    reveal(Seq::filter);
    if history.len() == 0 {
        assert(fresh(history, now) =~= history.subrange(0, 0));
        0
    } else {
        let front = history.drop_last();
        let cut = lemma_fresh_is_suffix(front, now);
        if is_fresh(history.last(), now) {
            assert(fresh(history, now) =~= history.subrange(cut, history.len() as int));
            assert forall|i: int| 0 <= i < history.len() implies (i < cut <==> !is_fresh(
                #[trigger] history[i],
                now,
            )) by {
                if i < front.len() {
                    assert(front[i] == history[i]);
                }
            }
            cut
        } else {
            assert forall|i: int| 0 <= i < history.len() implies !is_fresh(
                #[trigger] history[i],
                now,
            ) by {
                assert(history[i] <= history.last());
            }
            assert(cut == front.len()) by {
                if cut < front.len() {
                    assert(is_fresh(front[cut], now));
                    assert(front[cut] == history[cut]);
                }
            }
            assert(fresh(history, now) =~= history.subrange(
                history.len() as int,
                history.len() as int,
            ));
            history.len() as int
        }
    }
}

/// Whatever came before, the history after a tap ends in that tap and holds
/// between one and `MAX_SAMPLES` taps.
pub proof fn lemma_after_tap_bounded(history: Seq<nat>, now: nat)
    ensures
        1 <= after_tap(history, now).len() <= MAX_SAMPLES,
        after_tap(history, now).last() == now,
{
}

/// Recording a tap that may follow a valid history gives a valid history.
pub proof fn lemma_after_tap_valid(history: Seq<nat>, now: nat)
    requires
        valid_history(history),
        may_follow(history, now),
    ensures
        valid_history(after_tap(history, now)),
{
    let cut = lemma_fresh_is_suffix(history, now);
    let grown = fresh(history, now).push(now);
    assert forall|i: int, j: int| 0 <= i <= j < grown.len() implies grown[i] <= grown[j] by {
        if j < grown.len() - 1 {
            assert(grown[i] == history[cut + i]);
            assert(grown[j] == history[cut + j]);
        } else if i < grown.len() - 1 {
            assert(grown[i] == history[cut + i]);
            assert(history[cut + i] <= history.last());
        }
    }
    assert forall|i: int| 0 <= i < grown.len() implies is_fresh(#[trigger] grown[i], now) by {
        if i < grown.len() - 1 {
            assert(grown[i] == history[cut + i]);
        }
    }
    lemma_after_tap_bounded(history, now);
}

} // verus!
