use tap_tempo::model::{IDLE_TIMEOUT_MICROS, MAX_SAMPLES, MINUTE_MICROS};
use tap_tempo::{TempoEstimator, Timestamp};

const SECOND: u128 = 1_000_000;
const MILLI: u128 = 1_000;

fn estimator_after(taps: &[u128]) -> TempoEstimator {
    let mut estimator = TempoEstimator::new();
    for micros in taps {
        let now = Timestamp::from_micros(*micros);
        assert!(estimator.accepts(now));
        estimator.record_tap(now);
    }
    estimator
}

fn history_of(estimator: &TempoEstimator) -> Vec<u128> {
    estimator.taps().iter().map(|tap| tap.as_micros()).collect()
}

#[test]
fn constants_have_their_documented_values() {
    assert_eq!(MAX_SAMPLES, 16);
    assert_eq!(IDLE_TIMEOUT_MICROS, 15 * SECOND);
    assert_eq!(MINUTE_MICROS, 60 * SECOND);
}

#[test]
fn timestamp_keeps_its_microseconds() {
    let stamp = Timestamp::from_micros(1_234_567);
    assert_eq!(stamp.as_micros(), 1_234_567);
    assert_eq!(stamp, Timestamp::from_micros(1_234_567));
    assert_ne!(stamp, Timestamp::from_micros(1_234_568));
    assert_eq!(Timestamp::from_micros(u128::MAX).as_micros(), u128::MAX);
}

#[test]
fn new_estimator_is_empty_and_has_no_tempo() {
    let estimator = TempoEstimator::new();
    assert_eq!(estimator.len(), 0);
    assert!(estimator.taps().is_empty());
    assert_eq!(estimator.current_bpm(), None);
}

#[test]
fn default_estimator_is_the_new_one() {
    let mut estimator = TempoEstimator::default();
    assert_eq!(estimator.len(), 0);
    assert_eq!(estimator.current_bpm(), None);
    estimator.record_tap(Timestamp::from_micros(7));
    estimator.record_tap(Timestamp::from_micros(7 + SECOND));
    assert_eq!(estimator.current_bpm(), Some(60));
}

#[test]
fn single_tap_has_no_tempo() {
    let estimator = estimator_after(&[0]);
    assert_eq!(history_of(&estimator), vec![0]);
    assert_eq!(estimator.current_bpm(), None);
}

#[test]
fn three_taps_half_a_second_apart_give_120() {
    let estimator = estimator_after(&[0, 500 * MILLI, SECOND]);
    assert_eq!(estimator.len(), 3);
    assert_eq!(history_of(&estimator), vec![0, 500 * MILLI, SECOND]);
    assert_eq!(estimator.current_bpm(), Some(120));
}

#[test]
fn tap_after_a_long_pause_starts_afresh() {
    let estimator = estimator_after(&[0, 20 * SECOND]);
    assert_eq!(history_of(&estimator), vec![20 * SECOND]);
    assert_eq!(estimator.current_bpm(), None);
}

#[test]
fn tap_at_exactly_the_idle_timeout_is_stale() {
    let estimator = estimator_after(&[4 * SECOND, 19 * SECOND]);
    assert_eq!(history_of(&estimator), vec![19 * SECOND]);
    assert_eq!(estimator.current_bpm(), None);
    let estimator = estimator_after(&[3 * SECOND, 4 * SECOND, 4 * SECOND + 1, 19 * SECOND]);
    assert_eq!(history_of(&estimator), vec![4 * SECOND + 1, 19 * SECOND]);
}

#[test]
fn tap_just_inside_the_idle_timeout_is_kept() {
    let estimator = estimator_after(&[0, 15 * SECOND - 1]);
    assert_eq!(history_of(&estimator), vec![0, 15 * SECOND - 1]);
    assert_eq!(estimator.current_bpm(), Some(4));
}

#[test]
fn only_the_stale_taps_are_forgotten() {
    let estimator = estimator_after(&[0, 10 * SECOND, 20 * SECOND]);
    assert_eq!(history_of(&estimator), vec![10 * SECOND, 20 * SECOND]);
    assert_eq!(estimator.current_bpm(), Some(6));
}

#[test]
fn twenty_taps_a_second_apart_give_60() {
    let taps: Vec<u128> = (0..20u128).map(|i| i * SECOND).collect();
    let estimator = estimator_after(&taps);
    let history = history_of(&estimator);
    assert!(history.len() <= MAX_SAMPLES);
    let expected: Vec<u128> = (5..20u128).map(|i| i * SECOND).collect();
    assert_eq!(history, expected);
    for old in &taps[..4] {
        assert!(!history.contains(old));
    }
    assert_eq!(estimator.current_bpm(), Some(60));
}

#[test]
fn twenty_quick_taps_leave_the_latest_sixteen() {
    let taps: Vec<u128> = (0..20u128).map(|i| i * 500 * MILLI).collect();
    let estimator = estimator_after(&taps);
    assert_eq!(estimator.len(), 16);
    assert_eq!(history_of(&estimator), taps[4..].to_vec());
    assert_eq!(estimator.current_bpm(), Some(120));
}

#[test]
fn taps_that_left_the_window_do_not_count() {
    let mut taps: Vec<u128> = vec![0, 100 * MILLI, 150 * MILLI, 400 * MILLI];
    for i in 0..16u128 {
        taps.push(SECOND + i * 500 * MILLI);
    }
    let estimator = estimator_after(&taps);
    assert_eq!(history_of(&estimator), taps[4..].to_vec());
    assert_eq!(estimator.current_bpm(), Some(120));
    let with_one_old_tap = estimator_after(&taps[3..19]);
    assert_eq!(with_one_old_tap.len(), 16);
    assert_eq!(with_one_old_tap.current_bpm(), Some(118));
}

#[test]
fn history_never_grows_past_the_limit() {
    let mut estimator = TempoEstimator::new();
    for i in 0..100u128 {
        estimator.record_tap(Timestamp::from_micros(i * 10 * MILLI));
        let expected: usize = if i < 16 { i as usize + 1 } else { 16 };
        assert_eq!(estimator.len(), expected);
        assert_eq!(estimator.taps().len(), expected);
        assert_eq!(estimator.taps()[expected - 1].as_micros(), i * 10 * MILLI);
    }
    assert_eq!(estimator.current_bpm(), Some(6000));
}

#[test]
fn steady_taps_give_a_minute_over_the_step() {
    let steps: [u128; 6] = [1, 7, 400 * MILLI, 450 * MILLI, SECOND, 15 * SECOND - 1];
    for step in steps {
        for count in 2..40u128 {
            let taps: Vec<u128> = (0..count).map(|i| 123 + i * step).collect();
            let estimator = estimator_after(&taps);
            assert_eq!(estimator.current_bpm(), Some(MINUTE_MICROS / step));
        }
    }
    assert_eq!(
        estimator_after(&[0, 400 * MILLI, 800 * MILLI]).current_bpm(),
        Some(150)
    );
}

#[test]
fn steps_as_long_as_the_idle_timeout_leave_the_tempo_unknown() {
    let taps: Vec<u128> = (0..5u128).map(|i| i * 15 * SECOND).collect();
    let estimator = estimator_after(&taps);
    assert_eq!(history_of(&estimator), vec![60 * SECOND]);
    assert_eq!(estimator.current_bpm(), None);
}

#[test]
fn mean_is_taken_over_the_intervals() {
    let estimator = estimator_after(&[0, SECOND, 2 * SECOND]);
    assert_eq!(estimator.current_bpm(), Some(60));
}

#[test]
fn tempo_rounds_down() {
    let estimator = estimator_after(&[0, 400 * MILLI, 900 * MILLI]);
    assert_eq!(estimator.current_bpm(), Some(133));
    let estimator = estimator_after(&[0, 1, 3, 4]);
    assert_eq!(estimator.current_bpm(), Some(60_000_000));
    let estimator = estimator_after(&[10, 12, 15]);
    assert_eq!(estimator.current_bpm(), Some(30_000_000));
}

#[test]
fn taps_at_the_same_instant_have_no_tempo() {
    let estimator = estimator_after(&[5 * SECOND, 5 * SECOND]);
    assert_eq!(estimator.len(), 2);
    assert_eq!(estimator.current_bpm(), None);
}

#[test]
fn mean_interval_that_rounds_to_zero_has_no_tempo() {
    let estimator = estimator_after(&[0, 0, 1]);
    assert_eq!(estimator.len(), 3);
    assert_eq!(estimator.current_bpm(), None);
    let estimator = estimator_after(&[0, 1, 2]);
    assert_eq!(estimator.current_bpm(), Some(60_000_000));
}

#[test]
fn reading_twice_gives_the_same_tempo() {
    let estimator = estimator_after(&[0, 700 * MILLI, 1_300 * MILLI]);
    let first = estimator.current_bpm();
    let before = history_of(&estimator);
    for _ in 0..10 {
        assert_eq!(estimator.current_bpm(), first);
    }
    assert_eq!(first, Some(92));
    assert_eq!(history_of(&estimator), before);
    let empty = TempoEstimator::new();
    assert_eq!(empty.current_bpm(), empty.current_bpm());
}

#[test]
fn tempo_follows_a_change_of_pace() {
    let mut estimator = estimator_after(&[0, SECOND, 2 * SECOND]);
    assert_eq!(estimator.current_bpm(), Some(60));
    estimator.record_tap(Timestamp::from_micros(2 * SECOND + 500 * MILLI));
    assert_eq!(estimator.current_bpm(), Some(72));
    estimator.record_tap(Timestamp::from_micros(40 * SECOND));
    assert_eq!(estimator.current_bpm(), None);
    estimator.record_tap(Timestamp::from_micros(40 * SECOND + 250 * MILLI));
    assert_eq!(estimator.current_bpm(), Some(240));
}

#[test]
fn accepts_only_times_that_do_not_go_back() {
    let empty = TempoEstimator::new();
    assert!(empty.accepts(Timestamp::from_micros(0)));
    assert!(empty.accepts(Timestamp::from_micros(u128::MAX)));
    let estimator = estimator_after(&[SECOND, 2 * SECOND]);
    assert!(!estimator.accepts(Timestamp::from_micros(0)));
    assert!(!estimator.accepts(Timestamp::from_micros(2 * SECOND - 1)));
    assert!(estimator.accepts(Timestamp::from_micros(2 * SECOND)));
    assert!(estimator.accepts(Timestamp::from_micros(3 * SECOND)));
}

#[test]
fn far_apart_and_very_late_taps_do_not_overflow() {
    let late: u128 = u128::MAX - 10 * SECOND;
    let estimator = estimator_after(&[0, late, late + 5 * SECOND, u128::MAX]);
    assert_eq!(history_of(&estimator), vec![late, late + 5 * SECOND, u128::MAX]);
    assert_eq!(estimator.current_bpm(), Some(12));
}
