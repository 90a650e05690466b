use lumen_dev::device::clock::ShowClock;

#[test]
fn an_undisciplined_clock_tracks_the_hardware() {
    let mut c = ShowClock::new(1_000);
    assert_eq!(c.advance_to(1_000), 0);
    assert_eq!(c.advance_to(2_000), 1_000);
    assert_eq!(c.advance_to(1_002_000), 1_001_000);
}

#[test]
fn a_correction_is_absorbed_gradually_and_completely() {
    // The whole point: it arrives, and it never arrives all at once.
    let mut c = ShowClock::new(0);
    c.advance_to(1_000_000);
    c.discipline(1_000);

    // One second may absorb 200 us at 200 ppm, so this takes five.
    let mut raw = 1_000_000;
    for _ in 0..4 {
        raw += 1_000_000;
        c.advance_to(raw);
        assert!(c.pending_us() > 0, "absorbed too fast");
    }
    raw += 1_000_000;
    c.advance_to(raw);
    assert_eq!(c.pending_us(), 0, "did not converge");
}

#[test]
fn the_clock_never_goes_backwards_even_correcting_backwards() {
    let mut c = ShowClock::new(0);
    c.advance_to(10_000_000);
    c.discipline(-5_000);

    // 5 ms of correction at 200 ppm needs 25 s of wall time to absorb, so this
    // runs for thirty.
    let mut last = c.now_us();
    let mut raw = 10_000_000;
    for _ in 0..300 {
        raw += 100_000;
        let now = c.advance_to(raw);
        assert!(now >= last, "went backwards: {last} then {now}");
        last = now;
    }
    assert_eq!(c.pending_us(), 0, "did not converge in 30 s");
}

#[test]
fn corrections_accumulate_rather_than_replace() {
    let mut c = ShowClock::new(0);
    c.advance_to(1_000);
    c.discipline(300);
    c.discipline(400);
    assert_eq!(c.pending_us(), 700);
}

#[test]
fn joining_a_running_show_steps_once() {
    let mut c = ShowClock::new(0);
    c.advance_to(1_000_000);
    c.set(3_600_000_000);
    assert_eq!(c.now_us(), 3_600_000_000);
    assert_eq!(c.pending_us(), 0);
    assert_eq!(c.advance_to(2_000_000), 3_601_000_000);
}

#[test]
fn hardware_going_backwards_does_not_move_the_show_clock_backwards() {
    let mut c = ShowClock::new(5_000_000);
    c.advance_to(6_000_000);
    let before = c.now_us();
    assert_eq!(c.advance_to(1_000_000), before);
}

#[test]
fn a_clock_advanced_often_corrects_as_fast_as_one_advanced_rarely() {
    // Ten microseconds at a time, so that no single interval is worth a whole
    // microsecond of correction.
    let mut often = ShowClock::new(0);
    let mut rarely = ShowClock::new(0);
    often.discipline(150);
    rarely.discipline(150);
    let mut raw = 0;
    for _ in 0..50_000 {
        raw += 10;
        often.advance_to(raw);
    }
    rarely.advance_to(raw);
    assert_eq!(often.pending_us(), 50);
    assert_eq!(often.now_us(), rarely.now_us());
    assert_eq!(often.pending_us(), rarely.pending_us());
}

#[test]
fn a_correction_moves_the_clock_by_exactly_itself() {
    let mut c = ShowClock::new(0);
    c.discipline(200);
    assert_eq!(c.advance_to(1_000_000), 1_000_200);
    c.discipline(-50);
    assert_eq!(c.advance_to(2_000_000), 2_000_150);
    assert_eq!(c.pending_us(), 0);
}

#[test]
fn drift_is_slewed_and_a_join_is_applied_at_once() {
    let mut c = ShowClock::new(0);
    c.advance_to(1_000);
    c.correct(100_000);
    assert_eq!(c.now_us(), 1_000);
    assert_eq!(c.pending_us(), 100_000);
    c.correct(1);
    assert_eq!(c.now_us(), 101_001);
    assert_eq!(c.pending_us(), 0);
}

#[test]
fn a_join_is_applied_at_once_backwards_too() {
    let mut c = ShowClock::new(0);
    c.advance_to(5_000_000);
    c.correct(-4_000_000);
    assert_eq!(c.now_us(), 1_000_000);
    assert_eq!(c.pending_us(), 0);
    assert_eq!(c.advance_to(5_000_100), 1_000_100);
    // A hundred milliseconds are drift, and drift is slewed.
    c.correct(-100_000);
    assert_eq!(c.now_us(), 1_000_100);
    assert_eq!(c.pending_us(), -100_000);
    // Never before the beginning.
    c.correct(-9_000_000);
    assert_eq!(c.now_us(), 0);
    assert_eq!(c.pending_us(), 0);
    c.correct(i64::MAX);
    c.correct(i64::MAX);
    c.correct(i64::MAX);
    assert_eq!(c.now_us(), u64::MAX);
}

#[test]
fn corrections_saturate() {
    let mut c = ShowClock::new(0);
    c.discipline(i64::MAX);
    c.discipline(1);
    assert_eq!(c.pending_us(), i64::MAX);
    c.discipline(i64::MIN);
    c.discipline(i64::MIN);
    assert_eq!(c.pending_us(), i64::MIN);
    assert_eq!(c.last_raw_us(), 0);
}
