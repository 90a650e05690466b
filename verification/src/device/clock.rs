//! The show clock, and the one rule about it: drift never makes it step.
//!
//! Every effect is a function of this clock, so a step means a frame rendered
//! twice or skipped: a stutter on every device that has just resynchronised. So
//! a correction is slewed. The clock runs slightly fast or slightly slow until it
//! has absorbed the offset, and no frame is anywhere but where the one before it
//! implied.
//!
//! The rate is 200 parts per million: fast enough to absorb an ordinary offset
//! in a few seconds, slow enough that the rate error is far below anything an
//! eye resolves.

use vstd::prelude::*;

verus! {

/// Parts per million the clock may run fast or slow while correcting.
pub const SLEW_PPM: i64 = 200;

/// Beyond this many microseconds, either way, a correction is applied at once: a
/// device joining a running show has not drifted, it did not know the time.
pub const STEP_ABOVE_US: i64 = 100_000;

/// A monotonic microsecond clock that can be disciplined without jumping.
#[derive(Clone, Copy, PartialEq, Eq, Debug)]
pub struct ShowClock {
    /// Hardware microseconds at the last advance.
    last_raw_us: u64,
    /// What this clock reads now.
    now_us: u64,
    /// Correction still to be worked off, signed.
    pending_us: i64,
    /// Slew budget below a whole microsecond, in millionths. Carried rather than
    /// discarded: the clock is advanced thousands of times a second, and the
    /// budget of each short interval alone would round to nothing.
    slew_numer: i64,
}

pub struct ClockView {
    pub last_raw_us: u64,
    pub now_us: u64,
    pub pending_us: i64,
    /// Slew budget carried over, in millionths of a microsecond.
    pub carried: int,
}

/// The value nearest to `x` between `low` and `high`.
pub open spec fn clamped(x: int, low: int, high: int) -> int {
    if x < low {
        low
    } else if x > high {
        high
    } else {
        x
    }
}

/// A reading moved by `by`, never backwards and never past the end.
pub open spec fn moved(now_us: u64, by: int) -> u64 {
    clamped(now_us + by, now_us as int, u64::MAX as int) as u64
}

/// A reading moved by `by`, either way, and never past either end.
pub open spec fn jumped(now_us: u64, by: int) -> u64 {
    clamped(now_us + by, 0, u64::MAX as int) as u64
}

impl ClockView {
    pub open spec fn wf(self) -> bool {
        0 <= self.carried < 1_000_000
    }

    /// How much hardware time passes until `raw_us`. Hardware that goes
    /// backwards stands still.
    pub open spec fn elapsed(self, raw_us: u64) -> int {
        if raw_us >= self.last_raw_us {
            raw_us - self.last_raw_us
        } else {
            0
        }
    }

    /// The budget until `raw_us`, in millionths of a microsecond.
    pub open spec fn budget_millionths(self, raw_us: u64) -> int {
        let all = self.carried + self.elapsed(raw_us) * SLEW_PPM;
        if all > i64::MAX {
            i64::MAX as int
        } else {
            all
        }
    }

    /// The correction that is worked off until `raw_us`.
    pub open spec fn applied(self, raw_us: u64) -> int {
        let budget = self.budget_millionths(raw_us) / 1_000_000;
        clamped(self.pending_us as int, -budget, budget)
    }

    pub open spec fn advanced(self, raw_us: u64) -> ClockView {
        ClockView {
            last_raw_us: raw_us,
            now_us: moved(self.now_us, self.elapsed(raw_us) + self.applied(raw_us)),
            pending_us: (self.pending_us - self.applied(raw_us)) as i64,
            carried: self.budget_millionths(raw_us) % 1_000_000,
        }
    }

    /// The correction outstanding once `offset_us` is taken on too.
    pub open spec fn outstanding(self, offset_us: i64) -> int {
        clamped(self.pending_us + offset_us, i64::MIN as int, i64::MAX as int)
    }

    pub open spec fn disciplined(self, offset_us: i64) -> ClockView {
        ClockView { pending_us: self.outstanding(offset_us) as i64, ..self }
    }

    /// After a correction from the mesh. One too large to be drift is applied at
    /// once.
    pub open spec fn corrected(self, offset_us: i64) -> ClockView {
        let all = self.outstanding(offset_us);
        if -STEP_ABOVE_US <= all <= STEP_ABOVE_US {
            self.disciplined(offset_us)
        } else {
            ClockView {
                now_us: jumped(self.now_us, all),
                pending_us: 0,
                carried: 0,
                ..self
            }
        }
    }

    pub open spec fn stepped(self, show_us: u64) -> ClockView {
        ClockView { now_us: show_us, pending_us: 0, carried: 0, ..self }
    }
}

impl View for ShowClock {
    type V = ClockView;

    closed spec fn view(&self) -> ClockView {
        ClockView {
            last_raw_us: self.last_raw_us,
            now_us: self.now_us,
            pending_us: self.pending_us,
            carried: self.slew_numer as int,
        }
    }
}

/// A reading moved by `by`, never backwards and never past the end.
fn move_by(now_us: u64, by: i128) -> (r: u64)
    requires
        -0x1_0000_0000_0000_0000 <= by <= 0x1_0000_0000_0000_0000,
    ensures
        r == moved(now_us, by as int),
{
    if by <= 0 {
        return now_us;
    }
    let at: i128 = now_us as i128 + by;
    if at > u64::MAX as i128 {
        u64::MAX
    } else {
        at as u64
    }
}

/// A reading moved by `by`, either way, and never past either end.
fn jump_by(now_us: u64, by: i64) -> (r: u64)
    ensures
        r == jumped(now_us, by as int),
{
    let at: i128 = now_us as i128 + by as i128;
    if at < 0 {
        0
    } else if at > u64::MAX as i128 {
        u64::MAX
    } else {
        at as u64
    }
}

impl ShowClock {
    /// Start at `raw_us`, reading zero.
    ///
    /// Show time counts from boot rather than from an epoch: what a mesh agrees
    /// on is an elapsed count.
    pub fn new(raw_us: u64) -> (r: ShowClock)
        ensures
            r@ == (ClockView { last_raw_us: raw_us, now_us: 0, pending_us: 0, carried: 0 }),
            r@.wf(),
    {
        ShowClock { last_raw_us: raw_us, now_us: 0, pending_us: 0, slew_numer: 0 }
    }

    /// Advance to hardware time `raw_us` and return the show time.
    ///
    /// Monotonic even if the hardware clock goes backwards.
    pub fn advance_to(&mut self, raw_us: u64) -> (r: u64)
        requires
            old(self)@.wf(),
            old(self)@.elapsed(raw_us) <= i64::MAX,
        ensures
            final(self)@ == old(self)@.advanced(raw_us),
            final(self)@.wf(),
            r == final(self)@.now_us,
    {
        let elapsed: i64 = raw_us.saturating_sub(self.last_raw_us) as i64;
        self.last_raw_us = raw_us;
        // The correction this interval may absorb, at the slew rate. Integrated
        // over the interval rather than taken from what is left: a clock
        // corrected by half of that every time never arrives.
        assert(0 <= elapsed * SLEW_PPM <= 200 * i64::MAX);
        let all: i128 = self.slew_numer as i128 + elapsed as i128 * SLEW_PPM as i128;
        let millionths: i64 = if all > i64::MAX as i128 {
            i64::MAX
        } else {
            all as i64
        };
        let budget: i64 = millionths / 1_000_000;
        self.slew_numer = millionths - budget * 1_000_000;
        let applied: i64 = if self.pending_us < -budget {
            -budget
        } else if self.pending_us > budget {
            budget
        } else {
            self.pending_us
        };
        self.pending_us = self.pending_us - applied;
        self.now_us = move_by(self.now_us, elapsed as i128 + applied as i128);
        self.now_us
    }

    pub fn now_us(&self) -> (r: u64)
        ensures
            r == self@.now_us,
    {
        self.now_us
    }

    /// Take on a correction, to be worked off gradually.
    ///
    /// Accumulates rather than replaces: a second correction arriving before the
    /// first has been absorbed means both were measured against a clock that was
    /// wrong, and dropping either would leave the error in.
    pub fn discipline(&mut self, offset_us: i64)
        ensures
            final(self)@ == old(self)@.disciplined(offset_us),
            old(self)@.wf() ==> final(self)@.wf(),
    {
        let all: i128 = self.pending_us as i128 + offset_us as i128;
        self.pending_us = if all > i64::MAX as i128 {
            i64::MAX
        } else if all < i64::MIN as i128 {
            i64::MIN
        } else {
            all as i64
        };
    }

    /// Take on a correction from the mesh: drift is worked off gradually, and
    /// anything too large to be drift is applied at once, whichever way it is. A
    /// device that was switched on before the one it follows is ahead of the show
    /// and has to go back, and slewing that would take days.
    pub fn correct(&mut self, offset_us: i64)
        ensures
            final(self)@ == old(self)@.corrected(offset_us),
            old(self)@.wf() ==> final(self)@.wf(),
    {
        self.discipline(offset_us);
        let all: i64 = self.pending_us;
        if all > STEP_ABOVE_US || all < -STEP_ABOVE_US {
            self.now_us = jump_by(self.now_us, all);
            self.pending_us = 0;
            self.slew_numer = 0;
        }
    }

    /// Correction still outstanding. A device that never converges shows one that
    /// does not shrink.
    pub fn pending_us(&self) -> (r: i64)
        ensures
            r == self@.pending_us,
    {
        self.pending_us
    }

    /// Hardware microseconds at the last advance.
    pub fn last_raw_us(&self) -> (r: u64)
        ensures
            r == self@.last_raw_us,
    {
        self.last_raw_us
    }

    /// Jump straight to a show time, for the one case that is not a correction:
    /// a device joining a running show does not know what time it is yet. It
    /// steps once, before it renders anything, and slews from then on.
    pub fn set(&mut self, show_us: u64)
        ensures
            final(self)@ == old(self)@.stepped(show_us),
            final(self)@.wf(),
    {
        self.now_us = show_us;
        self.pending_us = 0;
        self.slew_numer = 0;
    }
}

/// The clock never goes backwards, whatever drift it is correcting and whatever
/// the hardware does.
pub proof fn the_clock_never_goes_backwards(clock: ClockView, raw_us: u64, offset_us: i64)
    requires
        clock.wf(),
    ensures
        clock.advanced(raw_us).now_us >= clock.now_us,
        clock.disciplined(offset_us).now_us == clock.now_us,
        -STEP_ABOVE_US <= clock.outstanding(offset_us) <= STEP_ABOVE_US ==> clock.corrected(
            offset_us,
        ).now_us == clock.now_us,
{
}

/// A correction never outruns the hardware: a clock that is correcting backwards
/// runs slow and does not stop.
pub proof fn a_correction_is_slower_than_the_clock(clock: ClockView, raw_us: u64)
    requires
        clock.wf(),
    ensures
        -clock.elapsed(raw_us) <= clock.applied(raw_us) <= clock.elapsed(raw_us),
        clock.elapsed(raw_us) > 1 ==> clock.elapsed(raw_us) + clock.applied(raw_us) > 0,
{
    let e = clock.elapsed(raw_us);
    let budget = clock.budget_millionths(raw_us) / 1_000_000;
    assert(budget <= e);
    assert(e > 1 ==> budget < e);
}

/// Nothing is lost: what the clock reads has moved by the hardware time that
/// passed and by exactly the part of the correction that is no longer
/// outstanding.
pub proof fn an_advance_accounts_for_itself(clock: ClockView, raw_us: u64)
    requires
        clock.wf(),
        clock.now_us + 2 * clock.elapsed(raw_us) <= u64::MAX,
    ensures
        clock.advanced(raw_us).now_us - clock.now_us == clock.elapsed(raw_us) + (clock.pending_us
            - clock.advanced(raw_us).pending_us),
{
    a_correction_is_slower_than_the_clock(clock, raw_us);
}

/// The correction shrinks towards nothing and never past it.
pub proof fn a_correction_only_shrinks(clock: ClockView, raw_us: u64)
    requires
        clock.wf(),
    ensures
        clock.pending_us >= 0 ==> 0 <= clock.advanced(raw_us).pending_us <= clock.pending_us,
        clock.pending_us <= 0 ==> clock.pending_us <= clock.advanced(raw_us).pending_us <= 0,
{
    assert(clock.budget_millionths(raw_us) >= 0);
}

/// The rate: an interval works off no more than its share, and exactly that
/// share, to the microsecond, while more is outstanding.
pub proof fn a_correction_is_worked_off_at_the_slew_rate(clock: ClockView, raw_us: u64)
    requires
        clock.wf(),
        clock.carried + clock.elapsed(raw_us) * SLEW_PPM <= i64::MAX,
    ensures
        clock.applied(raw_us) * 1_000_000 <= clock.carried + clock.elapsed(raw_us) * SLEW_PPM,
        clock.pending_us * 1_000_000 > clock.carried + clock.elapsed(raw_us) * SLEW_PPM
            ==> clock.applied(raw_us) == (clock.carried + clock.elapsed(raw_us) * SLEW_PPM)
            / 1_000_000,
        clock.pending_us * 1_000_000 < -(clock.carried + clock.elapsed(raw_us) * SLEW_PPM)
            ==> clock.applied(raw_us) == -((clock.carried + clock.elapsed(raw_us) * SLEW_PPM)
            / 1_000_000),
{
}

/// A correction is absorbed completely once its time has passed.
pub proof fn a_correction_is_absorbed_in_time(clock: ClockView, raw_us: u64)
    requires
        clock.wf(),
        clock.elapsed(raw_us) * SLEW_PPM <= i64::MAX - 1_000_000,
        -clock.elapsed(raw_us) * SLEW_PPM <= clock.pending_us * 1_000_000
            <= clock.elapsed(raw_us) * SLEW_PPM,
    ensures
        clock.advanced(raw_us).pending_us == 0,
{
}

/// How often the clock is advanced makes no difference: two advances come to
/// exactly what one over the whole interval does.
pub proof fn advancing_in_steps_changes_nothing(clock: ClockView, mid_us: u64, raw_us: u64)
    requires
        clock.wf(),
        clock.last_raw_us <= mid_us <= raw_us,
        clock.carried + clock.elapsed(raw_us) * SLEW_PPM <= i64::MAX,
        clock.now_us + 2 * clock.elapsed(raw_us) <= u64::MAX,
    ensures
        clock.advanced(mid_us).advanced(raw_us) == clock.advanced(raw_us),
{
    let mid = clock.advanced(mid_us);
    let a = clock.carried + clock.elapsed(mid_us) * SLEW_PPM;
    let b = mid.carried + mid.elapsed(raw_us) * SLEW_PPM;
    let whole = clock.carried + clock.elapsed(raw_us) * SLEW_PPM;
    assert(clock.elapsed(mid_us) + mid.elapsed(raw_us) == clock.elapsed(raw_us));
    assert(whole == 1_000_000 * (a / 1_000_000) + b);
    assert(whole / 1_000_000 == a / 1_000_000 + b / 1_000_000);
    assert(whole % 1_000_000 == b % 1_000_000);
    a_correction_is_slower_than_the_clock(clock, mid_us);
    a_correction_is_slower_than_the_clock(mid, raw_us);
    a_correction_is_slower_than_the_clock(clock, raw_us);
}

/// After a run of advances.
pub open spec fn advanced_through(clock: ClockView, times: Seq<u64>) -> ClockView
    decreases times.len(),
{
    if times.len() == 0 {
        clock
    } else {
        advanced_through(clock, times.drop_last()).advanced(times.last())
    }
}

/// However many advances there are, and however short each interval is, they
/// come to exactly what one over the whole of it does.
pub proof fn advancing_often_changes_nothing(clock: ClockView, times: Seq<u64>)
    requires
        clock.wf(),
        times.len() > 0,
        clock.last_raw_us <= times[0],
        forall|i: int, j: int| 0 <= i <= j < times.len() ==> times[i] <= times[j],
        clock.carried + clock.elapsed(times.last()) * SLEW_PPM <= i64::MAX,
        clock.now_us + 2 * clock.elapsed(times.last()) <= u64::MAX,
    ensures
        advanced_through(clock, times) == clock.advanced(times.last()),
    decreases times.len(),
{
    let earlier = times.drop_last();
    if earlier.len() > 0 {
        assert(earlier.last() == times[times.len() - 2]);
        assert(times[0] <= times[times.len() - 2] <= times[times.len() - 1]);
        advancing_often_changes_nothing(clock, earlier);
        advancing_in_steps_changes_nothing(clock, earlier.last(), times.last());
    } else {
        assert(advanced_through(clock, earlier) == clock);
    }
}

/// A clock that owes nothing tracks the hardware exactly.
pub proof fn an_undisciplined_clock_tracks_the_hardware(clock: ClockView, raw_us: u64)
    requires
        clock.wf(),
        clock.pending_us == 0,
        clock.now_us + clock.elapsed(raw_us) <= u64::MAX,
    ensures
        clock.advanced(raw_us).now_us == clock.now_us + clock.elapsed(raw_us),
        clock.advanced(raw_us).pending_us == 0,
{
}

/// Corrections add up, in whatever order they arrive.
pub proof fn corrections_accumulate(clock: ClockView, a: i64, b: i64)
    requires
        i64::MIN <= clock.pending_us + a <= i64::MAX,
        i64::MIN <= clock.pending_us + b <= i64::MAX,
        i64::MIN <= clock.pending_us + a + b <= i64::MAX,
    ensures
        clock.disciplined(a).disciplined(b).pending_us == clock.pending_us + a + b,
        clock.disciplined(a).disciplined(b) == clock.disciplined(b).disciplined(a),
{
}

/// A correction too large to be drift is applied at once and whole, whichever
/// way it is, and leaves nothing to be slewed.
pub proof fn a_large_correction_is_applied_at_once(clock: ClockView, offset_us: i64)
    requires
        clock.outstanding(offset_us) > STEP_ABOVE_US || clock.outstanding(offset_us)
            < -STEP_ABOVE_US,
    ensures
        clock.corrected(offset_us).pending_us == 0,
        clock.corrected(offset_us).carried == 0,
        0 <= clock.now_us + clock.outstanding(offset_us) <= u64::MAX ==> clock.corrected(
            offset_us,
        ).now_us == clock.now_us + clock.outstanding(offset_us),
        clock.now_us + clock.outstanding(offset_us) < 0 ==> clock.corrected(offset_us).now_us == 0,
{
}

/// What is left outstanding after a correction from the mesh is always small
/// enough to be drift.
pub proof fn a_join_is_never_slewed(clock: ClockView, offset_us: i64)
    ensures
        -STEP_ABOVE_US <= clock.corrected(offset_us).pending_us <= STEP_ABOVE_US,
{
}

/// Hardware that has not moved on, or has gone back, moves nothing here: neither
/// the reading nor the correction. It is counted from where it is now.
pub proof fn hardware_that_goes_back_moves_nothing(clock: ClockView, raw_us: u64)
    requires
        clock.wf(),
    ensures
        clock.advanced(raw_us).last_raw_us == raw_us,
        raw_us <= clock.last_raw_us ==> clock.advanced(raw_us).now_us == clock.now_us,
        raw_us <= clock.last_raw_us ==> clock.advanced(raw_us).pending_us == clock.pending_us,
        raw_us <= clock.last_raw_us ==> clock.advanced(raw_us).carried == clock.carried,
{
}

/// A microsecond of correction takes five milliseconds: one that is outstanding is
/// absorbed after that long for each, and not a carried microsecond sooner.
pub proof fn a_microsecond_takes_five_milliseconds(clock: ClockView, raw_us: u64)
    requires
        clock.wf(),
        clock.last_raw_us <= raw_us,
        raw_us - clock.last_raw_us <= 40_000_000_000_000_000,
    ensures
        ({
            let passed = raw_us - clock.last_raw_us;
            let left = clock.advanced(raw_us).pending_us;
            &&& -passed <= 5_000 * clock.pending_us <= passed ==> left == 0
            &&& 5_000 * clock.pending_us >= passed + 5_000 ==> left > 0
            &&& 5_000 * clock.pending_us <= -(passed + 5_000) ==> left < 0
            &&& clock.pending_us >= 0 ==> 5_000 * (clock.pending_us - left) < passed + 5_000
            &&& clock.pending_us <= 0 ==> 5_000 * (left - clock.pending_us) < passed + 5_000
        }),
{
}

/// A correction from the mesh is drift up to a tenth of a second, either way, and
/// is taken on whole without moving the clock; beyond that it moves the clock
/// whole, up to either end of what it can read, and nothing is left of it.
pub proof fn a_correction_is_slewed_up_to_a_tenth_of_a_second(clock: ClockView, offset_us: i64)
    ensures
        ({
            let both = clock.pending_us + offset_us;
            let all: int = if both > i64::MAX {
                i64::MAX as int
            } else if both < i64::MIN {
                i64::MIN as int
            } else {
                both
            };
            let after = clock.corrected(offset_us);
            &&& after.last_raw_us == clock.last_raw_us
            &&& -100_000 <= all <= 100_000 ==> {
                &&& after.pending_us == all
                &&& after.now_us == clock.now_us
                &&& after.carried == clock.carried
            }
            &&& all < -100_000 || all > 100_000 ==> {
                &&& after.pending_us == 0
                &&& after.carried == 0
                &&& 0 <= clock.now_us + all <= u64::MAX ==> after.now_us == clock.now_us + all
                &&& clock.now_us + all < 0 ==> after.now_us == 0
                &&& clock.now_us + all > u64::MAX ==> after.now_us == u64::MAX
            }
        }),
{
}

/// A correction that has no room left stays at the end of the range it has.
pub proof fn a_correction_never_wraps(clock: ClockView, offset_us: i64)
    ensures
        clock.pending_us + offset_us > i64::MAX ==> clock.disciplined(offset_us).pending_us
            == i64::MAX,
        clock.pending_us + offset_us < i64::MIN ==> clock.disciplined(offset_us).pending_us
            == i64::MIN,
        i64::MIN <= clock.pending_us + offset_us <= i64::MAX ==> clock.disciplined(
            offset_us,
        ).pending_us == clock.pending_us + offset_us,
        clock.disciplined(offset_us).carried == clock.carried,
        clock.disciplined(offset_us).last_raw_us == clock.last_raw_us,
{
}

/// A clock that is set reads what it was set to, owes nothing, and goes on with the
/// hardware from where that was.
pub proof fn a_clock_that_is_set_owes_nothing(clock: ClockView, show_us: u64, raw_us: u64)
    requires
        clock.last_raw_us <= raw_us,
        show_us + (raw_us - clock.last_raw_us) <= u64::MAX,
    ensures
        clock.stepped(show_us).now_us == show_us,
        clock.stepped(show_us).pending_us == 0,
        clock.stepped(show_us).advanced(raw_us).now_us == show_us + (raw_us - clock.last_raw_us),
        clock.stepped(show_us).advanced(raw_us).pending_us == 0,
{
}

/// The reading moves by what passed and by what was worked off, up to the end of what
/// it can say, and stays there.
pub proof fn a_reading_stops_at_its_end(clock: ClockView, raw_us: u64)
    requires
        clock.wf(),
    ensures
        ({
            let after = clock.advanced(raw_us);
            let moved = clock.elapsed(raw_us) + (clock.pending_us - after.pending_us);
            &&& clock.now_us + moved <= u64::MAX ==> after.now_us == clock.now_us + moved
            &&& clock.now_us + moved > u64::MAX ==> after.now_us == u64::MAX
        }),
{
    a_correction_is_slower_than_the_clock(clock, raw_us);
}

/// However long an interval is, more time works off no less; one too long to count in
/// millionths works off as much as can be counted.
pub proof fn more_time_works_off_no_less(clock: ClockView, raw_us: u64, later_us: u64)
    requires
        clock.wf(),
        clock.last_raw_us <= raw_us <= later_us,
    ensures
        clock.pending_us >= 0 ==> 0 <= clock.advanced(later_us).pending_us <= clock.advanced(
            raw_us,
        ).pending_us,
        clock.pending_us <= 0 ==> clock.advanced(raw_us).pending_us <= clock.advanced(
            later_us,
        ).pending_us <= 0,
        clock.carried + (raw_us - clock.last_raw_us) * 200 > i64::MAX && -9_223_372_036_854
            <= clock.pending_us <= 9_223_372_036_854 ==> clock.advanced(raw_us).pending_us == 0,
        0 <= clock.advanced(raw_us).carried < 1_000_000,
{
    let a = clock.budget_millionths(raw_us);
    let b = clock.budget_millionths(later_us);
    assert(0 <= a <= b);
    assert(a / 1_000_000 <= b / 1_000_000);
}

/// How much hardware time passes is what the hardware counted, and none if it went
/// back.
pub proof fn what_passes_is_what_the_hardware_counted(clock: ClockView, raw_us: u64)
    ensures
        raw_us >= clock.last_raw_us ==> clock.elapsed(raw_us) == raw_us - clock.last_raw_us,
        raw_us < clock.last_raw_us ==> clock.elapsed(raw_us) == 0,
{
}

/// An interval too long to count in millionths works off nine trillion microseconds
/// and no more, and carries on with what that leaves.
pub proof fn the_longest_interval_works_off_what_can_be_counted(clock: ClockView, raw_us: u64)
    requires
        clock.wf(),
        clock.carried + clock.elapsed(raw_us) * 200 > i64::MAX,
    ensures
        ({
            let after = clock.advanced(raw_us);
            let most = 9_223_372_036_854int;
            &&& clock.pending_us > most ==> after.pending_us == clock.pending_us - most
            &&& clock.pending_us < -most ==> after.pending_us == clock.pending_us + most
            &&& -most <= clock.pending_us <= most ==> after.pending_us == 0
            &&& after.carried == 775_807
        }),
{
}

} // verus!
