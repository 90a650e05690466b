//! From microseconds measured to the figures that matter: the share of a frame,
//! and the frame rate that is left.

use vstd::prelude::*;

verus! {

/// LEDs in the strip this is sized against.
pub const PIXELS: u64 = 300;

/// Frames averaged over, so that one unlucky one does not decide the answer.
pub const FRAMES: u64 = 30;

/// Pixels rendered in a run.
pub const PIXEL_RUNS: u64 = 9_000;

/// The time of a frame, sixty times a second.
pub const BUDGET_US: u64 = 16_667;

/// What one program comes to.
#[derive(Clone, Copy, PartialEq, Eq, Debug)]
pub struct Figures {
    pub per_frame_us: u64,
    /// Hundredths of a microsecond per pixel.
    pub per_pixel_centi: u64,
    /// Percent of a frame.
    pub percent: u64,
    pub max_fps: u64,
}

pub open spec fn figures_of(total_us: u64) -> Option<Figures> {
    if total_us == 0 {
        None
    } else {
        Some(
            Figures {
                per_frame_us: total_us / FRAMES,
                per_pixel_centi: (total_us * 100 / PIXEL_RUNS as int) as u64,
                percent: ((total_us / FRAMES) * 100 / BUDGET_US as int) as u64,
                max_fps: if total_us / FRAMES == 0 {
                    0
                } else {
                    1_000_000u64 / (total_us / FRAMES)
                },
            },
        )
    }
}

/// What a run that took `total_us` comes to. One that took no time at all is one
/// that faulted.
pub fn figures(total_us: u64) -> (r: Option<Figures>)
    ensures
        r == figures_of(total_us),
{
    if total_us == 0 {
        return None;
    }
    let per_frame: u64 = total_us / FRAMES;
    let per_pixel: u128 = total_us as u128 * 100 / PIXEL_RUNS as u128;
    let percent: u128 = per_frame as u128 * 100 / BUDGET_US as u128;
    Some(
        Figures {
            per_frame_us: per_frame,
            per_pixel_centi: per_pixel as u64,
            percent: percent as u64,
            max_fps: if per_frame == 0 {
                0
            } else {
                1_000_000 / per_frame
            },
        },
    )
}

/// A program that takes no more than a frame for a frame can be drawn sixty
/// times a second, or as near to it as a whole number of microseconds comes.
pub proof fn what_fits_a_frame_is_drawn_in_time(total_us: u64)
    requires
        FRAMES <= total_us,
        total_us <= FRAMES * BUDGET_US,
    ensures
        figures_of(total_us).unwrap().percent <= 100,
        figures_of(total_us).unwrap().max_fps >= 59,
{
    let per_frame = total_us / FRAMES;
    assert(1 <= per_frame <= BUDGET_US);
    assert(1_000_000u64 / per_frame >= 59) by (nonlinear_arith)
        requires
            1 <= per_frame <= 16_667,
    ;
}

/// What one pixel came to.
#[derive(Clone, Copy, PartialEq, Eq, Debug)]
pub enum Pixel {
    Nothing,
    Colour,
    Fault,
}

/// How many pixels have produced a colour and whether one has faulted, after one
/// more.
pub open spec fn after_pixel(state: (nat, bool), pixel: Pixel) -> (nat, bool) {
    match pixel {
        Pixel::Nothing => state,
        Pixel::Colour => (state.0 + 1, state.1),
        Pixel::Fault => (state.0, true),
    }
}

/// The same after the part of a frame that is run once, which went well or did not.
pub open spec fn after_frame(state: (nat, bool), ok: bool) -> (nat, bool) {
    (state.0, state.1 || !ok)
}

/// What a run that took `elapsed_us` comes to: nothing if it faulted.
pub open spec fn finished(state: (nat, bool), elapsed_us: u64) -> (u64, u32) {
    if state.1 {
        (0, 0)
    } else {
        (elapsed_us, state.0 as u32)
    }
}

/// A run of a program: how many pixels produced a colour, until one faults.
pub struct Run {
    emitted: u32,
    faulted: bool,
}

impl Run {
    pub closed spec fn emitted(&self) -> nat {
        self.emitted as nat
    }

    pub closed spec fn faulted(&self) -> bool {
        self.faulted
    }

    pub fn new() -> (r: Run)
        ensures
            r.emitted() == 0,
            !r.faulted(),
    {
        Run { emitted: 0, faulted: false }
    }

    /// The part of a frame that is run once. Whether to go on.
    pub fn frame(&mut self, ok: bool) -> (r: bool)
        ensures
            final(self).emitted() == old(self).emitted(),
            final(self).faulted() == (old(self).faulted() || !ok),
            (final(self).emitted(), final(self).faulted()) == after_frame(
                (old(self).emitted(), old(self).faulted()),
                ok,
            ),
            r == !final(self).faulted(),
    {
        if !ok {
            self.faulted = true;
        }
        !self.faulted
    }

    /// One pixel. Whether to go on.
    pub fn pixel(&mut self, pixel: Pixel) -> (r: bool)
        requires
            old(self).emitted() < u32::MAX,
        ensures
            final(self).emitted() == old(self).emitted() + if pixel == Pixel::Colour {
                1nat
            } else {
                0nat
            },
            final(self).faulted() == (old(self).faulted() || pixel == Pixel::Fault),
            (final(self).emitted(), final(self).faulted()) == after_pixel(
                (old(self).emitted(), old(self).faulted()),
                pixel,
            ),
            r == !final(self).faulted(),
    {
        match pixel {
            Pixel::Nothing => {},
            Pixel::Colour => {
                self.emitted = self.emitted + 1;
            },
            Pixel::Fault => {
                self.faulted = true;
            },
        }
        !self.faulted
    }

    /// The time the run took and the pixels that produced a colour; nothing of
    /// either if it faulted.
    pub fn finish(&self, elapsed_us: u64) -> (r: (u64, u32))
        ensures
            r.0 == if self.faulted() {
                0
            } else {
                elapsed_us
            },
            r.1 == if self.faulted() {
                0
            } else {
                self.emitted()
            },
            r == finished((self.emitted(), self.faulted()), elapsed_us),
    {
        if self.faulted {
            (0, 0)
        } else {
            (elapsed_us, self.emitted)
        }
    }
}

/// The figures of a run are its shares: of thirty frames, of nine thousand pixels in
/// hundredths, of the time a frame has in percent; and as many frames a second as
/// fit. A run that took no time has none.
pub proof fn figures_are_shares(total_us: u64)
    ensures
        figures_of(total_us) is None <==> total_us == 0,
        figures_of(total_us) matches Some(f) ==> {
            &&& f.per_frame_us * 30 <= total_us < (f.per_frame_us + 1) * 30
            &&& f.per_pixel_centi * 9_000 <= total_us * 100 < (f.per_pixel_centi + 1) * 9_000
            &&& f.percent * 16_667 <= f.per_frame_us * 100 < (f.percent + 1) * 16_667
            &&& f.per_frame_us == 0 ==> f.max_fps == 0
            &&& f.per_frame_us > 0 ==> f.max_fps * f.per_frame_us <= 1_000_000 < (f.max_fps + 1)
                * f.per_frame_us
        },
{
    let per_frame = (total_us / 30) as int;
    if per_frame > 0 {
        let q = 1_000_000int / per_frame;
        vstd::arithmetic::div_mod::lemma_fundamental_div_mod(1_000_000, per_frame);
        vstd::arithmetic::div_mod::lemma_mod_bound(1_000_000, per_frame);
        assert((q + 1) * per_frame == per_frame * q + per_frame && q * per_frame == per_frame * q)
            by (nonlinear_arith);
    }
}

/// A run of pixels.
pub open spec fn after_pixels(pixels: Seq<Pixel>) -> (nat, bool)
    decreases pixels.len(),
{
    if pixels.len() == 0 {
        (0, false)
    } else {
        after_pixel(after_pixels(pixels.drop_last()), pixels.last())
    }
}

/// How many of a run of pixels produced a colour.
pub open spec fn coloured(pixels: Seq<Pixel>) -> nat
    decreases pixels.len(),
{
    if pixels.len() == 0 {
        0
    } else {
        coloured(pixels.drop_last()) + if pixels.last() is Colour {
            1nat
        } else {
            0nat
        }
    }
}

/// A run comes to the time it took and the pixels that produced a colour, unless any
/// of them faulted: then it comes to nothing, however many had produced one.
pub proof fn a_run_that_faults_comes_to_nothing(pixels: Seq<Pixel>, elapsed_us: u64)
    requires
        pixels.len() <= u32::MAX,
    ensures
        (exists|i: int| 0 <= i < pixels.len() && (#[trigger] pixels[i]) is Fault) ==> finished(
            after_pixels(pixels),
            elapsed_us,
        ) == (0u64, 0u32),
        (forall|i: int| 0 <= i < pixels.len() ==> !((#[trigger] pixels[i]) is Fault)) ==> finished(
            after_pixels(pixels),
            elapsed_us,
        ).0 == elapsed_us && finished(after_pixels(pixels), elapsed_us).1 == coloured(pixels),
{
    pixels_are_counted(pixels);
}

proof fn pixels_are_counted(pixels: Seq<Pixel>)
    ensures
        after_pixels(pixels).0 == coloured(pixels) <= pixels.len(),
        after_pixels(pixels).1 <==> exists|i: int|
            0 <= i < pixels.len() && (#[trigger] pixels[i]) is Fault,
    decreases pixels.len(),
{
    if pixels.len() > 0 {
        let earlier = pixels.drop_last();
        pixels_are_counted(earlier);
        assert(pixels[pixels.len() - 1] == pixels.last());
        if exists|i: int| 0 <= i < earlier.len() && (#[trigger] earlier[i]) is Fault {
            let i = choose|i: int| 0 <= i < earlier.len() && (#[trigger] earlier[i]) is Fault;
            assert(pixels[i] is Fault);
        }
        if exists|i: int| 0 <= i < pixels.len() && (#[trigger] pixels[i]) is Fault {
            let i = choose|i: int| 0 <= i < pixels.len() && (#[trigger] pixels[i]) is Fault;
            if i < earlier.len() {
                assert(earlier[i] is Fault);
            }
        }
    }
}

/// The part of a frame that is run once produces no colour; if it goes badly the run
/// has faulted, and what has faulted stays so.
pub proof fn a_frame_that_goes_badly_is_a_fault(state: (nat, bool), ok: bool, pixel: Pixel)
    ensures
        after_frame(state, ok).0 == state.0,
        after_frame(state, true).1 == state.1,
        after_frame(state, false).1,
        state.1 ==> after_frame(state, ok).1 && after_pixel(state, pixel).1,
{
}

} // verus!
