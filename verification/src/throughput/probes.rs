//! The programs that measure one instruction each.
//!
//! Operands are fixed registers rather than varied ones: a real effect has
//! dependencies between its instructions too.

use vstd::prelude::*;

verus! {

/// Repetitions: enough that the overhead does not matter, few enough that the
/// program stays small.
pub const REPS: usize = 64;

/// Registers the measured instruction reads and writes.
pub const DST: u8 = 20;

pub const A: u8 = 16;

pub const B: u8 = 17;

/// What an instruction takes.
#[derive(Clone, Copy, PartialEq, Eq, Debug)]
pub enum Shape {
    /// A run of consecutive registers.
    Run,
    /// A register and a palette.
    Palette,
    /// A channel.
    Channel,
    /// Nothing.
    Previous,
    /// A constant.
    Constant,
    /// Two registers.
    Plain,
}

/// An instruction of a probe. The one that is measured is called `Measured`.
#[derive(Clone, Copy, PartialEq, Eq, Debug)]
pub enum Ins {
    Nop,
    LoadConstant { dst: u8, constant: u16 },
    Measured { dst: u8, a: u8, b: u8 },
    MeasuredConstant { dst: u8, constant: u16 },
    Emit { r: u8, g: u8, b: u8 },
}

/// What a probe has declared: a half and a two, which are safe for everything
/// measured, a palette and a channel.
#[derive(Clone, Copy, PartialEq, Eq, Debug)]
pub struct Declared {
    pub half: u16,
    pub two: u16,
    pub palette: u8,
    pub channel: u8,
}

/// The measured instruction, with operands of the right shape.
pub open spec fn measured(shape: Shape, d: Declared) -> Ins {
    match shape {
        Shape::Run => Ins::Measured { dst: DST, a: A, b: 0 },
        Shape::Palette => Ins::Measured { dst: DST, a: A, b: d.palette },
        Shape::Channel => Ins::Measured { dst: DST, a: d.channel, b: 0 },
        Shape::Previous => Ins::Measured { dst: DST, a: 0, b: 0 },
        Shape::Constant => Ins::MeasuredConstant { dst: DST, constant: d.half },
        Shape::Plain => Ins::Measured { dst: DST, a: A, b: B },
    }
}

/// A probe: two operands, the instruction over and over, and a colour.
pub open spec fn probe(shape: Shape, d: Declared) -> Seq<Ins> {
    seq![
        Ins::LoadConstant { dst: A, constant: d.half },
        Ins::LoadConstant { dst: B, constant: d.two },
    ] + Seq::new(REPS as nat, |i: int| measured(shape, d)) + seq![Ins::Emit { r: A, g: A, b: A }]
}

pub fn program_for(shape: Shape, d: Declared) -> (r: Vec<Ins>)
    ensures
        r@ == probe(shape, d),
{
    let mut out: Vec<Ins> = Vec::new();
    out.push(Ins::LoadConstant { dst: A, constant: d.half });
    out.push(Ins::LoadConstant { dst: B, constant: d.two });
    let ins: Ins = match shape {
        Shape::Run => Ins::Measured { dst: DST, a: A, b: 0 },
        Shape::Palette => Ins::Measured { dst: DST, a: A, b: d.palette },
        Shape::Channel => Ins::Measured { dst: DST, a: d.channel, b: 0 },
        Shape::Previous => Ins::Measured { dst: DST, a: 0, b: 0 },
        Shape::Constant => Ins::MeasuredConstant { dst: DST, constant: d.half },
        Shape::Plain => Ins::Measured { dst: DST, a: A, b: B },
    };
    let mut i: usize = 0;
    while i < REPS
        invariant
            i <= REPS,
            ins == measured(shape, d),
            out@ == probe(shape, d).take(2 + i),
        decreases REPS - i,
    {
        out.push(ins);
        i = i + 1;
        assert(out@ =~= probe(shape, d).take(2 + i));
    }
    out.push(Ins::Emit { r: A, g: A, b: A });
    assert(out@ =~= probe(shape, d));
    out
}

/// A program of `n` instructions that do nothing. Two lengths of it tell what a
/// run costs from what an instruction costs.
pub open spec fn idle(n: nat) -> Seq<Ins> {
    Seq::new(n, |i: int| Ins::Nop).push(Ins::Emit { r: 0, g: 0, b: 0 })
}

pub fn nops(n: usize) -> (r: Vec<Ins>)
    ensures
        r@ == idle(n as nat),
{
    let mut out: Vec<Ins> = Vec::new();
    let mut i: usize = 0;
    while i < n
        invariant
            i <= n,
            out@ == Seq::new(i as nat, |i: int| Ins::Nop),
        decreases n - i,
    {
        out.push(Ins::Nop);
        i = i + 1;
        assert(out@ =~= Seq::new(i as nat, |i: int| Ins::Nop));
    }
    out.push(Ins::Emit { r: 0, g: 0, b: 0 });
    out
}

/// A probe holds the measured instruction exactly so many times, and all probes
/// are equally long, so that one can be taken off another.
pub proof fn probes_differ_in_the_measured_instruction_only(a: Shape, b: Shape, d: Declared)
    ensures
        probe(a, d).len() == probe(b, d).len() == REPS + 3,
        forall|i: int|
            0 <= i < REPS + 3 && !(2 <= i < REPS + 2) ==> #[trigger] probe(a, d)[i] == probe(
                b,
                d,
            )[i],
        forall|i: int| 2 <= i < REPS + 2 ==> #[trigger] probe(a, d)[i] == measured(a, d),
{
}

/// What each probe is: a half and a two are loaded, the instruction that is measured
/// reads what its shape takes, sixty-four times, and the last instruction emits.
pub proof fn a_probe_measures_one_instruction(shape: Shape, d: Declared, i: int)
    requires
        2 <= i < 66,
    ensures
        probe(shape, d).len() == 67,
        probe(shape, d)[0] == (Ins::LoadConstant { dst: 16, constant: d.half }),
        probe(shape, d)[1] == (Ins::LoadConstant { dst: 17, constant: d.two }),
        probe(shape, d)[66] == (Ins::Emit { r: 16, g: 16, b: 16 }),
        shape == Shape::Run ==> probe(shape, d)[i] == (Ins::Measured { dst: 20, a: 16, b: 0 }),
        shape == Shape::Palette ==> probe(shape, d)[i] == (Ins::Measured {
            dst: 20,
            a: 16,
            b: d.palette,
        }),
        shape == Shape::Channel ==> probe(shape, d)[i] == (Ins::Measured {
            dst: 20,
            a: d.channel,
            b: 0,
        }),
        shape == Shape::Previous ==> probe(shape, d)[i] == (Ins::Measured { dst: 20, a: 0, b: 0 }),
        shape == Shape::Constant ==> probe(shape, d)[i] == (Ins::MeasuredConstant {
            dst: 20,
            constant: d.half,
        }),
        shape == Shape::Plain ==> probe(shape, d)[i] == (Ins::Measured { dst: 20, a: 16, b: 17 }),
{
}

/// An idle program does nothing as often as it was asked to, and then emits.
pub proof fn an_idle_program_does_nothing(n: nat, i: int)
    requires
        0 <= i < n,
    ensures
        idle(n).len() == n + 1,
        idle(n)[i] == Ins::Nop,
        idle(n)[n as int] == (Ins::Emit { r: 0, g: 0, b: 0 }),
{
}

} // verus!
