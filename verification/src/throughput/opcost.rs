//! What an instruction costs, measured rather than assumed.
//!
//! Each program runs one instruction many times. A baseline of instructions that
//! do nothing measures the dispatch loop, so taking that off leaves the
//! operation.

use vstd::prelude::*;

verus! {

/// Repetitions inside each program.
pub const REPS: u64 = 64;

/// Runs per measurement.
pub const ITERS: u64 = 2_000;

/// What dispatching one instruction costs, as fitted.
pub const DISPATCH_NS: u64 = 837;

/// Nanoseconds per run of a program that took `us` for all of them.
pub open spec fn ns_of(us: u64) -> u64 {
    (us * 1000 / ITERS as int) as u64
}

/// Nanoseconds per run of a program that took `us` for all of them.
pub fn ns_per_run(us: u64) -> (r: u64)
    ensures
        r == us * 1000 / ITERS as int,
        r == ns_of(us),
{
    (us as u128 * 1000 / ITERS as u128) as u64
}

/// A line through two measurements.
#[derive(Clone, Copy, PartialEq, Eq, Debug)]
pub struct Fit {
    /// Hundredths of a nanosecond per instruction.
    pub per_instruction_centi: u128,
    /// Nanoseconds per run that no instruction accounts for.
    pub overhead_ns: u64,
    /// Cycles per instruction at a hundred and sixty megahertz.
    pub cycles: u128,
}

pub open spec fn fit_of(n_lo: u64, t_lo: u64, n_hi: u64, t_hi: u64) -> Option<Fit> {
    if n_hi > n_lo && t_hi > t_lo {
        let centi = (t_hi - t_lo) * 100 / (n_hi - n_lo);
        let base = t_lo - (t_hi - t_lo) / (n_hi - n_lo) * n_lo;
        Some(
            Fit {
                per_instruction_centi: centi as u128,
                overhead_ns: (if base > 0 {
                    base
                } else {
                    0
                }) as u64,
                cycles: (centi / 625) as u128,
            },
        )
    } else {
        None
    }
}

/// The line through the shortest and the longest program, which took `t_lo` and
/// `t_hi` nanoseconds for `n_lo` and `n_hi` instructions. One length alone cannot
/// tell what a run costs from what an instruction costs.
pub fn fit(n_lo: u64, t_lo: u64, n_hi: u64, t_hi: u64) -> (r: Option<Fit>)
    ensures
        r == fit_of(n_lo, t_lo, n_hi, t_hi),
{
    if n_hi <= n_lo || t_hi <= t_lo {
        return None;
    }
    let rise: u64 = t_hi - t_lo;
    let run: u64 = n_hi - n_lo;
    let centi: u128 = rise as u128 * 100 / run as u128;
    let slope: u64 = rise / run;
    proof {
        assert(0 <= slope * n_lo <= 0xffff_ffff_ffff_ffff * 0xffff_ffff_ffff_ffff)
            by (nonlinear_arith)
            requires
                0 <= slope <= 0xffff_ffff_ffff_ffff,
                0 <= n_lo <= 0xffff_ffff_ffff_ffff,
        ;
        assert(0 <= (t_hi - t_lo) * 100 / (n_hi - n_lo) <= (t_hi - t_lo) * 100)
            by (nonlinear_arith)
            requires
                t_hi > t_lo,
                n_hi > n_lo,
        ;
    }
    let accounted: u128 = slope as u128 * n_lo as u128;
    let overhead: u64 = if accounted >= t_lo as u128 {
        0
    } else {
        t_lo - accounted as u64
    };
    Some(Fit { per_instruction_centi: centi, overhead_ns: overhead, cycles: centi / 625 })
}

/// Measurements that lie on a line give back exactly that line.
pub proof fn a_line_is_fitted_exactly(n_lo: u64, n_hi: u64, each: u64, overhead: u64)
    requires
        n_lo < n_hi,
        each > 0,
        overhead + each * n_hi <= u64::MAX,
    ensures
        fit_of(
            n_lo,
            (overhead + each * n_lo) as u64,
            n_hi,
            (overhead + each * n_hi) as u64,
        ) matches Some(f) && f.per_instruction_centi == each * 100 && f.overhead_ns == overhead,
{
    let run = n_hi - n_lo;
    assert(each * n_lo < each * n_hi) by (nonlinear_arith)
        requires
            n_lo < n_hi,
            each > 0,
    ;
    assert(each * n_hi - each * n_lo == each * run) by (nonlinear_arith)
        requires
            run == n_hi - n_lo,
    ;
    assert((each * run) / run == each) by (nonlinear_arith)
        requires
            run > 0,
    ;
    assert((each * run) * 100 / run == each * 100) by (nonlinear_arith)
        requires
            run > 0,
    ;
    assert(each * n_lo >= 0) by (nonlinear_arith);
}

/// What an instruction costs, against what the table says.
#[derive(Clone, Copy, PartialEq, Eq, Debug)]
pub struct Cost {
    /// Hundredths of a nanosecond above dispatch.
    pub above_centi: u128,
    /// Nanoseconds for the whole instruction.
    pub actual_ns: u128,
    /// Percent of what the table says; a table that says nothing gives zero.
    pub percent: u128,
}

pub open spec fn cost_of(total_ns: u64, baseline_ns: u64, claimed: u32) -> Cost {
    let net = if total_ns > baseline_ns {
        total_ns - baseline_ns
    } else {
        0
    };
    let above = net * 100 / REPS as int;
    let actual = DISPATCH_NS + above / 100;
    Cost {
        above_centi: above as u128,
        actual_ns: actual as u128,
        percent: (if claimed > 0 {
            actual * 100 / (claimed * 100)
        } else {
            0
        }) as u128,
    }
}

/// What an instruction costs, from a program that took `total_ns` and a baseline
/// that took `baseline_ns`. The table says `claimed` units of a hundred
/// nanoseconds.
pub fn cost(total_ns: u64, baseline_ns: u64, claimed: u32) -> (r: Cost)
    ensures
        r == cost_of(total_ns, baseline_ns, claimed),
{
    let net: u64 = total_ns.saturating_sub(baseline_ns);
    let above: u128 = net as u128 * 100 / REPS as u128;
    let actual: u128 = DISPATCH_NS as u128 + above / 100;
    let predicted: u128 = claimed as u128 * 100;
    let percent: u128 = if predicted > 0 {
        proof {
            assert(0 <= actual * 100 / (claimed * 100) <= actual * 100) by (nonlinear_arith)
                requires
                    claimed > 0,
                    actual >= 0,
            ;
        }
        actual * 100 / predicted
    } else {
        0
    };
    Cost { above_centi: above, actual_ns: actual, percent }
}

/// A program no slower than the baseline costs its dispatch and nothing more.
pub proof fn nothing_costs_less_than_dispatch(total_ns: u64, baseline_ns: u64, claimed: u32)
    ensures
        cost_of(total_ns, baseline_ns, claimed).actual_ns >= DISPATCH_NS,
        total_ns <= baseline_ns ==> cost_of(total_ns, baseline_ns, claimed).actual_ns
            == DISPATCH_NS,
{
}

/// A line is fitted wherever both measurements rise, and its figures are shares:
/// what one instruction more took, in hundredths, and at a hundred and sixty
/// megahertz in cycles; the overhead is what is left of the shorter run once every
/// whole nanosecond of that is taken off, and nothing if there is nothing left.
pub proof fn a_fit_is_a_share_of_the_rise(n_lo: u64, t_lo: u64, n_hi: u64, t_hi: u64)
    ensures
        fit_of(n_lo, t_lo, n_hi, t_hi) is Some <==> n_hi > n_lo && t_hi > t_lo,
        fit_of(n_lo, t_lo, n_hi, t_hi) matches Some(f) ==> {
            let rise = t_hi - t_lo;
            let run = n_hi - n_lo;
            let whole = f.per_instruction_centi as int / 100;
            &&& f.per_instruction_centi * run <= rise * 100 < (f.per_instruction_centi + 1) * run
            &&& f.cycles * 625 <= f.per_instruction_centi < (f.cycles + 1) * 625
            &&& t_lo >= whole * n_lo ==> f.overhead_ns == t_lo - whole * n_lo
            &&& t_lo < whole * n_lo ==> f.overhead_ns == 0
        },
{
    if n_hi > n_lo && t_hi > t_lo {
        let rise = t_hi - t_lo;
        let run = n_hi - n_lo;
        let c = rise * 100 / run;
        let s = rise / run;
        vstd::arithmetic::div_mod::lemma_fundamental_div_mod(rise * 100, run);
        vstd::arithmetic::div_mod::lemma_mod_bound(rise * 100, run);
        vstd::arithmetic::div_mod::lemma_fundamental_div_mod(rise, run);
        vstd::arithmetic::div_mod::lemma_mod_bound(rise, run);
        assert((c + 1) * run == run * c + run && c * run == run * c) by (nonlinear_arith);
        assert(0 <= c <= rise * 100) by (nonlinear_arith)
            requires
                rise > 0,
                run > 0,
                c * run <= rise * 100 < (c + 1) * run,
        ;
        assert(s * 100 <= c < s * 100 + 100) by (nonlinear_arith)
            requires
                run > 0,
                c * run <= rise * 100 < (c + 1) * run,
                run * s <= rise < run * s + run,
        ;
        assert(c / 100 == s);
        assert(s * n_lo >= 0) by (nonlinear_arith)
            requires
                s * 100 + 100 > c,
                c >= 0,
                n_lo >= 0,
        ;
    }
}

/// What an instruction costs is its share of what its program took longer than the
/// baseline, over sixty-four repetitions, on top of dispatching it; and in percent of
/// what the table says, in units of a hundred nanoseconds.
pub proof fn a_cost_is_a_share_of_what_took_longer(total_ns: u64, baseline_ns: u64, claimed: u32)
    ensures
        ({
            let c = cost_of(total_ns, baseline_ns, claimed);
            let longer = total_ns - baseline_ns;
            &&& longer <= 0 ==> c.above_centi == 0
            &&& longer > 0 ==> c.above_centi * 64 <= longer * 100 < (c.above_centi + 1) * 64
            &&& (c.actual_ns - 837) * 100 <= c.above_centi < (c.actual_ns - 837 + 1) * 100
            &&& claimed == 0 ==> c.percent == 0
            &&& claimed > 0 ==> c.percent * claimed <= c.actual_ns < (c.percent + 1) * claimed
        }),
{
    let c = cost_of(total_ns, baseline_ns, claimed);
    if claimed > 0 {
        let a = c.actual_ns as int;
        let k = claimed as int;
        let q = a * 100 / (k * 100);
        vstd::arithmetic::div_mod::lemma_fundamental_div_mod(a * 100, k * 100);
        vstd::arithmetic::div_mod::lemma_mod_bound(a * 100, k * 100);
        assert(q * k <= a < (q + 1) * k) by (nonlinear_arith)
            requires
                k > 0,
                (k * 100) * q <= a * 100 < (k * 100) * q + k * 100,
        ;
        assert(0 <= q <= a) by (nonlinear_arith)
            requires
                k > 0,
                a >= 0,
                q * k <= a < (q + 1) * k,
        ;
    }
}

/// What one of two thousand runs took, in nanoseconds.
pub proof fn a_run_is_a_share_of_them_all(us: u64)
    ensures
        ns_of(us) * 2_000 <= us * 1_000 < (ns_of(us) + 1) * 2_000,
{
}

} // verus!
