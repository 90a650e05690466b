//! Whether a second core is worth having, and whether it draws the same picture.
//!
//! Every device in a mesh computes the same show from the same clock. A device
//! with two cores that drew even one pixel differently would break that, so the
//! pictures are compared and not only the times.

use vstd::prelude::*;

use crate::device::node::Rgb;

verus! {

/// Frames averaged over.
pub const FRAMES: u64 = 30;

/// The time of a frame, sixty times a second.
pub const BUDGET_US: u64 = 16_667;

/// One core against two.
#[derive(Clone, Copy, PartialEq, Eq, Debug)]
pub struct Speed {
    pub one_us: u64,
    pub two_us: u64,
    /// Hundredths. A render that takes no time has no speed-up.
    pub speedup_centi: u128,
    /// Percent of a frame on two cores.
    pub percent: u64,
}

pub open spec fn speed_of(single_us: u64, split_us: u64) -> Speed {
    let one = single_us / FRAMES;
    let two = split_us / FRAMES;
    Speed {
        one_us: one,
        two_us: two,
        speedup_centi: (if two == 0 {
            0
        } else {
            one * 100 / two as int
        }) as u128,
        percent: (two * 100 / BUDGET_US as int) as u64,
    }
}

/// What a whole run on one core and on two comes to.
pub fn speed(single_us: u64, split_us: u64) -> (r: Speed)
    ensures
        r == speed_of(single_us, split_us),
{
    let one: u64 = single_us / FRAMES;
    let two: u64 = split_us / FRAMES;
    let speedup: u128 = if two == 0 {
        0
    } else {
        proof {
            assert(0 <= one * 100 / two as int <= one * 100) by (nonlinear_arith)
                requires
                    two > 0,
                    one >= 0,
            ;
        }
        one as u128 * 100 / two as u128
    };
    Speed {
        one_us: one,
        two_us: two,
        speedup_centi: speedup,
        percent: (two as u128 * 100 / BUDGET_US as u128) as u64,
    }
}

/// How many of the first `n` pixels differ.
pub open spec fn differing_in(a: Seq<Rgb>, b: Seq<Rgb>, n: int) -> nat
    decreases n,
{
    if n <= 0 {
        0
    } else {
        differing_in(a, b, n - 1) + if a[n - 1] == b[n - 1] {
            0nat
        } else {
            1nat
        }
    }
}

/// How many pixels differ, as far as both pictures go.
pub open spec fn differing(a: Seq<Rgb>, b: Seq<Rgb>) -> nat {
    differing_in(
        a,
        b,
        (if a.len() <= b.len() {
            a.len()
        } else {
            b.len()
        }) as int,
    )
}

proof fn no_more_than_there_are(a: Seq<Rgb>, b: Seq<Rgb>, n: int)
    requires
        n >= 0,
    ensures
        differing_in(a, b, n) <= n,
    decreases n,
{
    if n > 0 {
        no_more_than_there_are(a, b, n - 1);
    }
}

/// Whether two pictures are the same, and how many pixels differ.
pub fn compare(a: &[Rgb], b: &[Rgb]) -> (r: (bool, usize))
    ensures
        r.0 == (a@ == b@),
        r.1 == differing(a@, b@),
{
    let n: usize = if a.len() <= b.len() {
        a.len()
    } else {
        b.len()
    };
    let mut count: usize = 0;
    let mut i: usize = 0;
    while i < n
        invariant
            i <= n,
            n <= a@.len(),
            n <= b@.len(),
            count == differing_in(a@, b@, i as int),
            count <= i,
            count == 0 <==> forall|j: int| 0 <= j < i ==> a@[j] == b@[j],
        decreases n - i,
    {
        let p: Rgb = a[i];
        let q: Rgb = b[i];
        if p.r != q.r || p.g != q.g || p.b != q.b {
            count = count + 1;
        }
        i = i + 1;
    }
    let identical: bool = a.len() == b.len() && count == 0;
    proof {
        if identical {
            assert(a@ =~= b@);
        }
    }
    (identical, count)
}

/// Two pictures of one length are the same exactly if no pixel differs.
pub proof fn the_same_picture_differs_nowhere(a: Seq<Rgb>, b: Seq<Rgb>)
    requires
        a.len() == b.len(),
    ensures
        a == b <==> differing(a, b) == 0,
        differing(a, b) <= a.len(),
{
    nowhere(a, b, a.len() as int);
    no_more_than_there_are(a, b, a.len() as int);
    if differing(a, b) == 0 {
        assert(a =~= b);
    }
}

proof fn nowhere(a: Seq<Rgb>, b: Seq<Rgb>, n: int)
    requires
        0 <= n <= a.len(),
        a.len() == b.len(),
    ensures
        differing_in(a, b, n) == 0 <==> forall|j: int| 0 <= j < n ==> a[j] == b[j],
    decreases n,
{
    if n > 0 {
        nowhere(a, b, n - 1);
    }
}

/// The picture drawn by both cores: the front is there already, and the back is
/// what the other core left.
pub open spec fn joined<T>(out: Seq<T>, back: Seq<T>, front: int) -> Seq<T> {
    out.take(front) + back.take(out.len() - front)
}

/// Two cores draw exactly what one does, if each draws of its own half what one
/// core draws there.
pub proof fn two_halves_make_the_picture<T>(whole: Seq<T>, out: Seq<T>, back: Seq<T>, front: int)
    requires
        0 <= front <= out.len() == whole.len(),
        out.len() - front <= back.len(),
        forall|i: int| 0 <= i < front ==> out[i] == whole[i],
        forall|i: int| 0 <= i < out.len() - front ==> back[i] == whole[front + i],
    ensures
        joined(out, back, front) == whole,
{
    assert(joined(out, back, front) =~= whole);
}

/// Put the two halves of a picture together: the front is there already, and the
/// back is taken from what the other core left.
pub fn join<T: Copy>(out: &mut Vec<T>, back: &[T], front: usize)
    requires
        front <= old(out)@.len(),
        old(out)@.len() - front <= back@.len(),
    ensures
        final(out)@ == joined(old(out)@, back@, front as int),
{
    let n: usize = out.len();
    let mut i: usize = front;
    while i < n
        invariant
            front <= i <= n,
            n == out@.len() == old(out)@.len(),
            n - front <= back@.len(),
            out@ == old(out)@.take(front as int) + back@.take(i - front) + old(out)@.skip(i as int),
        decreases n - i,
    {
        out.set(i, back[i - front]);
        i = i + 1;
        assert(out@ =~= old(out)@.take(front as int) + back@.take(i - front) + old(out)@.skip(
            i as int,
        ));
    }
    assert(out@ =~= joined(old(out)@, back@, front as int));
}

/// Whether the frame published now is one that was not drawn last.
pub open spec fn is_new(last: u32, published: u32) -> bool {
    published != last
}

/// The other core's side of the handshake: a frame is drawn once, when its
/// number first appears.
pub struct Worker {
    last: u32,
}

impl Worker {
    pub closed spec fn last(&self) -> u32 {
        self.last
    }

    pub fn new() -> (r: Worker)
        ensures
            r.last() == 0,
    {
        Worker { last: 0 }
    }

    /// Whether the frame published now is one to draw.
    pub fn take(&mut self, published: u32) -> (r: bool)
        ensures
            r == (published != old(self).last()),
            r == is_new(old(self).last(), published),
            final(self).last() == published,
    {
        let fresh: bool = published != self.last;
        self.last = published;
        fresh
    }
}

/// The figures of a run are its shares: of thirty frames on one core and on two, how
/// many times as fast in hundredths, and of the time a frame has in percent.
pub proof fn a_speed_up_is_a_ratio(single_us: u64, split_us: u64)
    ensures
        ({
            let s = speed_of(single_us, split_us);
            &&& s.one_us * 30 <= single_us < (s.one_us + 1) * 30
            &&& s.two_us * 30 <= split_us < (s.two_us + 1) * 30
            &&& s.percent * 16_667 <= s.two_us * 100 < (s.percent + 1) * 16_667
            &&& s.two_us == 0 ==> s.speedup_centi == 0
            &&& s.two_us > 0 ==> s.speedup_centi * s.two_us <= s.one_us * 100 < (s.speedup_centi
                + 1) * s.two_us
        }),
{
    let one = (single_us / 30) as int;
    let two = (split_us / 30) as int;
    if two > 0 {
        let q = one * 100 / two;
        vstd::arithmetic::div_mod::lemma_fundamental_div_mod(one * 100, two);
        vstd::arithmetic::div_mod::lemma_mod_bound(one * 100, two);
        assert((q + 1) * two == two * q + two && q * two == two * q) by (nonlinear_arith);
        assert(0 <= q <= one * 100) by (nonlinear_arith)
            requires
                two > 0,
                one >= 0,
                q == one * 100 / two,
        ;
    }
}

/// Every pixel that differs is counted once: one pixel more on both pictures is one
/// difference more if it differs and none if it does not. The order of the two
/// makes no difference.
pub proof fn every_pixel_that_differs_is_counted(a: Seq<Rgb>, b: Seq<Rgb>, p: Rgb, q: Rgb)
    requires
        a.len() == b.len(),
    ensures
        differing(a.push(p), b.push(q)) == differing(a, b) + if p.r == q.r && p.g == q.g && p.b
            == q.b {
            0nat
        } else {
            1nat
        },
        differing(Seq::empty(), Seq::empty()) == 0,
        differing(a, b) == differing(b, a),
{
    what_is_behind_does_not_count(a, b, a.push(p), b.push(q), a.len() as int);
    differences_go_both_ways(a, b, a.len() as int);
}

proof fn what_is_behind_does_not_count(
    a: Seq<Rgb>,
    b: Seq<Rgb>,
    c: Seq<Rgb>,
    d: Seq<Rgb>,
    n: int,
)
    requires
        0 <= n <= a.len(),
        n <= b.len(),
        n <= c.len(),
        n <= d.len(),
        forall|i: int| 0 <= i < n ==> a[i] == c[i] && b[i] == d[i],
    ensures
        differing_in(a, b, n) == differing_in(c, d, n),
    decreases n,
{
    if n > 0 {
        what_is_behind_does_not_count(a, b, c, d, n - 1);
    }
}

proof fn differences_go_both_ways(a: Seq<Rgb>, b: Seq<Rgb>, n: int)
    ensures
        differing_in(a, b, n) == differing_in(b, a, n),
    decreases n,
{
    if n > 0 {
        differences_go_both_ways(a, b, n - 1);
    }
}

/// Of a joined picture the front is what was there, and the back is what the other
/// core left, from its start.
pub proof fn a_joined_picture_has_its_two_parts<T>(out: Seq<T>, back: Seq<T>, front: int, i: int)
    requires
        0 <= front <= out.len(),
        out.len() - front <= back.len(),
        0 <= i < out.len(),
    ensures
        joined(out, back, front).len() == out.len(),
        joined(out, back, front)[i] == if i < front {
            out[i]
        } else {
            back[i - front]
        },
{
}

/// A frame is drawn once, however often its number is seen: the number that was drawn
/// last is not new, and every other is.
pub proof fn a_frame_is_drawn_once(last: u32, published: u32)
    ensures
        !is_new(published, published),
        last != published ==> is_new(last, published),
{
}

} // verus!
