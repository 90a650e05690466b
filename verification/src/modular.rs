//! Signed 64-bit arithmetic that wraps.
//!
//! Timestamps come off the wire and offsets are differences of timestamps, so
//! nothing bounds them. They are combined modulo two to the sixty-fourth: a wild
//! timestamp gives a wild figure, never a fault.

use vstd::prelude::*;

verus! {

/// The absolute value, modulo two to the sixty-fourth: the one value without a
/// representable magnitude stands for itself.
pub open spec fn magnitude(x: i64) -> i64 {
    if x < 0 && x != i64::MIN {
        (-x) as i64
    } else {
        x
    }
}

/// How far apart two values are, modulo two to the sixty-fourth.
pub open spec fn distance(a: i64, b: i64) -> i64 {
    magnitude(a.wrapping_sub(b))
}

/// The larger of two values.
pub open spec fn larger(a: i64, b: i64) -> i64 {
    if a >= b {
        a
    } else {
        b
    }
}

/// An unsigned value read as two's complement.
pub open spec fn signed(x: u64) -> i64 {
    if x <= i64::MAX {
        x as i64
    } else {
        (x - 0x1_0000_0000_0000_0000) as i64
    }
}

/// Half of a value, rounded towards zero.
pub open spec fn half_towards_zero(x: int) -> int {
    if x >= 0 {
        x / 2
    } else {
        -((-x) / 2)
    }
}

/// A quotient rounded towards zero.
pub open spec fn quotient_towards_zero(x: int, n: int) -> int {
    if x >= 0 {
        x / n
    } else {
        -((-x) / n)
    }
}

/// The mean of `n` values whose sum is `sum`, rounded towards zero.
pub fn mean_of(sum: i128, n: u64) -> (r: i64)
    requires
        n > 0,
        n * i64::MIN <= sum <= n * i64::MAX,
    ensures
        r == quotient_towards_zero(sum as int, n as int),
{
    proof {
        let s = sum as int;
        let k = n as int;
        assert(s >= 0 ==> 0 <= s / k <= i64::MAX) by (nonlinear_arith)
            requires
                k > 0,
                s <= k * i64::MAX,
        ;
        assert(s < 0 ==> 0 <= (-s) / k <= -i64::MIN) by (nonlinear_arith)
            requires
                k > 0,
                k * i64::MIN <= s,
        ;
        assert(-0x8000_0000_0000_0000_0000_0000_0000_0000 < s) by (nonlinear_arith)
            requires
                s >= k * i64::MIN,
                0 < k <= u64::MAX,
        ;
    }
    if sum >= 0 {
        (sum as u128 / n as u128) as i64
    } else {
        let q: u128 = (-sum) as u128 / n as u128;
        (-(q as i128)) as i64
    }
}

/// One more value keeps a sum within what so many values can come to.
pub proof fn a_sum_stays_in_range(sum: int, n: nat, x: i64)
    requires
        n * i64::MIN <= sum <= n * i64::MAX,
        n < u64::MAX,
    ensures
        (n + 1) * i64::MIN <= sum + x <= (n + 1) * i64::MAX,
        i128::MIN <= sum + x <= i128::MAX,
{
    assert((n + 1) * i64::MIN == n * i64::MIN + i64::MIN) by (nonlinear_arith);
    assert((n + 1) * i64::MAX == n * i64::MAX + i64::MAX) by (nonlinear_arith);
    assert((n + 1) * i64::MIN >= i128::MIN) by (nonlinear_arith)
        requires
            n < u64::MAX,
    ;
    assert((n + 1) * i64::MAX <= i128::MAX) by (nonlinear_arith)
        requires
            n < u64::MAX,
    ;
}

pub fn magnitude_of(x: i64) -> (r: i64)
    ensures
        r == magnitude(x),
{
    if x < 0 && x != i64::MIN {
        -x
    } else {
        x
    }
}

pub fn distance_between(a: i64, b: i64) -> (r: i64)
    ensures
        r == distance(a, b),
{
    magnitude_of(a.wrapping_sub(b))
}

pub fn larger_of(a: i64, b: i64) -> (r: i64)
    ensures
        r == larger(a, b),
{
    if a >= b {
        a
    } else {
        b
    }
}

pub fn signed_of(x: u64) -> (r: i64)
    ensures
        r == signed(x),
{
    let r: i64 = x as i64;
    proof {
        assert(x <= i64::MAX ==> r == x) by (bit_vector)
            requires
                r == x as i64,
        ;
        assert(x > i64::MAX ==> r == x - 0x1_0000_0000_0000_0000) by (bit_vector)
            requires
                r == x as i64,
        ;
    }
    r
}

/// Two values whose difference is representable are as far apart as they look.
pub proof fn distance_is_exact(a: i64, b: i64)
    requires
        i64::MIN < a - b <= i64::MAX,
    ensures
        distance(a, b) == if a >= b {
            a - b
        } else {
            b - a
        },
        distance(a, b) == distance(b, a),
{
}

/// A product that is representable is not changed by the wrapping.
pub proof fn product_is_exact(a: i64, b: i64)
    requires
        i64::MIN <= a * b <= i64::MAX,
    ensures
        a.wrapping_mul(b) == a * b,
{
    let x: int = a * b;
    let range: int = 0x1_0000_0000_0000_0000;
    if x >= 0 {
        vstd::arithmetic::div_mod::lemma_small_mod(x as nat, range as nat);
    } else {
        vstd::arithmetic::div_mod::lemma_mod_add_multiples_vanish(x, range);
        vstd::arithmetic::div_mod::lemma_small_mod((x + range) as nat, range as nat);
    }
}

/// A magnitude is a value without its sign, wherever there is one to take away.
pub proof fn a_magnitude_has_no_sign(x: i64)
    ensures
        x != i64::MIN ==> magnitude(x) >= 0,
        x >= 0 ==> magnitude(x) == x,
        x < 0 && x != i64::MIN ==> magnitude(x) == -x,
        x == i64::MIN ==> magnitude(x) == i64::MIN,
{
}

/// The larger of two values is one of them, and neither is larger.
pub proof fn the_larger_is_one_of_the_two(a: i64, b: i64)
    ensures
        larger(a, b) >= a,
        larger(a, b) >= b,
        larger(a, b) == a || larger(a, b) == b,
{
}

/// Reading a value as two's complement changes it by nothing, or by two to the
/// sixty-fourth: differences of timestamps are what they were.
pub proof fn reading_as_signed_keeps_differences(a: u64, b: u64)
    ensures
        signed(a) == a || signed(a) == a - 0x1_0000_0000_0000_0000,
        i64::MIN <= a - b <= i64::MAX ==> signed(a).wrapping_sub(signed(b)) == a - b,
{
}

/// Rounding towards zero never adds to a quotient, and takes away less than one.
pub proof fn a_quotient_is_rounded_towards_zero(x: int, n: int)
    requires
        n > 0,
    ensures
        x >= 0 ==> 0 <= quotient_towards_zero(x, n) && quotient_towards_zero(x, n) * n <= x < (
        quotient_towards_zero(x, n) + 1) * n,
        x <= 0 ==> quotient_towards_zero(x, n) <= 0 && (quotient_towards_zero(x, n) - 1) * n < x
            <= quotient_towards_zero(x, n) * n,
        half_towards_zero(x) == quotient_towards_zero(x, 2),
{
    vstd::arithmetic::div_mod::lemma_fundamental_div_mod(x, n);
    vstd::arithmetic::div_mod::lemma_fundamental_div_mod(-x, n);
    let q = x / n;
    let p = (-x) / n;
    assert(0 <= x % n < n && 0 <= (-x) % n < n) by {
        vstd::arithmetic::div_mod::lemma_mod_bound(x, n);
        vstd::arithmetic::div_mod::lemma_mod_bound(-x, n);
    }
    assert((q + 1) * n == n * q + n && q * n == n * q) by (nonlinear_arith);
    assert((-p - 1) * n == -(n * p) - n && (-p) * n == -(n * p)) by (nonlinear_arith);
    assert(x >= 0 ==> q >= 0) by (nonlinear_arith)
        requires
            n > 0,
            q == x / n,
    ;
    assert(x <= 0 ==> p >= 0) by (nonlinear_arith)
        requires
            n > 0,
            p == (-x) / n,
    ;
    if x == 0 {
        assert(q == 0) by (nonlinear_arith)
            requires
                n > 0,
                q == 0int / n,
        ;
    }
}

/// The sum of a run of values.
pub open spec fn sum(values: Seq<int>) -> int
    decreases values.len(),
{
    if values.len() == 0 {
        0
    } else {
        sum(values.drop_last()) + values.last()
    }
}

/// Whatever is taken from whatever, the difference is the right one up to a multiple
/// of two to the sixty-fourth; and a distance is the magnitude of that.
pub proof fn differences_wrap(a: u64, b: u64, x: i64, y: i64)
    ensures
        exists|k: int|
            -1 <= k <= 1 && signed(a).wrapping_sub(signed(b)) == a - b + #[trigger] (k
                * 0x1_0000_0000_0000_0000),
        exists|k: int|
            -1 <= k <= 1 && x.wrapping_sub(y) == x - y + #[trigger] (k * 0x1_0000_0000_0000_0000)
                && (distance(x, y) == x.wrapping_sub(y) || distance(x, y) == -x.wrapping_sub(y)),
        distance(x, y) >= 0 || distance(x, y) == i64::MIN,
{
    let d = signed(a).wrapping_sub(signed(b));
    let k: int = if d > a - b {
        1
    } else if d < a - b {
        -1
    } else {
        0
    };
    assert(d == a - b + k * 0x1_0000_0000_0000_0000);
    let e = x.wrapping_sub(y);
    let m: int = if e > x - y {
        1
    } else if e < x - y {
        -1
    } else {
        0
    };
    assert(e == x - y + m * 0x1_0000_0000_0000_0000);
}

/// A difference is the right one up to a multiple of two to the sixty-fourth.
pub proof fn a_difference_wraps(x: i64, y: i64) -> (k: int)
    ensures
        x.wrapping_sub(y) == x - y + k * 0x1_0000_0000_0000_0000,
        -1 <= k <= 1,
{
    if x - y > i64::MAX {
        -1
    } else if x - y < i64::MIN {
        1
    } else {
        0
    }
}

/// A sum is the right one up to a multiple of two to the sixty-fourth.
pub proof fn a_sum_wraps(x: i64, y: i64) -> (k: int)
    ensures
        x.wrapping_add(y) == x + y + k * 0x1_0000_0000_0000_0000,
        -1 <= k <= 1,
{
    if x + y > i64::MAX {
        -1
    } else if x + y < i64::MIN {
        1
    } else {
        0
    }
}

/// A reading as two's complement is the right one up to two to the sixty-fourth.
pub proof fn a_signed_reading_wraps(x: u64) -> (k: int)
    ensures
        signed(x) == x + k * 0x1_0000_0000_0000_0000,
        -1 <= k <= 0,
{
    if x <= i64::MAX {
        0
    } else {
        -1
    }
}

/// A product is the right one up to a multiple of two to the sixty-fourth.
pub proof fn a_product_wraps(a: i64, b: i64) -> (k: int)
    ensures
        a.wrapping_mul(b) == a * b + k * 0x1_0000_0000_0000_0000,
{
    let x: int = a * b;
    let range: int = 0x1_0000_0000_0000_0000;
    vstd::arithmetic::div_mod::lemma_fundamental_div_mod(x, range);
    vstd::arithmetic::div_mod::lemma_mod_bound(x, range);
    let q = x / range;
    let r = a.wrapping_mul(b);
    assert(r == x % range || r == x % range - range);
    if r == x % range {
        -q
    } else {
        -q - 1
    }
}

} // verus!
