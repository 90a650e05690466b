//! Little-endian fields, as every message here carries them.

use vstd::prelude::*;

verus! {

/// How many values `n` bytes can hold.
pub open spec fn reach(n: nat) -> nat
    decreases n,
{
    if n == 0 {
        1
    } else {
        256 * reach((n - 1) as nat)
    }
}

/// The value of a field, least significant byte first.
pub open spec fn value(bytes: Seq<u8>) -> nat
    decreases bytes.len(),
{
    if bytes.len() == 0 {
        0
    } else {
        bytes[0] as nat + 256 * value(bytes.drop_first())
    }
}

/// The `n` bytes of a field that holds `v`.
pub open spec fn field(v: nat, n: nat) -> Seq<u8>
    decreases n,
{
    if n == 0 {
        Seq::empty()
    } else {
        seq![(v % 256) as u8] + field(v / 256, (n - 1) as nat)
    }
}

/// A field is as long as it was asked to be.
pub proof fn field_has_its_length(v: nat, n: nat)
    ensures
        field(v, n).len() == n,
    decreases n,
{
    if n > 0 {
        field_has_its_length(v / 256, (n - 1) as nat);
    }
}

/// A field of `n` bytes holds less than the reach of `n`.
pub proof fn value_is_within_reach(bytes: Seq<u8>)
    ensures
        value(bytes) < reach(bytes.len()),
    decreases bytes.len(),
{
    if bytes.len() > 0 {
        value_is_within_reach(bytes.drop_first());
    }
}

/// Reading a field gives back what was written into it.
pub proof fn value_of_field(v: nat, n: nat)
    requires
        v < reach(n),
    ensures
        value(field(v, n)) == v,
        field(v, n).len() == n,
    decreases n,
{
    if n > 0 {
        let rest = field(v / 256, (n - 1) as nat);
        value_of_field(v / 256, (n - 1) as nat);
        assert(field(v, n).drop_first() =~= rest);
    }
}

/// Writing what was read from a field gives back its bytes.
pub proof fn field_of_value(bytes: Seq<u8>)
    ensures
        field(value(bytes), bytes.len()) == bytes,
    decreases bytes.len(),
{
    if bytes.len() > 0 {
        field_of_value(bytes.drop_first());
        let v = value(bytes);
        assert(v % 256 == bytes[0]);
        assert(v / 256 == value(bytes.drop_first()));
        assert(field(v, bytes.len()) =~= bytes);
    } else {
        assert(field(0, 0) =~= bytes);
    }
}

pub proof fn reaches()
    ensures
        reach(2) == 0x1_0000,
        reach(4) == 0x1_0000_0000,
        reach(8) == 0x1_0000_0000_0000_0000,
{
    reveal_with_fuel(reach, 9);
}

/// The value of the `n` bytes from `at` on.
pub fn read(bytes: &[u8], at: usize, n: usize) -> (r: u64)
    requires
        n <= 8,
        at + n <= bytes@.len(),
    ensures
        r == value(bytes@.subrange(at as int, at + n)),
        r < reach(n as nat),
{
    let len: usize = bytes.len();
    let mut v: u64 = 0;
    let mut i: usize = n;
    proof {
        assert(bytes@.subrange(at + n, at + n) =~= Seq::<u8>::empty());
        value_is_within_reach(bytes@.subrange(at as int, at + n));
    }
    while i > 0
        invariant
            i <= n <= 8,
            at + n <= len,
            len == bytes@.len(),
            v == value(bytes@.subrange(at + i, at + n)),
        decreases i,
    {
        proof {
            let tail = bytes@.subrange(at + i, at + n);
            let more = bytes@.subrange(at + i - 1, at + n);
            assert(more.drop_first() =~= tail);
            value_is_within_reach(tail);
            reveal_with_fuel(reach, 9);
        }
        i = i - 1;
        v = v * 256 + bytes[at + i] as u64;
    }
    v
}

/// The eight bytes at `at`, if there are so many.
pub fn u64_at(bytes: &[u8], at: usize) -> (r: Option<u64>)
    ensures
        r is Some <==> at + 8 <= bytes@.len(),
        r matches Some(v) ==> v == value(bytes@.subrange(at as int, at + 8)),
{
    if bytes.len() >= 8 && at <= bytes.len() - 8 {
        Some(read(bytes, at, 8))
    } else {
        None
    }
}

pub fn u16_bytes(v: u16) -> (r: [u8; 2])
    ensures
        r@ == field(v as nat, 2),
{
    let r: [u8; 2] = [(v % 256) as u8, (v / 256) as u8];
    proof {
        reveal_with_fuel(field, 3);
        assert(r@ =~= field(v as nat, 2));
    }
    r
}

pub fn u32_bytes(v: u32) -> (r: [u8; 4])
    ensures
        r@ == field(v as nat, 4),
{
    let a: u32 = v / 256;
    let b: u32 = a / 256;
    let c: u32 = b / 256;
    let r: [u8; 4] = [(v % 256) as u8, (a % 256) as u8, (b % 256) as u8, (c % 256) as u8];
    proof {
        reveal_with_fuel(field, 5);
        assert(r@ =~= field(v as nat, 4));
    }
    r
}

pub fn u64_bytes(v: u64) -> (r: [u8; 8])
    ensures
        r@ == field(v as nat, 8),
{
    let a: u64 = v / 256;
    let b: u64 = a / 256;
    let c: u64 = b / 256;
    let d: u64 = c / 256;
    let e: u64 = d / 256;
    let f: u64 = e / 256;
    let g: u64 = f / 256;
    let r: [u8; 8] = [
        (v % 256) as u8,
        (a % 256) as u8,
        (b % 256) as u8,
        (c % 256) as u8,
        (d % 256) as u8,
        (e % 256) as u8,
        (f % 256) as u8,
        (g % 256) as u8,
    ];
    proof {
        reveal_with_fuel(field, 9);
        assert(r@ =~= field(v as nat, 8));
    }
    r
}

/// Two bytes are worth so much.
pub proof fn two_bytes(bytes: Seq<u8>)
    requires
        bytes.len() == 2,
    ensures
        value(bytes) == bytes[0] + 256 * bytes[1],
        value(bytes) <= u16::MAX,
{
    reveal_with_fuel(value, 3);
}

/// Four bytes are worth so much.
pub proof fn four_bytes(bytes: Seq<u8>)
    requires
        bytes.len() == 4,
    ensures
        value(bytes) == bytes[0] + 256 * bytes[1] + 65_536 * bytes[2] + 16_777_216 * bytes[3],
        value(bytes) <= u32::MAX,
{
    reveal_with_fuel(value, 5);
}

/// Of a field, each byte is worth two hundred and fifty-six times the one before
/// it: what is behind the first is the same field a byte shorter.
pub proof fn each_byte_is_worth_more_than_the_last(bytes: Seq<u8>, i: int)
    requires
        0 <= i <= bytes.len(),
    ensures
        value(bytes) == value(bytes.take(i)) + reach(i as nat) * value(bytes.skip(i)),
    decreases i,
{
    if i == 0 {
        assert(value(bytes.take(0)) == 0);
        assert(bytes.skip(0) =~= bytes);
        let w = reach(0);
        let v = value(bytes.skip(0));
        assert(w * v == v) by (nonlinear_arith)
            requires
                w == 1,
        ;
    } else {
        let rest = bytes.drop_first();
        each_byte_is_worth_more_than_the_last(rest, i - 1);
        assert(bytes.take(i).drop_first() =~= rest.take(i - 1));
        assert(rest.skip(i - 1) =~= bytes.skip(i));
        let r = reach((i - 1) as nat);
        let v = value(bytes.skip(i));
        assert(bytes.take(i)[0] == bytes[0]);
        assert(reach(i as nat) == 256 * r);
        let a = value(rest.take(i - 1));
        assert(value(bytes) == bytes[0] + 256 * (a + r * v));
        let w = reach(i as nat);
        assert(256 * (a + r * v) == 256 * a + w * v) by (nonlinear_arith)
            requires
                w == 256 * r,
        ;
    }
}

} // verus!
