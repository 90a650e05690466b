//! Driving the strip from a shift register, so that the processor is not in the
//! loop.
//!
//! Each bit becomes four bits at 3.2 megahertz, so that a bit takes the 1.25
//! microseconds the part wants: `1000` for a zero, high for 312 nanoseconds, and
//! `1100` for a one, high for 625. The whole frame is written once into a buffer
//! that goes out with no further help.

use vstd::prelude::*;

use crate::device::strip::bit;
use crate::device::strip::led_bytes;
use crate::device::strip::leds_in;
use crate::device::strip::wire;
use crate::device::strip::wire_byte_of;
use crate::device::strip::Format;

verus! {

/// The clock that makes the patterns land inside the part's timing windows.
pub const CLOCK_HZ: u32 = 3_200_000;

/// Two bits to a byte, so one byte becomes four.
pub const BYTES_PER_LED_BYTE: usize = 4;

/// The four-bit patterns, two to a byte.
pub const PAIRS: [u8; 4] = [0b1000_1000, 0b1000_1100, 0b1100_1000, 0b1100_1100];

/// What each pair of bits in a byte is worth, most significant first.
pub const PAIR_WEIGHTS: [u8; 4] = [64, 16, 4, 1];

/// Bytes of buffer for `leds` LEDs of `per_led` bytes each.
pub open spec fn bytes_for(leds: nat, per_led: nat) -> nat {
    leds * per_led * 4
}

pub fn buffer_bytes(leds: usize, per_led: usize) -> (r: usize)
    requires
        bytes_for(leds as nat, per_led as nat) <= usize::MAX,
    ensures
        r == bytes_for(leds as nat, per_led as nat),
{
    assert(0 <= leds * per_led) by (nonlinear_arith);
    leds * per_led * BYTES_PER_LED_BYTE
}

/// The pattern that says a bit.
pub open spec fn nibble(set: bool) -> int {
    if set {
        0b1100
    } else {
        0b1000
    }
}

/// The patterns that say a run of bytes.
pub open spec fn patterns(bytes: Seq<u8>) -> Seq<u8> {
    Seq::new(
        bytes.len() * 4,
        |i: int|
            (nibble(bit(bytes[i / 4], 2 * (i % 4))) * 16 + nibble(
                bit(bytes[i / 4], 2 * (i % 4) + 1),
            )) as u8,
    )
}

/// Two bits of a byte, as a pattern.
fn pair_of(byte: u8, k: usize) -> (r: u8)
    requires
        k < 4,
    ensures
        r == nibble(bit(byte, 2 * k)) * 16 + nibble(bit(byte, 2 * k + 1)),
{
    let two: u8 = (byte / PAIR_WEIGHTS[k]) % 4;
    proof {
        pairs_are_two_bits(byte, PAIR_WEIGHTS[k as int]);
    }
    PAIRS[two as usize]
}

/// What the part reads from the four bytes of one: a pattern with its second bit
/// set is a one.
pub open spec fn read_back(sent: Seq<u8>, at: int) -> int {
    read_pair(sent[at]) * 64 + read_pair(sent[at + 1]) * 16 + read_pair(sent[at + 2]) * 4
        + read_pair(sent[at + 3])
}

/// The two bits that a byte of patterns says.
pub open spec fn read_pair(pattern: u8) -> int {
    2 * ((pattern as int / 64) % 2) + (pattern as int / 4) % 2
}

proof fn a_pattern_reads_as_its_bits(bytes: Seq<u8>, i: int, k: int)
    requires
        0 <= i < bytes.len(),
        0 <= k < 4,
    ensures
        read_pair(patterns(bytes)[4 * i + k]) == (bytes[i] as int / PAIR_WEIGHTS[k] as int) % 4,
{
    let b = bytes[i];
    assert((4 * i + k) / 4 == i && (4 * i + k) % 4 == k);
    let high = (b as int / (2 * PAIR_WEIGHTS[k])) % 2;
    let low = (b as int / PAIR_WEIGHTS[k] as int) % 2;
    assert(nibble(bit(b, 2 * k)) == 8 + 4 * high);
    assert(nibble(bit(b, 2 * k + 1)) == 8 + 4 * low);
    let p = patterns(bytes)[4 * i + k];
    assert(p == 136 + 64 * high + 4 * low);
    assert(high == 0 || high == 1);
    assert(low == 0 || low == 1);
    assert(read_pair(p) == 2 * high + low);
    let w = PAIR_WEIGHTS[k];
    assert(w == 64 || w == 16 || w == 4 || w == 1);
    pairs_are_two_bits(b, w);
}

proof fn pairs_are_two_bits(b: u8, w: u8)
    requires
        w == 64 || w == 16 || w == 4 || w == 1,
    ensures
        (b / w) % 4 == 2 * ((b as int / (2 * w)) % 2) + (b as int / w as int) % 2,
{
    assert((b / w) % 4 == 2 * ((b / ((2 * w) as u8)) % 2) + (b / w) % 2) by (bit_vector)
        requires
            w == 64 || w == 16 || w == 4 || w == 1,
    ;
}

/// A part that tells the patterns apart by their high times reads exactly the
/// bytes that were sent.
pub proof fn a_strip_reads_what_was_sent(bytes: Seq<u8>, i: int)
    requires
        0 <= i < bytes.len(),
    ensures
        read_back(patterns(bytes), 4 * i) == bytes[i],
{
    let b = bytes[i];
    let p = patterns(bytes);
    a_pattern_reads_as_its_bits(bytes, i, 0);
    a_pattern_reads_as_its_bits(bytes, i, 1);
    a_pattern_reads_as_its_bits(bytes, i, 2);
    a_pattern_reads_as_its_bits(bytes, i, 3);
    assert(read_pair(p[4 * i]) == (b / 64) % 4);
    assert(read_pair(p[4 * i + 1]) == (b / 16) % 4);
    assert(read_pair(p[4 * i + 2]) == (b / 4) % 4);
    assert(read_pair(p[4 * i + 3]) == b % 4);
    assert(b == (b / 64) % 4 * 64 + (b / 16) % 4 * 16 + (b / 4) % 4 * 4 + b % 4) by (bit_vector);
}

/// An addressable strip that takes patterns.
pub struct DmaStrip {
    format: Format,
}

impl View for DmaStrip {
    type V = Format;

    closed spec fn view(&self) -> Format {
        self.format
    }
}

impl DmaStrip {
    pub fn new(format: Format) -> (r: DmaStrip)
        ensures
            r@ == format,
    {
        DmaStrip { format }
    }

    /// Encode `pixels`, three bytes per LED in red, green, blue. How many bytes
    /// of `scratch` are to be sent; an error if it is too short.
    ///
    /// What `scratch` holds behind the frame stays.
    pub fn write(&self, pixels: &[u8], scratch: &mut [u8]) -> (r: Result<usize, ()>)
        ensures
            r is Ok <==> bytes_for(leds_in(pixels@), led_bytes(self@)) <= old(scratch)@.len(),
            r matches Ok(n) ==> {
                &&& n == bytes_for(leds_in(pixels@), led_bytes(self@))
                &&& final(scratch)@ == patterns(wire(pixels@, self@)) + old(scratch)@.skip(n as int)
            },
            r is Err ==> final(scratch)@ == old(scratch)@,
    {
        let per_led: usize = self.format.bytes_per_led();
        let leds: usize = pixels.len() / 3;
        let room: usize = scratch.len();
        if room / 4 / per_led < leds {
            return Err(());
        }
        let bytes: usize = leds * per_led;
        let ghost sent = wire(pixels@, self@);
        assert(sent.len() == bytes);
        let mut i: usize = 0;
        assert(scratch@ =~= patterns(sent).take(0) + old(scratch)@.skip(0));
        while i < bytes
            invariant
                i <= bytes,
                bytes == leds * per_led,
                bytes * 4 <= room,
                room == scratch@.len() == old(scratch)@.len(),
                leds == leds_in(pixels@),
                per_led == led_bytes(self@),
                sent == wire(pixels@, self@),
                sent.len() == bytes,
                scratch@ == patterns(sent).take(i * 4) + old(scratch)@.skip(i * 4),
            decreases bytes - i,
        {
            let byte: u8 = wire_byte_of(pixels, i / per_led, i % per_led);
            assert(byte == sent[i as int]);
            let mut k: usize = 0;
            while k < 4
                invariant
                    k <= 4,
                    i < bytes,
                    bytes * 4 <= room,
                    room == scratch@.len() == old(scratch)@.len(),
                    sent.len() == bytes,
                    byte == sent[i as int],
                    scratch@ == patterns(sent).take(i * 4 + k) + old(scratch)@.skip(i * 4 + k),
                decreases 4 - k,
            {
                let pattern: u8 = pair_of(byte, k);
                assert((i * 4 + k) / 4 == i && (i * 4 + k) % 4 == k as int);
                assert(patterns(sent)[i * 4 + k] == pattern);
                scratch[i * 4 + k] = pattern;
                k = k + 1;
                assert(scratch@ =~= patterns(sent).take(i * 4 + k) + old(scratch)@.skip(
                    i * 4 + k,
                ));
            }
            i = i + 1;
        }
        assert(patterns(sent).take(i * 4) =~= patterns(sent));
        Ok(bytes * 4)
    }
}

/// Each bit is four ticks that start high and end low: a one is high for two of
/// them and a zero for one. Two bits go out to a byte, most significant first.
pub proof fn a_bit_is_four_ticks(bytes: Seq<u8>, i: int, k: int)
    requires
        0 <= i < bytes.len(),
        0 <= k < 4,
    ensures
        patterns(bytes).len() == 4 * bytes.len(),
        ({
            let sent = patterns(bytes)[4 * i + k] as int;
            let first = bit(bytes[i], 2 * k);
            let second = bit(bytes[i], 2 * k + 1);
            &&& sent / 16 == if first {
                0b1100int
            } else {
                0b1000int
            }
            &&& sent % 16 == if second {
                0b1100int
            } else {
                0b1000int
            }
        }),
{
    assert((4 * i + k) / 4 == i && (4 * i + k) % 4 == k);
}

/// A frame takes four bytes for each that goes to the strip.
pub proof fn a_frame_takes_four_bytes_for_one(pixels: Seq<u8>, format: Format)
    ensures
        patterns(wire(pixels, format)).len() == bytes_for(leds_in(pixels), led_bytes(format)),
        patterns(wire(pixels, format)).len() == 4 * wire(pixels, format).len(),
{
}

} // verus!
