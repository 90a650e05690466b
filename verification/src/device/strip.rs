//! Driving an addressable strip, one pulse to a bit.
//!
//! The parts all speak the same one-wire protocol: a bit is a pulse whose high
//! time says whether it is a one or a zero, and a long low period latches the
//! frame. The peripheral takes a list of pulses and does the timing.
//!
//! These parts take green, red, blue, in that order. Getting it wrong does not
//! fail, it swaps two colours, which looks like a bad effect rather than a bad
//! driver.

use vstd::prelude::*;

verus! {

/// What one LED consumes.
#[derive(Clone, Copy, PartialEq, Eq, Debug, Structural)]
pub enum Format {
    /// Twenty-four bits: green, red, blue.
    Grb,
    /// Thirty-two bits: green, red, blue, and a dedicated white.
    Grbw,
}

/// Bytes of one LED.
pub open spec fn led_bytes(format: Format) -> nat {
    match format {
        Format::Grb => 3,
        Format::Grbw => 4,
    }
}

impl Format {
    pub fn bytes_per_led(self) -> (r: usize)
        ensures
            r == led_bytes(self),
    {
        match self {
            Format::Grb => 3,
            Format::Grbw => 4,
        }
    }

    pub fn name(self) -> (r: &'static str)
        ensures
            r@ == match self {
                Format::Grb => "GRB (24-bit)"@,
                Format::Grbw => "GRBW (32-bit)"@,
            },
    {
        match self {
            Format::Grb => "GRB (24-bit)",
            Format::Grbw => "GRBW (32-bit)",
        }
    }
}

/// The clock of the peripheral, in megahertz. One tick is 12.5 nanoseconds.
pub const CLOCK_MHZ: u32 = 80;

/// Pulse widths in ticks, in the middle of the windows that the parts allow.
pub const T0H: u16 = 26;

pub const T0L: u16 = 70;

pub const T1H: u16 = 52;

pub const T1L: u16 = 44;

/// The longest strip that is driven in one transaction.
pub const MAX_LEDS: usize = 300;

/// The code that ends a transmission.
pub const END: u32 = 0;

/// What the bits of a byte are worth, most significant first.
pub const WEIGHTS: [u8; 8] = [128, 64, 32, 16, 8, 4, 2, 1];

/// Words of buffer for `leds` LEDs of `format_bytes` bytes each: one to a bit,
/// and one that ends the transmission.
pub open spec fn words_for(leds: nat, format_bytes: nat) -> nat {
    leds * format_bytes * 8 + 1
}

pub fn buffer_words(leds: usize, format_bytes: usize) -> (r: usize)
    requires
        words_for(leds as nat, format_bytes as nat) <= usize::MAX,
    ensures
        r == words_for(leds as nat, format_bytes as nat),
{
    assert(0 <= leds * format_bytes) by (nonlinear_arith);
    leds * format_bytes * 8 + 1
}

/// Bit `k` of a byte, most significant first.
pub open spec fn bit(byte: u8, k: int) -> bool {
    (byte as int / WEIGHTS[k] as int) % 2 == 1
}

pub fn bit_of(byte: u8, k: usize) -> (r: bool)
    requires
        k < 8,
    ensures
        r == bit(byte, k as int),
{
    (byte / WEIGHTS[k]) % 2 == 1
}

/// A pulse that is high for `high` ticks and then low for `low`.
pub open spec fn pulse(high: u16, low: u16) -> int {
    0x8000 + high + 0x1_0000 * low
}

/// The pulse that says a bit.
pub open spec fn bit_pulse(set: bool) -> u32 {
    if set {
        pulse(T1H, T1L) as u32
    } else {
        pulse(T0H, T0L) as u32
    }
}

/// A pulse that is high and then low, as the peripheral encodes it: a level bit
/// over fifteen bits of length, for each half.
pub fn pulse_of(high: u16, low: u16) -> (r: u32)
    requires
        high < 0x8000,
        low < 0x8000,
    ensures
        r == pulse(high, low),
{
    0x8000 + high as u32 + 0x1_0000 * low as u32
}

/// How many whole LEDs there are in a picture of three bytes each.
pub open spec fn leds_in(pixels: Seq<u8>) -> nat {
    pixels.len() / 3
}

/// Byte `k` of an LED on the wire: green, red, blue, and no white.
///
/// White is mixed from the colours, exactly as every other device in the mesh
/// mixes it.
pub open spec fn wire_byte(pixels: Seq<u8>, led: int, k: int) -> u8 {
    if k == 0 {
        pixels[led * 3 + 1]
    } else if k == 1 {
        pixels[led * 3]
    } else if k == 2 {
        pixels[led * 3 + 2]
    } else {
        0
    }
}

/// A picture in red, green, blue, as the bytes that go to the strip.
pub open spec fn wire(pixels: Seq<u8>, format: Format) -> Seq<u8> {
    Seq::new(
        leds_in(pixels) * led_bytes(format),
        |i: int| wire_byte(pixels, i / led_bytes(format) as int, i % led_bytes(format) as int),
    )
}

/// The pulses that say a run of bytes.
pub open spec fn pulses(bytes: Seq<u8>) -> Seq<u32> {
    Seq::new(bytes.len() * 8, |i: int| bit_pulse(bit(bytes[i / 8], i % 8)))
}

/// A whole frame: the pulses of the picture, and the end.
pub open spec fn frame(pixels: Seq<u8>, format: Format) -> Seq<u32> {
    pulses(wire(pixels, format)).push(END)
}

/// Each LED's bytes are where the strip expects them.
pub proof fn the_wire_is_green_red_blue(pixels: Seq<u8>, format: Format, led: int)
    requires
        0 <= led < leds_in(pixels),
    ensures
        wire(pixels, format)[led * led_bytes(format)] == pixels[led * 3 + 1],
        wire(pixels, format)[led * led_bytes(format) + 1] == pixels[led * 3],
        wire(pixels, format)[led * led_bytes(format) + 2] == pixels[led * 3 + 2],
        format == Format::Grbw ==> wire(pixels, format)[led * led_bytes(format) + 3] == 0,
        wire(pixels, format).len() == leds_in(pixels) * led_bytes(format),
{
}

/// What the strip reads from eight pulses, as it does by their high times.
pub open spec fn read_back(codes: Seq<u32>, at: int) -> int {
    read_bit(codes[at]) * 128 + read_bit(codes[at + 1]) * 64 + read_bit(codes[at + 2]) * 32
        + read_bit(codes[at + 3]) * 16 + read_bit(codes[at + 4]) * 8 + read_bit(codes[at + 5]) * 4
        + read_bit(codes[at + 6]) * 2 + read_bit(codes[at + 7])
}

/// A pulse that is high for longer than half way between the two widths is a
/// one.
pub open spec fn read_bit(code: u32) -> int {
    if 2 * (code as int % 0x8000) > T0H + T1H {
        1
    } else {
        0
    }
}

proof fn the_bits_of_a_byte_are_the_byte(b: u8)
    ensures
        b == (b / 128) % 2 * 128 + (b / 64) % 2 * 64 + (b / 32) % 2 * 32 + (b / 16) % 2 * 16 + (b
            / 8) % 2 * 8 + (b / 4) % 2 * 4 + (b / 2) % 2 * 2 + b % 2,
{
    assert(b == (b / 128) % 2 * 128 + (b / 64) % 2 * 64 + (b / 32) % 2 * 32 + (b / 16) % 2 * 16 + (
    b / 8) % 2 * 8 + (b / 4) % 2 * 4 + (b / 2) % 2 * 2 + b % 2) by (bit_vector);
}

proof fn a_pulse_reads_as_its_bit(bytes: Seq<u8>, i: int, k: int)
    requires
        0 <= i < bytes.len(),
        0 <= k < 8,
    ensures
        read_bit(pulses(bytes)[8 * i + k]) == (bytes[i] as int / WEIGHTS[k] as int) % 2,
{
    assert((8 * i + k) / 8 == i && (8 * i + k) % 8 == k);
    assert(pulses(bytes)[8 * i + k] == bit_pulse(bit(bytes[i], k)));
}

/// A strip that tells the pulses apart by their high times reads exactly the
/// bytes that were sent.
pub proof fn a_strip_reads_what_was_sent(bytes: Seq<u8>, i: int)
    requires
        0 <= i < bytes.len(),
    ensures
        read_back(pulses(bytes), 8 * i) == bytes[i],
{
    let b = bytes[i];
    let c = pulses(bytes);
    the_bits_of_a_byte_are_the_byte(b);
    a_pulse_reads_as_its_bit(bytes, i, 0);
    a_pulse_reads_as_its_bit(bytes, i, 1);
    a_pulse_reads_as_its_bit(bytes, i, 2);
    a_pulse_reads_as_its_bit(bytes, i, 3);
    a_pulse_reads_as_its_bit(bytes, i, 4);
    a_pulse_reads_as_its_bit(bytes, i, 5);
    a_pulse_reads_as_its_bit(bytes, i, 6);
    a_pulse_reads_as_its_bit(bytes, i, 7);
    assert(read_bit(c[8 * i]) == (b / 128) % 2);
    assert(read_bit(c[8 * i + 1]) == (b / 64) % 2);
    assert(read_bit(c[8 * i + 2]) == (b / 32) % 2);
    assert(read_bit(c[8 * i + 3]) == (b / 16) % 2);
    assert(read_bit(c[8 * i + 4]) == (b / 8) % 2);
    assert(read_bit(c[8 * i + 5]) == (b / 4) % 2);
    assert(read_bit(c[8 * i + 6]) == (b / 2) % 2);
    assert(read_bit(c[8 * i + 7]) == b % 2);
}

/// No pulse of a frame ends it early.
pub proof fn only_the_end_ends_a_frame(pixels: Seq<u8>, format: Format, i: int)
    requires
        0 <= i < frame(pixels, format).len(),
    ensures
        frame(pixels, format)[i] == END <==> i == frame(pixels, format).len() - 1,
{
}

/// Why a frame was not encoded.
#[derive(Clone, Copy, PartialEq, Eq, Debug)]
pub enum StripError {
    /// The buffer is too short for the picture.
    Overflow,
}

/// Byte `k` of an LED on the wire.
pub(crate) fn wire_byte_of(pixels: &[u8], led: usize, k: usize) -> (r: u8)
    requires
        led < leds_in(pixels@),
    ensures
        r == wire_byte(pixels@, led as int, k as int),
{
    let len: usize = pixels.len();
    assert(led * 3 + 2 < len);
    if k == 0 {
        pixels[led * 3 + 1]
    } else if k == 1 {
        pixels[led * 3]
    } else if k == 2 {
        pixels[led * 3 + 2]
    } else {
        0
    }
}

/// An addressable strip that takes pulses, on a channel of the peripheral.
pub struct Strip<C> {
    /// Gone while a frame is on its way.
    channel: Option<C>,
    format: Format,
}

pub struct StripView<C> {
    pub channel: Option<C>,
    pub format: Format,
}

impl<C> StripView<C> {
    /// While a frame is on its way.
    pub open spec fn transmitting(self) -> StripView<C> {
        StripView { channel: None, ..self }
    }

    /// Once a transmission is over, well or badly.
    pub open spec fn settled<E>(self, outcome: Result<C, (E, C)>) -> StripView<C> {
        StripView {
            channel: Some(
                match outcome {
                    Ok(channel) => channel,
                    Err((_, channel)) => channel,
                },
            ),
            ..self
        }
    }
}

impl<C> View for Strip<C> {
    type V = StripView<C>;

    closed spec fn view(&self) -> StripView<C> {
        StripView { channel: self.channel, format: self.format }
    }
}

/// One bad frame is not the end of all output: however a transmission goes, the
/// strip has a channel for the next one.
pub proof fn a_failed_frame_keeps_the_channel<C, E>(
    strip: StripView<C>,
    outcome: Result<C, (E, C)>,
)
    ensures
        strip.transmitting().settled(outcome).channel is Some,
        strip.transmitting().settled(outcome).format == strip.format,
{
}

impl<C> Strip<C> {
    pub fn new(channel: C, format: Format) -> (r: Strip<C>)
        ensures
            r@ == (StripView { channel: Some(channel), format }),
    {
        Strip { channel: Some(channel), format }
    }

    pub fn format(&self) -> (r: Format)
        ensures
            r == self@.format,
    {
        self.format
    }

    /// Whether the strip holds its channel, and can be written to.
    pub fn is_ready(&self) -> (r: bool)
        ensures
            r == (self@.channel is Some),
    {
        self.channel.is_some()
    }

    /// Encode `pixels`, three bytes per LED in red, green, blue. The channel to
    /// transmit on, and how many words of `scratch` to transmit; how that went
    /// is said to `sent`.
    ///
    /// What `scratch` holds behind the frame stays.
    pub fn write(&mut self, pixels: &[u8], scratch: &mut [u32]) -> (r: Result<
        (C, usize),
        StripError,
    >)
        requires
            old(self)@.channel is Some,
        ensures
            r is Ok <==> words_for(leds_in(pixels@), led_bytes(old(self)@.format)) <= old(
                scratch,
            )@.len(),
            r matches Ok((channel, n)) ==> {
                &&& Some(channel) == old(self)@.channel
                &&& final(self)@ == old(self)@.transmitting()
                &&& n == words_for(leds_in(pixels@), led_bytes(old(self)@.format))
                &&& final(scratch)@ == frame(pixels@, old(self)@.format) + old(scratch)@.skip(
                    n as int,
                )
            },
            r matches Err(e) ==> {
                &&& e == StripError::Overflow
                &&& final(self)@ == old(self)@
                &&& final(scratch)@ == old(scratch)@
            },
    {
        let words: usize = encode(self.format, pixels, scratch)?;
        let channel: C = self.channel.take().unwrap();
        Ok((channel, words))
    }

    /// A transmission is over. The channel is kept even if it failed: dropping
    /// it would make one bad frame the end of all output.
    pub fn sent<E>(&mut self, outcome: Result<C, (E, C)>) -> (r: Result<(), E>)
        ensures
            final(self)@ == old(self)@.settled(outcome),
            final(self)@.channel is Some,
            r == match outcome {
                Ok(_) => Ok(()),
                Err((e, _)) => Err(e),
            },
    {
        match outcome {
            Ok(channel) => {
                self.channel = Some(channel);
                Ok(())
            },
            Err((e, channel)) => {
                self.channel = Some(channel);
                Err(e)
            },
        }
    }
}

/// Encode a picture. How many words of `scratch` it takes.
fn encode(format: Format, pixels: &[u8], scratch: &mut [u32]) -> (r: Result<usize, StripError>)
    ensures
        r is Ok <==> words_for(leds_in(pixels@), led_bytes(format)) <= old(scratch)@.len(),
        r matches Ok(n) ==> {
            &&& n == words_for(leds_in(pixels@), led_bytes(format))
            &&& final(scratch)@ == frame(pixels@, format) + old(scratch)@.skip(n as int)
        },
        r matches Err(e) ==> e == StripError::Overflow && final(scratch)@ == old(scratch)@,
{
    let per_led: usize = format.bytes_per_led();
    let leds: usize = pixels.len() / 3;
    let room: usize = scratch.len();
    // One word to a bit and one more; divided rather than multiplied, so
    // that no length is too long to ask about.
    if room == 0 || (room - 1) / 8 / per_led < leds {
        return Err(StripError::Overflow);
    }
    let bytes: usize = leds * per_led;
    let ghost sent = wire(pixels@, format);
    assert(sent.len() == bytes);
    let mut i: usize = 0;
    while i < bytes
        invariant
            i <= bytes,
            bytes == leds * per_led,
            bytes * 8 + 1 <= room,
            room == scratch@.len() == old(scratch)@.len(),
            leds == leds_in(pixels@),
            per_led == led_bytes(format),
            sent == wire(pixels@, format),
            sent.len() == bytes,
            scratch@ == pulses(sent).take(i * 8) + old(scratch)@.skip(i * 8),
        decreases bytes - i,
    {
        let byte: u8 = wire_byte_of(pixels, i / per_led, i % per_led);
        assert(byte == sent[i as int]);
        let mut k: usize = 0;
        while k < 8
            invariant
                k <= 8,
                i < bytes,
                bytes * 8 + 1 <= room,
                room == scratch@.len() == old(scratch)@.len(),
                sent.len() == bytes,
                byte == sent[i as int],
                scratch@ == pulses(sent).take(i * 8 + k) + old(scratch)@.skip(i * 8 + k),
            decreases 8 - k,
        {
            let code: u32 = if bit_of(byte, k) {
                pulse_of(T1H, T1L)
            } else {
                pulse_of(T0H, T0L)
            };
            assert((i * 8 + k) / 8 == i && (i * 8 + k) % 8 == k as int);
            assert(pulses(sent)[i * 8 + k] == code);
            scratch[i * 8 + k] = code;
            k = k + 1;
            assert(scratch@ =~= pulses(sent).take(i * 8 + k) + old(scratch)@.skip(i * 8 + k));
        }
        i = i + 1;
    }
    assert(pulses(sent).take(i * 8) =~= pulses(sent));
    // Without this the peripheral runs on into whatever the buffer held
    // last frame.
    scratch[bytes * 8] = END;
    assert(scratch@ =~= frame(pixels@, format) + old(scratch)@.skip(bytes * 8 + 1));
    Ok(bytes * 8 + 1)
}

/// A bit takes ninety-six ticks, high first and then low: a one is high for
/// fifty-two of them and a zero for twenty-six. Low is never marked as high.
pub proof fn a_bit_is_a_pulse_of_ninety_six_ticks(set: bool)
    ensures
        ({
            let code = bit_pulse(set) as int;
            let high = code % 0x8000;
            let low = code / 0x1_0000;
            &&& (code / 0x8000) % 2 == 1
            &&& high == if set {
                52int
            } else {
                26int
            }
            &&& low < 0x8000
            &&& high + low == 96
        }),
{
}

/// A picture is whole LEDs of three bytes, and a frame is one word to a bit of what
/// goes to the strip and one that ends it.
pub proof fn a_frame_is_a_word_to_a_bit(pixels: Seq<u8>, format: Format)
    ensures
        3 * leds_in(pixels) <= pixels.len() < 3 * leds_in(pixels) + 3,
        format == Format::Grb ==> wire(pixels, format).len() == 3 * leds_in(pixels),
        format == Format::Grbw ==> wire(pixels, format).len() == 4 * leds_in(pixels),
        frame(pixels, format).len() == 8 * wire(pixels, format).len() + 1,
        frame(pixels, format).len() == words_for(leds_in(pixels), led_bytes(format)),
        frame(pixels, format).last() == 0,
        forall|i: int|
            0 <= i < 8 * wire(pixels, format).len() ==> #[trigger] frame(pixels, format)[i]
                == bit_pulse(bit(wire(pixels, format)[i / 8], i % 8)),
{
}

/// Bits go out most significant first: each is worth half of the one before it.
pub proof fn bits_go_out_most_significant_first(byte: u8, k: int)
    requires
        0 <= k < 8,
    ensures
        WEIGHTS[0] == 128,
        WEIGHTS[7] == 1,
        k > 0 ==> WEIGHTS[k - 1] == 2 * WEIGHTS[k],
        bit(byte, k) <==> (byte as int / WEIGHTS[k] as int) % 2 == 1,
{
}

/// The channel that a strip is left with is the one that came back, however the
/// transmission went.
pub proof fn the_channel_that_comes_back_is_kept<C, E>(
    strip: StripView<C>,
    channel: C,
    error: E,
)
    ensures
        strip.transmitting().channel is None,
        strip.transmitting().format == strip.format,
        strip.settled(Ok::<C, (E, C)>(channel)) == (StripView {
            channel: Some(channel),
            format: strip.format,
        }),
        strip.settled(Err::<C, (E, C)>((error, channel))) == (StripView {
            channel: Some(channel),
            format: strip.format,
        }),
{
}

} // verus!
