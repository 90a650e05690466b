//! Giving a device a program: who needs one, in what pieces it goes, and how it
//! is kept up to date.

use vstd::prelude::*;

use crate::device::device_loop::hello_message;
use crate::device::node::a_transfer_hands_over_what_was_sent;
use crate::device::node::after_chunks;
use crate::device::node::arrived;
use crate::device::node::carries;
use crate::device::node::is_part;
use crate::device::node::Decoded;
use crate::device::node::Header;
use crate::device::node::Message;
use crate::device::node::NodeView;
use crate::device::node::Step;
use crate::device::node::MAX_PROGRAM;

verus! {

/// The marker byte of a device's announcement.
pub const HELLO: u8 = 0xA5;

/// Bytes of program per chunk: with its header it clears what a network carries
/// at once, with room to spare.
pub const CHUNK: usize = 1024;

/// How often a driven channel is published, per second: as often as a device
/// draws.
pub const DRIVE_HZ: u64 = 30;

/// The time between two publications.
pub const DRIVE_US: u64 = 33_333;

/// How long one sweep of the driven value takes.
pub const DRIVE_PERIOD_US: u64 = 4_000_000;

/// How often the show clock is sent, and the claims renewed.
pub const TICK_US: u64 = 1_000_000;

/// The priority and the lease of a claim. The lease is short, and renewed: a
/// long one is how a channel ends up held by something that has gone.
pub const CLAIM_PRIORITY: u8 = 100;

pub const LEASE_MS: u32 = 5_000;

/// Frames of a simulation that are printed: the last few.
pub const SHOWN: u32 = 6;

/// An announcement of a device that needs a program. One that says it holds one
/// is left alone.
pub open spec fn is_needy(bytes: Seq<u8>) -> bool {
    &&& bytes.len() >= 1
    &&& bytes[0] == HELLO
    &&& !(bytes.len() >= 2 && bytes[1] == 1)
}

pub fn needs_program(bytes: &[u8]) -> (r: bool)
    ensures
        r == is_needy(bytes@),
{
    let n: usize = bytes.len();
    n >= 1 && bytes[0] == HELLO && !(n >= 2 && bytes[1] == 1)
}

/// An announcement of a device that has lost the program it was given.
pub open spec fn has_lost_it(bytes: Seq<u8>) -> bool {
    bytes.len() >= 2 && bytes[0] == HELLO && bytes[1] == 0
}

pub fn lost_program(bytes: &[u8]) -> (r: bool)
    ensures
        r == has_lost_it(bytes@),
{
    bytes.len() >= 2 && bytes[0] == HELLO && bytes[1] == 0
}

/// A piece of a program: where it starts, and how long it is.
#[derive(Clone, Copy, PartialEq, Eq, Debug)]
pub struct Piece {
    pub offset: u32,
    pub len: usize,
}

/// How many pieces a program of `n` bytes goes in.
pub open spec fn pieces_in(n: nat) -> nat {
    (n + CHUNK as nat - 1) as nat / CHUNK as nat
}

/// The pieces of a program of `n` bytes, in order: all of the same length, but
/// for the last.
pub open spec fn pieces_of(n: nat) -> Seq<Piece> {
    Seq::new(
        pieces_in(n),
        |i: int|
            Piece {
                offset: (i * CHUNK) as u32,
                len: (if (i + 1) * CHUNK <= n {
                    CHUNK as int
                } else {
                    n - i * CHUNK
                }) as usize,
            },
    )
}

/// The pieces of a program of `n` bytes.
pub fn pieces(n: u32) -> (r: Vec<Piece>)
    ensures
        r@ == pieces_of(n as nat),
{
    let mut out: Vec<Piece> = Vec::new();
    let mut at: u32 = 0;
    while at < n
        invariant
            at <= n,
            at < n ==> at == out@.len() * CHUNK,
            at == n ==> out@.len() == pieces_in(n as nat),
            out@.len() <= pieces_in(n as nat),
            forall|i: int| 0 <= i < out@.len() ==> #[trigger] out@[i] == pieces_of(n as nat)[i],
        decreases n - at,
    {
        let left: u32 = n - at;
        let len: u32 = if left < CHUNK as u32 {
            left
        } else {
            CHUNK as u32
        };
        out.push(Piece { offset: at, len: len as usize });
        at = at + len;
    }
    assert(out@ =~= pieces_of(n as nat));
    out
}

/// The pieces of a program, with their bytes.
pub open spec fn cut(bytes: Seq<u8>) -> Seq<(u32, Seq<u8>)> {
    pieces_of(bytes.len()).map_values(
        |p: Piece| (p.offset, bytes.subrange(p.offset as int, p.offset + p.len)),
    )
}

/// The pieces are parts of the program, no longer than a chunk, and every byte
/// is in one of them.
pub proof fn the_pieces_are_the_program(bytes: Seq<u8>)
    requires
        bytes.len() <= u32::MAX,
    ensures
        forall|k: int|
            0 <= k < cut(bytes).len() ==> is_part(#[trigger] cut(bytes)[k], bytes)
                && cut(bytes)[k].1.len() <= CHUNK,
        forall|i: int| 0 <= i < bytes.len() ==> #[trigger] arrived(cut(bytes), i),
{
    let n = bytes.len();
    let chunks = cut(bytes);
    assert forall|k: int| 0 <= k < chunks.len() implies is_part(#[trigger] chunks[k], bytes)
        && chunks[k].1.len() <= CHUNK by {
        assert(k * CHUNK < n);
        assert(pieces_of(n)[k].offset == k * CHUNK);
    }
    assert forall|i: int| 0 <= i < n implies #[trigger] arrived(chunks, i) by {
        let k = i / CHUNK as int;
        assert(k * CHUNK <= i < (k + 1) * CHUNK);
        assert(k < pieces_in(n));
        assert(pieces_of(n)[k].offset == k * CHUNK);
        assert(carries(chunks[k], i));
    }
}

/// A program sent in pieces is the program that a device is left with, and that
/// it is told to parse.
pub proof fn a_program_sent_is_the_program_held(
    node: NodeView,
    bytes: Seq<u8>,
    header: Header,
    now_us: u64,
)
    requires
        node.wf(),
        bytes.len() <= MAX_PROGRAM,
        header.mesh_prefix == node.mesh_prefix,
    ensures
        ({
            let node = after_chunks(node.begun(bytes.len() as u32), cut(bytes));
            let end = Decoded::Datagram { header, message: Some(Message::ProgEnd) };
            &&& node.step(end, now_us) == Step::Parse
            &&& node.after(end, now_us).held() == bytes
        }),
{
    the_pieces_are_the_program(bytes);
    a_transfer_hands_over_what_was_sent(node, bytes, cut(bytes), header, now_us);
}

/// When a source pushed now expires.
pub open spec fn expires_at(now_us: u64, seconds: u64) -> int {
    now_us + seconds * 1_000_000
}

/// When a source pushed now expires. Absolute show time and not a duration:
/// every device shares this clock, so it expires at the same instant everywhere.
pub fn expiry(now_us: u64, seconds: u64) -> (r: u64)
    requires
        now_us + seconds * 1_000_000 <= u64::MAX,
    ensures
        r == now_us + seconds * 1_000_000,
        r == expires_at(now_us, seconds),
{
    now_us + seconds * 1_000_000
}

/// When the show clock and the channels are next due, on a monotonic clock. They
/// stay on their grids: what is late is sent at once and moves nothing.
pub struct Beat {
    next_tick_us: u64,
    next_drive_us: u64,
    producer_seq: u16,
}

#[verifier::ext_equal]
pub struct BeatView {
    pub next_tick_us: u64,
    pub next_drive_us: u64,
    pub producer_seq: u16,
}

impl View for Beat {
    type V = BeatView;

    closed spec fn view(&self) -> BeatView {
        BeatView {
            next_tick_us: self.next_tick_us,
            next_drive_us: self.next_drive_us,
            producer_seq: self.producer_seq,
        }
    }
}

impl BeatView {
    /// The sequence with which the channels are driven at `now_us`, if they are.
    pub open spec fn drives(self, now_us: u64, channels: nat) -> Option<u16> {
        if channels > 0 && now_us >= self.next_drive_us {
            Some(self.producer_seq.wrapping_add(1))
        } else {
            None
        }
    }

    /// After the channels were driven at `now_us`, or were not.
    pub open spec fn driven(self, now_us: u64, channels: nat) -> BeatView {
        match self.drives(now_us, channels) {
            Some(seq) => BeatView {
                next_drive_us: (self.next_drive_us + DRIVE_US) as u64,
                producer_seq: seq,
                ..self
            },
            None => self,
        }
    }

    /// Whether the show clock is sent at `now_us`.
    pub open spec fn ticks(self, now_us: u64) -> bool {
        now_us >= self.next_tick_us
    }

    /// After the show clock was sent at `now_us`, or was not.
    pub open spec fn ticked(self, now_us: u64) -> BeatView {
        if self.ticks(now_us) {
            BeatView { next_tick_us: (self.next_tick_us + TICK_US) as u64, ..self }
        } else {
            self
        }
    }
}

impl Beat {
    pub fn new(now_us: u64) -> (r: Beat)
        ensures
            r@ == (BeatView { next_tick_us: now_us, next_drive_us: now_us, producer_seq: 0 }),
    {
        Beat { next_tick_us: now_us, next_drive_us: now_us, producer_seq: 0 }
    }

    /// Whether the channels are to be driven now, and with which sequence. An
    /// effect that reads no channel has none to drive.
    pub fn drive(&mut self, now_us: u64, channels: usize) -> (r: Option<u16>)
        requires
            channels > 0 && now_us >= old(self)@.next_drive_us ==> old(self)@.next_drive_us
                + DRIVE_US <= u64::MAX,
        ensures
            r == if channels > 0 && now_us >= old(self)@.next_drive_us {
                Some(old(self)@.producer_seq.wrapping_add(1))
            } else {
                None
            },
            final(self)@ == match r {
                Some(seq) => BeatView {
                    next_drive_us: (old(self)@.next_drive_us + DRIVE_US) as u64,
                    producer_seq: seq,
                    ..old(self)@
                },
                None => old(self)@,
            },
            r == old(self)@.drives(now_us, channels as nat),
            final(self)@ == old(self)@.driven(now_us, channels as nat),
    {
        if channels == 0 || now_us < self.next_drive_us {
            return None;
        }
        self.next_drive_us = self.next_drive_us + DRIVE_US;
        self.producer_seq = self.producer_seq.wrapping_add(1);
        Some(self.producer_seq)
    }

    /// Whether the show clock is to be sent now, and the claims renewed.
    pub fn tick(&mut self, now_us: u64) -> (r: bool)
        requires
            now_us >= old(self)@.next_tick_us ==> old(self)@.next_tick_us + TICK_US <= u64::MAX,
        ensures
            r == (now_us >= old(self)@.next_tick_us),
            final(self)@ == if r {
                BeatView {
                    next_tick_us: (old(self)@.next_tick_us + TICK_US) as u64,
                    ..old(self)@
                }
            } else {
                old(self)@
            },
            r == old(self)@.ticks(now_us),
            final(self)@ == old(self)@.ticked(now_us),
    {
        if now_us < self.next_tick_us {
            return false;
        }
        self.next_tick_us = self.next_tick_us + TICK_US;
        true
    }
}

/// The show time of frame `f` of a simulation, and whether it is printed.
pub open spec fn simulated_frame(f: u32, fps: u32, frames: u32) -> (u64, bool) {
    ((f as int * 1_000_000 / fps as int) as u64, f + SHOWN >= frames)
}

/// The show time of frame `f` of a simulation, and whether it is printed.
pub fn simulated(f: u32, fps: u32, frames: u32) -> (r: (u64, bool))
    requires
        fps > 0,
    ensures
        r.0 == f as int * 1_000_000 / fps as int,
        r.1 == (f + SHOWN >= frames),
        r == simulated_frame(f, fps, frames),
{
    proof {
        assert(f as u64 * 1_000_000 <= u64::MAX) by (nonlinear_arith)
            requires
                f <= u32::MAX,
        ;
        assert(0 <= f as int * 1_000_000 / fps as int <= f as int * 1_000_000)
            by (nonlinear_arith)
            requires
                f >= 0,
                fps > 0,
        ;
    }
    ((f as u64 * 1_000_000) / fps as u64, f as u64 + SHOWN as u64 >= frames as u64)
}

/// A device is given a program unless it says that it holds one, and is given it
/// again if it says that it holds none; nothing else is an announcement.
pub proof fn a_device_that_holds_nothing_is_given_a_program(bytes: Seq<u8>)
    ensures
        is_needy(bytes) <==> bytes.len() > 0 && bytes[0] == 0xA5 && (bytes.len() == 1 || bytes[1]
            != 1),
        has_lost_it(bytes) <==> bytes.len() > 1 && bytes[0] == 0xA5 && bytes[1] == 0,
        has_lost_it(bytes) ==> is_needy(bytes),
{
}

/// What a device says of itself is understood: one without a program is to be given
/// one, and one that holds one is left alone.
pub proof fn what_a_device_says_is_understood(node: NodeView)
    requires
        node.wf(),
    ensures
        is_needy(hello_message(node)) <==> node.held().len() == 0,
        is_needy(hello_message(node)) <==> has_lost_it(hello_message(node)),
{
}

/// The pieces of a program follow on one another without a gap, from its start to
/// its end: all of a kilobyte, but for the last, which is not empty.
pub proof fn pieces_follow_on_one_another(n: nat, i: int)
    requires
        n <= u32::MAX,
        0 <= i < pieces_of(n).len(),
    ensures
        ({
            let pieces = pieces_of(n);
            let last = pieces.len() - 1;
            &&& pieces[0].offset == 0
            &&& 0 < pieces[i].len <= 1024
            &&& i < last ==> pieces[i].len == 1024 && pieces[i + 1].offset == pieces[i].offset
                + pieces[i].len
            &&& i == last ==> pieces[i].offset + pieces[i].len == n
            &&& pieces[i].offset == 1024 * i
            &&& 1024 * (pieces.len() - 1) < n <= 1024 * pieces.len()
        }),
{
    let k = pieces_in(n);
    assert(k == (n + 1023) / 1024);
    assert(i * 1024 < n);
}

/// A program of nothing goes in no pieces, and any other in some.
pub proof fn every_program_goes_in_pieces(n: nat)
    ensures
        pieces_of(n).len() == 0 <==> n == 0,
{
}

/// After a run of turns, at times `times`, of which each may send the show clock and
/// drive the channels.
pub open spec fn after_turns(beat: BeatView, times: Seq<u64>, channels: nat) -> BeatView
    decreases times.len(),
{
    if times.len() == 0 {
        beat
    } else {
        after_turns(beat, times.drop_last(), channels).driven(times.last(), channels).ticked(
            times.last(),
        )
    }
}

/// The show clock and the channels stay on their grids, of a second and of thirty to
/// the second, however late a turn is: if every turn is late for both, each has moved
/// by exactly one step for every turn, and the channels were driven with a sequence
/// of one more each.
pub proof fn a_late_beat_moves_nothing(start: u64, times: Seq<u64>, channels: nat)
    requires
        channels > 0,
        start + times.len() * 1_000_000 <= u64::MAX,
        forall|i: int|
            0 <= i < times.len() ==> (#[trigger] times[i]) >= start + (i + 1) * 1_000_000,
    ensures
        ({
            let fresh = BeatView { next_tick_us: start, next_drive_us: start, producer_seq: 0 };
            let after = after_turns(fresh, times, channels);
            &&& after.next_tick_us == start + times.len() * 1_000_000
            &&& after.next_drive_us == start + times.len() * 33_333
            &&& after.producer_seq == times.len() % 0x1_0000
        }),
    decreases times.len(),
{
    if times.len() > 0 {
        let earlier = times.drop_last();
        assert forall|i: int| 0 <= i < earlier.len() implies (#[trigger] earlier[i]) >= start + (i
            + 1) * 1_000_000 by {
            assert(times[i] >= start + (i + 1) * 1_000_000);
        }
        a_late_beat_moves_nothing(start, earlier, channels);
        assert(times.last() == times[times.len() - 1]);
    }
}

/// Nothing is sent before it is due, and an effect that reads no channel drives none;
/// what is sent is due again a step after it was due, whenever it was sent.
pub proof fn nothing_is_sent_before_it_is_due(beat: BeatView, now_us: u64, channels: nat)
    ensures
        beat.ticks(now_us) <==> now_us >= beat.next_tick_us,
        beat.drives(now_us, channels) is Some <==> channels > 0 && now_us >= beat.next_drive_us,
        !beat.ticks(now_us) ==> beat.ticked(now_us) == beat,
        beat.ticks(now_us) && beat.next_tick_us + 1_000_000 <= u64::MAX ==> beat.ticked(
            now_us,
        ).next_tick_us == beat.next_tick_us + 1_000_000,
        beat.drives(now_us, channels) is Some && beat.next_drive_us + 33_333 <= u64::MAX
            ==> beat.driven(now_us, channels).next_drive_us == beat.next_drive_us + 33_333,
        beat.drives(now_us, channels) is None ==> beat.driven(now_us, channels) == beat,
        beat.ticked(now_us).next_drive_us == beat.next_drive_us,
        beat.ticked(now_us).producer_seq == beat.producer_seq,
        beat.driven(now_us, channels).next_tick_us == beat.next_tick_us,
        beat.drives(now_us, channels) matches Some(seq) ==> seq == beat.driven(
            now_us,
            channels,
        ).producer_seq && seq == (beat.producer_seq + 1) % 0x1_0000,
{
}

/// Frames of a simulation are as far apart as the rate says, to the microsecond, and
/// the last six are printed.
pub proof fn simulated_frames_are_at_their_rate(f: u32, fps: u32, frames: u32)
    requires
        fps > 0,
    ensures
        simulated_frame(f, fps, frames).0 * fps <= f * 1_000_000 < (simulated_frame(
            f,
            fps,
            frames,
        ).0 + 1) * fps,
        f < frames ==> (simulated_frame(f, fps, frames).1 <==> frames - f <= 6),
{
    let n = fps as int;
    let x = f as int * 1_000_000;
    let q = x / n;
    vstd::arithmetic::div_mod::lemma_fundamental_div_mod(x, n);
    vstd::arithmetic::div_mod::lemma_mod_bound(x, n);
    assert((q + 1) * n == n * q + n && q * n == n * q) by (nonlinear_arith);
    assert(0 <= q <= x) by (nonlinear_arith)
        requires
            x >= 0,
            n > 0,
            q == x / n,
    ;
}

/// A source lasts a second longer for each second that is asked for, and no time at
/// all for none.
pub proof fn a_source_lasts_a_second_for_each(now_us: u64, seconds: u64)
    requires
        seconds < u64::MAX,
    ensures
        expires_at(now_us, 0) == now_us,
        expires_at(now_us, (seconds + 1) as u64) == expires_at(now_us, seconds) + 1_000_000,
{
}

} // verus!
