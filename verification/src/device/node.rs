//! The device, minus its input and output: what a node does with a datagram and
//! with a frame.
//!
//! A program arrives in pieces, which is how it crosses a network that carries
//! no more than so much at once, and a push then puts it on the stack of
//! sources. Decoding, the stack, the channels and the renderer are the shell's:
//! the node is told what was decoded, says what to do, and is told how it went.

use vstd::prelude::*;

use crate::le;
use crate::modular::signed;
use crate::modular::signed_of;

verus! {

/// The largest program this device will hold.
pub const MAX_PROGRAM: usize = 4096;

/// Values the staging buffer holds: three hundred LEDs of three colours.
pub const MAX_CHANNELS: usize = 900;

/// The period of the frame grid that the whole mesh draws on.
pub const FRAME_US: u64 = 33_333;

/// What this device will spend across all sources, per pixel, and how many it
/// admits at once.
pub const STACK_BUDGET: u32 = 100_000;

pub const STACK_DEPTH: usize = 4;

/// What a pushed source is charged.
pub const SOURCE_COST: u32 = 10;

/// How long a channel holds the last value published to it. Generous: a slider
/// is sent when a finger moves, and a finger that stops moving is not a producer
/// that has died.
pub const HOLD_MS: u32 = 2_000;

/// The power budget of the strip, in milliamperes: what a port promises without
/// negotiating for more.
pub const POWER_MA: u32 = 500;

/// The one zone of this device.
pub const ZONE: [u8; 16] = [50, 50, 50, 50, 50, 50, 50, 50, 50, 50, 50, 50, 50, 50, 50, 50];

/// What a received datagram did.
#[allow(inconsistent_fields)]
#[derive(Clone, Copy, PartialEq, Eq, Debug)]
pub enum Handled {
    Ignored,
    NotForThisMesh,
    Undecodable,
    ProgramStarted { len: u32 },
    ProgramChunk { at: u32, len: usize },
    ProgramComplete { len: usize, budget: u32, channels: usize },
    ProgramRejected,
    ChannelClaimed { id: u16 },
    ChannelSet { id: u16, value: i32 },
    ChannelUnknown { id: u16 },
    SourcePushed { priority: u8 },
    SourcePopped,
    SourceRejected,
    ClockSet { offset_us: i64 },
}

/// What the header of a datagram says, which is readable without its payload.
#[derive(Clone, Copy, PartialEq, Eq, Debug)]
pub struct Header {
    pub mesh_prefix: [u8; 2],
    pub sender_prefix: [u8; 4],
    pub show_time_us: u64,
}

/// The payloads a node acts on.
#[derive(Clone, Copy, PartialEq, Eq, Debug)]
pub enum Message<'a> {
    Tick,
    ProgBegin { total_len: u32 },
    ProgChunk { offset: u32, data: &'a [u8] },
    ProgEnd,
    ChanClaim { channel_id: u16, priority: u8, lease_ms: u32 },
    Chan { channel_id: u16, producer_seq: u16, payload: &'a [u8] },
    SrcPush {
        source_id: [u8; 16],
        scene_id: [u8; 16],
        priority: u8,
        expires_at: Option<u64>,
        fade_in_ms: u32,
        fade_out_ms: u32,
    },
    SrcPop { source_id: [u8; 16] },
    /// Any other payload.
    Other,
}

/// What decoding made of some bytes.
#[derive(Clone, Copy, PartialEq, Eq, Debug)]
pub enum Decoded<'a> {
    /// Not a datagram.
    Garbage,
    /// A datagram, and its payload if that could be read too.
    Datagram { header: Header, message: Option<Message<'a>> },
}

/// Something asked of a channel.
#[derive(Clone, Copy, PartialEq, Eq, Debug)]
pub enum ChannelRequest<'a> {
    Claim { priority: u8, lease_ms: u32 },
    Publish { seq: u16, payload: &'a [u8] },
}

/// What is then done to it.
#[derive(Clone, Copy, PartialEq, Eq, Debug)]
pub enum ChannelWrite {
    Claim { priority: u8, lease_ms: u32 },
    Publish { seq: u16, value: i32 },
}

/// A source to put on the stack.
#[derive(Clone, Copy, PartialEq, Eq, Debug)]
pub struct SourceRecord {
    pub id: [u8; 16],
    pub zone: [u8; 16],
    pub scene: [u8; 16],
    pub priority: u8,
    pub expires_at_us: Option<u64>,
    pub fade_in_ms: u32,
    pub fade_out_ms: u32,
    pub pushed_at_us: u64,
    pub cost: u32,
}

/// What the shell has to do with a datagram.
#[derive(Clone, Copy, PartialEq, Eq, Debug)]
pub enum Step<'a> {
    /// Nothing more.
    Done(Handled),
    /// Parse the program held, and say what came of it to `parsed`.
    Parse,
    /// Look the channel up, and say whether it is there to `settle`.
    Channel { id: u16, now_us: u64, sender: [u8; 4], request: ChannelRequest<'a> },
    /// Push the source at `now_us`, and say whether it was admitted to `pushed`.
    Push { now_us: u64, source: SourceRecord },
    /// Pop the source at `now_us`, and say so to `popped`.
    Pop { now_us: u64, source_id: [u8; 16] },
}

/// What parsing found out about a program: what a pixel of it costs, and the
/// channel that each of its slots reads, where it names one.
pub struct ProgramInfo {
    pub budget: u32,
    pub slots: Vec<Option<u16>>,
}

/// What to draw: the show time, and the frame of the grid that it falls in.
#[derive(Clone, Copy, PartialEq, Eq, Debug)]
pub struct Draw {
    pub show_us: u64,
    pub frame_us: u64,
}

/// Linear light, in fixed point with sixteen bits behind the point.
#[derive(Clone, Copy, PartialEq, Eq, Debug)]
pub struct Rgb {
    pub r: i32,
    pub g: i32,
    pub b: i32,
}

/// Device time to show time, never before zero and never past the end.
pub open spec fn shifted(now_us: u64, offset_us: i64) -> u64 {
    if now_us + offset_us < 0 {
        0
    } else if now_us + offset_us > u64::MAX {
        u64::MAX
    } else {
        (now_us + offset_us) as u64
    }
}

/// The start of the frame that a show time falls in.
pub open spec fn frame_start(show_us: u64) -> u64 {
    (show_us / FRAME_US * FRAME_US) as u64
}

/// Four bytes as a signed value, least significant first.
pub open spec fn signed_field(bytes: Seq<u8>) -> int {
    let v = le::value(bytes) as int;
    if v < 0x8000_0000 {
        v
    } else {
        v - 0x1_0000_0000
    }
}

/// The channels named by the slots that name one, in order.
pub open spec fn named(slots: Seq<Option<u16>>) -> Seq<u16>
    decreases slots.len(),
{
    if slots.len() == 0 {
        Seq::empty()
    } else {
        match slots.last() {
            Some(id) => named(slots.drop_last()).push(id),
            None => named(slots.drop_last()),
        }
    }
}

/// No byte of a program has arrived.
pub open spec fn nothing_present() -> Seq<bool> {
    Seq::new(MAX_PROGRAM as nat, |i: int| false)
}

#[verifier::ext_equal]
pub struct NodeView {
    pub mesh_prefix: [u8; 2],
    pub device: [u8; 16],
    pub leds: nat,
    /// The buffer the program is received into.
    pub program: Seq<u8>,
    /// Which of its bytes have arrived since the transfer began.
    pub present: Seq<bool>,
    pub program_len: nat,
    pub expected_len: nat,
    pub receiving: bool,
    pub clock_offset_us: i64,
    pub sources: nat,
    pub rendering: bool,
}

impl NodeView {
    pub open spec fn wf(self) -> bool {
        &&& self.program.len() == MAX_PROGRAM
        &&& self.present.len() == MAX_PROGRAM
        &&& self.program_len <= self.expected_len <= MAX_PROGRAM
        &&& self.receiving ==> forall|i: int|
            0 <= i < MAX_PROGRAM && #[trigger] self.present[i] ==> i < self.program_len
    }

    pub open spec fn fresh(mesh_prefix: [u8; 2], device: [u8; 16], count: u16) -> NodeView {
        NodeView {
            mesh_prefix,
            device,
            leds: count as nat,
            program: Seq::new(MAX_PROGRAM as nat, |i: int| 0u8),
            present: nothing_present(),
            program_len: 0,
            expected_len: 0,
            receiving: false,
            clock_offset_us: 0,
            sources: 0,
            rendering: false,
        }
    }

    /// The program held.
    pub open spec fn held(self) -> Seq<u8> {
        self.program.take(self.program_len as int)
    }

    pub open spec fn show_time(self, now_us: u64) -> u64 {
        shifted(now_us, self.clock_offset_us)
    }

    /// What to draw at `now_us`, if there is anything: bytes that parse, and a
    /// source.
    pub open spec fn drawing(self, now_us: u64, parses: bool) -> Option<Draw> {
        self.drawing_at(self.show_time(now_us), parses)
    }

    /// What to draw at show time `show_us`.
    pub open spec fn drawing_at(self, show_us: u64, parses: bool) -> Option<Draw> {
        if self.program_len == 0 || !parses || self.sources == 0 {
            None
        } else {
            Some(Draw { show_us, frame_us: frame_start(show_us) })
        }
    }

    /// A transfer of `total_len` bytes begins, if it fits.
    pub open spec fn begun(self, total_len: u32) -> NodeView {
        if total_len > MAX_PROGRAM {
            self
        } else {
            NodeView {
                expected_len: total_len as nat,
                present: nothing_present(),
                program_len: 0,
                receiving: true,
                ..self
            }
        }
    }

    /// Whether a chunk lies within the length that was declared.
    pub open spec fn fits(self, offset: u32, data: Seq<u8>) -> bool {
        offset + data.len() <= self.expected_len
    }

    /// A transfer that came to nothing. What had arrived of it is not a program.
    pub open spec fn abandoned(self) -> NodeView {
        NodeView { receiving: false, program_len: 0, ..self }
    }

    /// A chunk of a program arrives. One outside the declared length ends the
    /// transfer and is not written: it would scribble on the buffer.
    pub open spec fn filled(self, offset: u32, data: Seq<u8>) -> NodeView {
        let end = (offset + data.len()) as nat;
        if !self.receiving {
            self
        } else if !self.fits(offset, data) {
            self.abandoned()
        } else {
            NodeView {
                program: self.program.take(offset as int) + data + self.program.skip(end as int),
                present: Seq::new(
                    MAX_PROGRAM as nat,
                    |i: int| self.present[i] || offset <= i < end,
                ),
                program_len: if end > self.program_len {
                    end
                } else {
                    self.program_len
                },
                ..self
            }
        }
    }

    /// Whether every byte that was declared has arrived.
    pub open spec fn complete(self) -> bool {
        self.receiving && forall|i: int| 0 <= i < self.expected_len ==> #[trigger] self.present[i]
    }

    /// The transfer ends, if there is one. Without each of its bytes it comes to
    /// nothing.
    pub open spec fn ended(self) -> NodeView {
        if self.receiving && !self.complete() {
            self.abandoned()
        } else {
            NodeView { receiving: false, ..self }
        }
    }

    /// After a datagram was decoded.
    pub open spec fn after(self, decoded: Decoded, now_us: u64) -> NodeView {
        match decoded {
            Decoded::Garbage => self,
            Decoded::Datagram { header, message } => if header.mesh_prefix != self.mesh_prefix {
                self
            } else {
                match message {
                    None => self,
                    Some(Message::Tick) => NodeView {
                        clock_offset_us: signed(header.show_time_us).wrapping_sub(signed(now_us)),
                        ..self
                    },
                    Some(Message::ProgBegin { total_len }) => self.begun(total_len),
                    Some(Message::ProgChunk { offset, data }) => self.filled(offset, data@),
                    Some(Message::ProgEnd) => self.ended(),
                    Some(_) => self,
                }
            },
        }
    }

    /// What a decoded datagram calls for.
    pub open spec fn step<'a>(self, decoded: Decoded<'a>, now_us: u64) -> Step<'a> {
        match decoded {
            Decoded::Garbage => Step::Done(Handled::Undecodable),
            Decoded::Datagram { header, message } => if header.mesh_prefix != self.mesh_prefix {
                Step::Done(Handled::NotForThisMesh)
            } else {
                match message {
                    None => Step::Done(Handled::Undecodable),
                    Some(Message::Tick) => Step::Done(
                        Handled::ClockSet {
                            offset_us: signed(header.show_time_us).wrapping_sub(signed(now_us)),
                        },
                    ),
                    Some(Message::ProgBegin { total_len }) => Step::Done(
                        if total_len > MAX_PROGRAM {
                            Handled::ProgramRejected
                        } else {
                            Handled::ProgramStarted { len: total_len }
                        },
                    ),
                    Some(Message::ProgChunk { offset, data }) => Step::Done(
                        if !self.receiving {
                            Handled::Ignored
                        } else if !self.fits(offset, data@) {
                            Handled::ProgramRejected
                        } else {
                            Handled::ProgramChunk { at: offset, len: data@.len() as usize }
                        },
                    ),
                    Some(Message::ProgEnd) => if self.complete() {
                        Step::Parse
                    } else {
                        Step::Done(Handled::ProgramRejected)
                    },
                    Some(Message::ChanClaim { channel_id, priority, lease_ms }) => Step::Channel {
                        id: channel_id,
                        now_us: self.show_time(now_us),
                        sender: header.sender_prefix,
                        request: ChannelRequest::Claim { priority, lease_ms },
                    },
                    Some(Message::Chan { channel_id, producer_seq, payload }) => Step::Channel {
                        id: channel_id,
                        now_us: self.show_time(now_us),
                        sender: header.sender_prefix,
                        request: ChannelRequest::Publish { seq: producer_seq, payload },
                    },
                    Some(
                        Message::SrcPush {
                            source_id,
                            scene_id,
                            priority,
                            expires_at,
                            fade_in_ms,
                            fade_out_ms,
                        },
                    ) => Step::Push {
                        now_us: self.show_time(now_us),
                        source: SourceRecord {
                            id: source_id,
                            zone: ZONE,
                            scene: scene_id,
                            priority,
                            expires_at_us: expires_at,
                            fade_in_ms,
                            fade_out_ms,
                            pushed_at_us: self.show_time(now_us),
                            cost: SOURCE_COST,
                        },
                    },
                    Some(Message::SrcPop { source_id }) => Step::Pop {
                        now_us: self.show_time(now_us),
                        source_id,
                    },
                    Some(Message::Other) => Step::Done(Handled::Ignored),
                }
            },
        }
    }

    /// After a push was admitted or refused, with `active` sources on the stack.
    pub open spec fn after_push(self, admitted: bool, active: nat) -> NodeView {
        NodeView { sources: active, rendering: admitted || self.rendering, ..self }
    }

    /// After a pop, with `active` sources on the stack.
    pub open spec fn after_pop(self, active: nat) -> NodeView {
        NodeView { sources: active, ..self }
    }

    /// After the stack was advanced, with `active` sources on it.
    pub open spec fn after_advance(self, active: nat) -> NodeView {
        NodeView { sources: active, rendering: active > 0, ..self }
    }

    /// What is told of a program that was parsed, or could not be.
    pub open spec fn parsing(self, budget: u32, slots: Seq<Option<u16>>) -> Handled {
        Handled::ProgramComplete {
            len: self.program_len as usize,
            budget,
            channels: slots.len() as usize,
        }
    }

    /// After the program held was parsed, or could not be.
    pub open spec fn after_parse(self, good: bool) -> NodeView {
        if good {
            self
        } else {
            self.abandoned()
        }
    }
}

/// What is told of a push.
pub open spec fn push_told(priority: u8, admitted: bool) -> Handled {
    if admitted {
        Handled::SourcePushed { priority }
    } else {
        Handled::SourceRejected
    }
}

/// One node.
pub struct Node {
    mesh_prefix: [u8; 2],
    device: [u8; 16],
    count: u16,
    /// The program being received, and the one being rendered: the same buffer.
    program: Vec<u8>,
    /// Which of its bytes have arrived since the transfer began.
    present: Vec<bool>,
    program_len: usize,
    expected_len: usize,
    receiving: bool,
    /// Show time minus device time. Until a tick sets it the device runs on its
    /// own clock.
    clock_offset_us: i64,
    /// Sources admitted, as last told.
    sources: usize,
    /// Whether a source is currently admitted.
    rendering: bool,
}

impl View for Node {
    type V = NodeView;

    closed spec fn view(&self) -> NodeView {
        NodeView {
            mesh_prefix: self.mesh_prefix,
            device: self.device,
            leds: self.count as nat,
            program: self.program@,
            present: self.present@,
            program_len: self.program_len as nat,
            expected_len: self.expected_len as nat,
            receiving: self.receiving,
            clock_offset_us: self.clock_offset_us,
            sources: self.sources as nat,
            rendering: self.rendering,
        }
    }
}

/// The start of the frame that a show time falls in.
pub fn frame_time(show_us: u64) -> (r: u64)
    ensures
        r == frame_start(show_us),
{
    show_us / FRAME_US * FRAME_US
}

/// The channels named by the slots that name one, in order.
pub fn channel_ids(slots: &[Option<u16>]) -> (r: Vec<u16>)
    ensures
        r@ == named(slots@),
{
    let mut out: Vec<u16> = Vec::new();
    let mut i: usize = 0;
    while i < slots.len()
        invariant
            i <= slots@.len(),
            out@ == named(slots@.take(i as int)),
        decreases slots@.len() - i,
    {
        assert(slots@.take(i + 1).drop_last() =~= slots@.take(i as int));
        if let Some(id) = slots[i] {
            out.push(id);
        }
        i = i + 1;
    }
    assert(slots@.take(i as int) =~= slots@);
    out
}

/// What becomes of a request on channel `id`, once it is known whether the
/// program held reads such a channel.
///
/// One value per channel: a producer of several sends one datagram for each.
pub fn settle(id: u16, request: ChannelRequest, known: bool) -> (r: (
    Handled,
    Option<ChannelWrite>,
))
    ensures
        r == settled(id, request, known),
{
    if !known {
        return (Handled::ChannelUnknown { id }, None);
    }
    match request {
        ChannelRequest::Claim { priority, lease_ms } => (
            Handled::ChannelClaimed { id },
            Some(ChannelWrite::Claim { priority, lease_ms }),
        ),
        ChannelRequest::Publish { seq, payload } => {
            if payload.len() < 4 {
                return (Handled::Undecodable, None);
            }
            proof {
                le::reaches();
            }
            let v: u64 = le::read(payload, 0, 4);
            let value: i32 = if v < 0x8000_0000 {
                v as i32
            } else {
                (v as i64 - 0x1_0000_0000) as i32
            };
            (Handled::ChannelSet { id, value }, Some(ChannelWrite::Publish { seq, value }))
        },
    }
}

pub open spec fn settled(id: u16, request: ChannelRequest, known: bool) -> (
    Handled,
    Option<ChannelWrite>,
) {
    if !known {
        (Handled::ChannelUnknown { id }, None)
    } else {
        match request {
            ChannelRequest::Claim { priority, lease_ms } => (
                Handled::ChannelClaimed { id },
                Some(ChannelWrite::Claim { priority, lease_ms }),
            ),
            ChannelRequest::Publish { seq, payload } => if payload@.len() < 4 {
                (Handled::Undecodable, None)
            } else {
                let value = signed_field(payload@.subrange(0, 4)) as i32;
                (Handled::ChannelSet { id, value }, Some(ChannelWrite::Publish { seq, value }))
            },
        }
    }
}

/// A picture as the values that go to the output stage: as many whole pixels as
/// the staging buffer holds.
pub fn stage(frame: &[Rgb]) -> (r: Vec<i32>)
    ensures
        r@ == staged(frame@),
{
    let mut out: Vec<i32> = Vec::new();
    let mut i: usize = 0;
    while i < frame.len() && i < MAX_CHANNELS / 3
        invariant
            i <= frame@.len(),
            i <= MAX_CHANNELS / 3,
            out@ == staged(frame@.take(i as int)),
        decreases frame@.len() - i,
    {
        let px: Rgb = frame[i];
        out.push(px.r);
        out.push(px.g);
        out.push(px.b);
        assert(out@ =~= staged(frame@.take(i + 1)));
        i = i + 1;
    }
    assert(staged(frame@.take(i as int)) =~= staged(frame@));
    out
}

pub open spec fn staged(frame: Seq<Rgb>) -> Seq<i32> {
    let pixels = if frame.len() * 3 <= MAX_CHANNELS {
        frame.len()
    } else {
        MAX_CHANNELS as nat / 3
    };
    Seq::new(
        pixels * 3,
        |i: int|
            if i % 3 == 0 {
                frame[i / 3].r
            } else if i % 3 == 1 {
                frame[i / 3].g
            } else {
                frame[i / 3].b
            },
    )
}

/// No byte of a program has arrived.
fn absent() -> (r: Vec<bool>)
    ensures
        r@ == nothing_present(),
{
    let mut present: Vec<bool> = Vec::new();
    while present.len() < MAX_PROGRAM
        invariant
            present@.len() <= MAX_PROGRAM,
            forall|i: int| 0 <= i < present@.len() ==> !present@[i],
        decreases MAX_PROGRAM - present@.len(),
    {
        present.push(false);
    }
    assert(present@ =~= nothing_present());
    present
}

impl Node {
    /// A node driving `count` LEDs in a line.
    pub fn new(mesh_prefix: [u8; 2], device: [u8; 16], count: u16) -> (r: Node)
        ensures
            r@ == NodeView::fresh(mesh_prefix, device, count),
            r@.wf(),
    {
        let mut program: Vec<u8> = Vec::new();
        while program.len() < MAX_PROGRAM
            invariant
                program@.len() <= MAX_PROGRAM,
                forall|i: int| 0 <= i < program@.len() ==> program@[i] == 0,
            decreases MAX_PROGRAM - program@.len(),
        {
            program.push(0);
        }
        let present: Vec<bool> = absent();
        let r = Node {
            mesh_prefix,
            device,
            count,
            program,
            present,
            program_len: 0,
            expected_len: 0,
            receiving: false,
            clock_offset_us: 0,
            sources: 0,
            rendering: false,
        };
        assert(r@ =~= NodeView::fresh(mesh_prefix, device, count));
        r
    }

    pub fn led_count(&self) -> (r: usize)
        ensures
            r == self@.leds,
    {
        self.count as usize
    }

    /// Bytes of program held.
    pub fn program_bytes(&self) -> (r: usize)
        ensures
            r == self@.program_len,
    {
        self.program_len
    }

    /// The program held.
    pub fn program(&self) -> (r: &[u8])
        requires
            self@.wf(),
        ensures
            r@ == self@.held(),
    {
        vstd::slice::slice_subrange(self.program.as_slice(), 0, self.program_len)
    }

    /// Sources admitted, as last told.
    pub fn source_count(&self) -> (r: usize)
        ensures
            r == self@.sources,
    {
        self.sources
    }

    /// Whether a source is currently admitted.
    pub fn rendering(&self) -> (r: bool)
        ensures
            r == self@.rendering,
    {
        self.rendering
    }

    /// Device time to show time.
    pub fn show_time(&self, now_us: u64) -> (r: u64)
        ensures
            r == self@.show_time(now_us),
    {
        let t: i128 = now_us as i128 + self.clock_offset_us as i128;
        if t < 0 {
            0
        } else if t > u64::MAX as i128 {
            u64::MAX
        } else {
            t as u64
        }
    }

    /// Take one decoded datagram.
    pub fn receive<'a>(&mut self, decoded: Decoded<'a>, now_us: u64) -> (r: Step<'a>)
        requires
            old(self)@.wf(),
        ensures
            final(self)@ == old(self)@.after(decoded, now_us),
            r == old(self)@.step(decoded, now_us),
            final(self)@.wf(),
    {
        let (header, message): (Header, Option<Message<'a>>) = match decoded {
            Decoded::Garbage => {
                return Step::Done(Handled::Undecodable);
            },
            Decoded::Datagram { header, message } => (header, message),
        };
        // Answerable from the header alone: a device on a shared network drops
        // somebody else's mesh without reading any further.
        if header.mesh_prefix[0] != self.mesh_prefix[0] || header.mesh_prefix[1]
            != self.mesh_prefix[1] {
            return Step::Done(Handled::NotForThisMesh);
        }
        assert(header.mesh_prefix@ =~= self.mesh_prefix@);
        assert(header.mesh_prefix == self.mesh_prefix);
        match message {
            None => Step::Done(Handled::Undecodable),
            Some(Message::Tick) => {
                let offset: i64 = signed_of(header.show_time_us).wrapping_sub(signed_of(now_us));
                self.clock_offset_us = offset;
                Step::Done(Handled::ClockSet { offset_us: offset })
            },
            Some(Message::ProgBegin { total_len }) => Step::Done(self.begin(total_len)),
            Some(Message::ProgChunk { offset, data }) => Step::Done(self.chunk(offset, data)),
            Some(Message::ProgEnd) => {
                if self.end() {
                    Step::Parse
                } else {
                    Step::Done(Handled::ProgramRejected)
                }
            },
            Some(Message::ChanClaim { channel_id, priority, lease_ms }) => Step::Channel {
                id: channel_id,
                now_us: self.show_time(now_us),
                sender: header.sender_prefix,
                request: ChannelRequest::Claim { priority, lease_ms },
            },
            Some(Message::Chan { channel_id, producer_seq, payload }) => Step::Channel {
                id: channel_id,
                now_us: self.show_time(now_us),
                sender: header.sender_prefix,
                request: ChannelRequest::Publish { seq: producer_seq, payload },
            },
            Some(
                Message::SrcPush {
                    source_id,
                    scene_id,
                    priority,
                    expires_at,
                    fade_in_ms,
                    fade_out_ms,
                },
            ) => {
                let now: u64 = self.show_time(now_us);
                Step::Push {
                    now_us: now,
                    source: SourceRecord {
                        id: source_id,
                        zone: ZONE,
                        scene: scene_id,
                        priority,
                        expires_at_us: expires_at,
                        fade_in_ms,
                        fade_out_ms,
                        pushed_at_us: now,
                        cost: SOURCE_COST,
                    },
                }
            },
            Some(Message::SrcPop { source_id }) => Step::Pop {
                now_us: self.show_time(now_us),
                source_id,
            },
            Some(Message::Other) => Step::Done(Handled::Ignored),
        }
    }

    fn begin(&mut self, total_len: u32) -> (r: Handled)
        requires
            old(self)@.wf(),
        ensures
            final(self)@ == old(self)@.begun(total_len),
            r == if total_len > MAX_PROGRAM {
                Handled::ProgramRejected
            } else {
                Handled::ProgramStarted { len: total_len }
            },
            final(self)@.wf(),
    {
        if total_len > MAX_PROGRAM as u32 {
            return Handled::ProgramRejected;
        }
        self.expected_len = total_len as usize;
        self.present = absent();
        self.program_len = 0;
        self.receiving = true;
        Handled::ProgramStarted { len: total_len }
    }

    /// Whether every byte that was declared has arrived. A transfer that lost
    /// one is not a program, wherever in it the byte was.
    fn end(&mut self) -> (r: bool)
        requires
            old(self)@.wf(),
        ensures
            final(self)@ == old(self)@.ended(),
            r == old(self)@.complete(),
            final(self)@.wf(),
    {
        if !self.receiving {
            return false;
        }
        self.receiving = false;
        let mut i: usize = 0;
        while i < self.expected_len
            invariant
                i <= self.expected_len <= MAX_PROGRAM,
                self.present@.len() == MAX_PROGRAM,
                forall|k: int| 0 <= k < i ==> #[trigger] self.present@[k],
                self@ == (NodeView { receiving: false, ..old(self)@ }),
                self.present@ == old(self)@.present,
                self.expected_len == old(self)@.expected_len,
                old(self)@.wf(),
                old(self)@.receiving,
            decreases self.expected_len - i,
        {
            if !self.present[i] {
                assert(!old(self)@.present[i as int]);
                self.program_len = 0;
                return false;
            }
            i = i + 1;
        }
        true
    }

    fn chunk(&mut self, offset: u32, data: &[u8]) -> (r: Handled)
        requires
            old(self)@.wf(),
        ensures
            final(self)@ == old(self)@.filled(offset, data@),
            r == if !old(self)@.receiving {
                Handled::Ignored
            } else if !old(self)@.fits(offset, data@) {
                Handled::ProgramRejected
            } else {
                Handled::ProgramChunk { at: offset, len: data@.len() as usize }
            },
            final(self)@.wf(),
    {
        if !self.receiving {
            return Handled::Ignored;
        }
        let len: usize = data.len();
        let limit: u32 = self.expected_len as u32;
        if offset > limit || len > (limit - offset) as usize {
            // Either a corrupt transfer or a different program's chunk arriving
            // late.
            self.receiving = false;
            self.program_len = 0;
            return Handled::ProgramRejected;
        }
        let at: usize = offset as usize;
        let end: usize = at + len;
        let ghost before = self.program@;
        let ghost there = self.present@;
        let mut i: usize = 0;
        while i < len
            invariant
                i <= len == data@.len(),
                at + len == end <= MAX_PROGRAM,
                before.len() == MAX_PROGRAM,
                self.program@ == before.take(at as int) + data@.take(i as int) + before.skip(at + i),
                there.len() == self.present@.len() == MAX_PROGRAM,
                forall|k: int|
                    0 <= k < MAX_PROGRAM ==> #[trigger] self.present@[k] == (there[k] || at <= k
                        < at + i),
                self.mesh_prefix == old(self).mesh_prefix,
                self.device == old(self).device,
                self.count == old(self).count,
                self.program_len == old(self).program_len,
                self.expected_len == old(self).expected_len,
                self.receiving == old(self).receiving,
                self.clock_offset_us == old(self).clock_offset_us,
                self.sources == old(self).sources,
                self.rendering == old(self).rendering,
            decreases len - i,
        {
            self.program.set(at + i, data[i]);
            self.present.set(at + i, true);
            i = i + 1;
            assert(self.program@ =~= before.take(at as int) + data@.take(i as int) + before.skip(
                at + i,
            ));
        }
        assert(data@.take(i as int) =~= data@);
        if end > self.program_len {
            self.program_len = end;
        }
        assert(self@ =~= old(self)@.filled(offset, data@));
        Handled::ProgramChunk { at: offset, len }
    }

    /// The program held was parsed, or could not be. The channels to declare: a
    /// device does not decide which ones it reads, the program tells it.
    pub fn parsed(&mut self, info: Option<ProgramInfo>) -> (r: (Handled, Vec<u16>))
        requires
            old(self)@.wf(),
        ensures
            final(self)@ == old(self)@.after_parse(info is Some),
            final(self)@.wf(),
            r.0 == match info {
                Some(p) => Handled::ProgramComplete {
                    len: old(self)@.program_len as usize,
                    budget: p.budget,
                    channels: p.slots@.len() as usize,
                },
                None => Handled::ProgramRejected,
            },
            r.1@ == match info {
                Some(p) => named(p.slots@),
                None => Seq::<u16>::empty(),
            },
            info matches Some(p) ==> r.0 == old(self)@.parsing(p.budget, p.slots@),
    {
        match info {
            Some(p) => {
                let ids: Vec<u16> = channel_ids(p.slots.as_slice());
                (
                    Handled::ProgramComplete {
                        len: self.program_len,
                        budget: p.budget,
                        channels: p.slots.len(),
                    },
                    ids,
                )
            },
            None => {
                self.receiving = false;
                self.program_len = 0;
                (Handled::ProgramRejected, Vec::new())
            },
        }
    }

    /// A push was admitted or refused, and `active` sources are on the stack.
    pub fn pushed(&mut self, priority: u8, admitted: bool, active: usize) -> (r: Handled)
        ensures
            final(self)@ == (NodeView {
                sources: active as nat,
                rendering: admitted || old(self)@.rendering,
                ..old(self)@
            }),
            final(self)@ == old(self)@.after_push(admitted, active as nat),
            r == push_told(priority, admitted),
            r == if admitted {
                Handled::SourcePushed { priority }
            } else {
                Handled::SourceRejected
            },
            old(self)@.wf() ==> final(self)@.wf(),
    {
        self.sources = active;
        if admitted {
            self.rendering = true;
            Handled::SourcePushed { priority }
        } else {
            Handled::SourceRejected
        }
    }

    /// A source was popped, and `active` sources are on the stack.
    pub fn popped(&mut self, active: usize) -> (r: Handled)
        ensures
            final(self)@ == (NodeView { sources: active as nat, ..old(self)@ }),
            final(self)@ == old(self)@.after_pop(active as nat),
            r == Handled::SourcePopped,
            old(self)@.wf() ==> final(self)@.wf(),
    {
        self.sources = active;
        Handled::SourcePopped
    }

    /// The show time to which the stack is to be advanced, which drops what has
    /// expired. Expiry is absolute, so it happens at the same instant on every
    /// device.
    pub fn advance(&self, now_us: u64) -> (r: u64)
        ensures
            r == self@.show_time(now_us),
    {
        self.show_time(now_us)
    }

    /// The stack was advanced, and `active` sources are on it.
    pub fn advanced(&mut self, active: usize)
        ensures
            final(self)@ == (NodeView {
                sources: active as nat,
                rendering: active > 0,
                ..old(self)@
            }),
            final(self)@ == old(self)@.after_advance(active as nat),
            old(self)@.wf() ==> final(self)@.wf(),
    {
        self.sources = active;
        self.rendering = active > 0;
    }

    /// What to draw at `now_us`, if bytes are held, they parse as a program and a
    /// source is admitted. Otherwise there is nothing to draw, and what the strip
    /// shows is left alone rather than blacked: a device with no source keeps
    /// showing what it was showing.
    pub fn render(&self, now_us: u64, parses: bool) -> (r: Option<Draw>)
        ensures
            r is None <==> self@.program_len == 0 || !parses || self@.sources == 0,
            r == self@.drawing(now_us, parses),
    {
        self.render_at(self.show_time(now_us), parses)
    }

    /// The same, at show time `show_us`, for a device whose show clock is not the
    /// node's.
    pub fn render_at(&self, show_us: u64, parses: bool) -> (r: Option<Draw>)
        ensures
            r == self@.drawing_at(show_us, parses),
    {
        if self.program_len == 0 || !parses || self.sources == 0 {
            return None;
        }
        Some(Draw { show_us, frame_us: frame_time(show_us) })
    }

    /// Take the time as it is given, whatever a tick said: the show clock is
    /// somebody else's to set.
    pub fn follow_the_clock(&mut self)
        ensures
            final(self)@ == (NodeView { clock_offset_us: 0, ..old(self)@ }),
            old(self)@.wf() ==> final(self)@.wf(),
    {
        self.clock_offset_us = 0;
        assert(self@ =~= (NodeView { clock_offset_us: 0, ..old(self)@ }));
    }
}

/// A run of chunks, each an offset and its bytes.
pub open spec fn after_chunks(node: NodeView, chunks: Seq<(u32, Seq<u8>)>) -> NodeView
    decreases chunks.len(),
{
    if chunks.len() == 0 {
        node
    } else {
        after_chunks(node, chunks.drop_last()).filled(chunks.last().0, chunks.last().1)
    }
}

/// A chunk is part of a program.
pub open spec fn is_part(chunk: (u32, Seq<u8>), bytes: Seq<u8>) -> bool {
    &&& chunk.0 + chunk.1.len() <= bytes.len()
    &&& chunk.1 == bytes.subrange(chunk.0 as int, chunk.0 + chunk.1.len())
}

/// A chunk carries byte `i` of a program.
pub open spec fn carries(chunk: (u32, Seq<u8>), i: int) -> bool {
    chunk.0 <= i < chunk.0 + chunk.1.len()
}

/// Byte `i` of a program arrived in some chunk.
pub open spec fn arrived(chunks: Seq<(u32, Seq<u8>)>, i: int) -> bool {
    exists|k: int| 0 <= k < chunks.len() && #[trigger] carries(chunks[k], i)
}

proof fn chunks_so_far(node: NodeView, bytes: Seq<u8>, chunks: Seq<(u32, Seq<u8>)>)
    requires
        node.wf(),
        bytes.len() <= MAX_PROGRAM,
        forall|k: int| 0 <= k < chunks.len() ==> is_part(#[trigger] chunks[k], bytes),
    ensures
        after_chunks(node.begun(bytes.len() as u32), chunks).wf(),
        after_chunks(node.begun(bytes.len() as u32), chunks).mesh_prefix == node.mesh_prefix,
        after_chunks(node.begun(bytes.len() as u32), chunks).receiving,
        after_chunks(node.begun(bytes.len() as u32), chunks).expected_len == bytes.len(),
        forall|k: int, i: int|
            0 <= k < chunks.len() && #[trigger] carries(chunks[k], i) ==> {
                &&& after_chunks(node.begun(bytes.len() as u32), chunks).program[i] == bytes[i]
                &&& after_chunks(node.begun(bytes.len() as u32), chunks).present[i]
            },
    decreases chunks.len(),
{
    let start = node.begun(bytes.len() as u32);
    if chunks.len() > 0 {
        let earlier = chunks.drop_last();
        assert forall|k: int| 0 <= k < earlier.len() implies is_part(#[trigger] earlier[k], bytes) by {
            assert(is_part(chunks[k], bytes));
        }
        chunks_so_far(node, bytes, earlier);
        let before = after_chunks(start, earlier);
        let last = chunks.last();
        assert(is_part(chunks[chunks.len() - 1], bytes));
        let now = before.filled(last.0, last.1);
        assert(after_chunks(start, chunks) == now);
        assert forall|k: int, i: int|
            0 <= k < chunks.len() && #[trigger] carries(chunks[k], i) implies now.program[i]
            == bytes[i] && now.present[i] by {
            assert(is_part(chunks[k], bytes));
            if k < earlier.len() {
                assert(carries(earlier[k], i));
            }
        }
    }
}

/// A transfer hands over exactly the program that was sent: once every byte has
/// arrived, in whatever order and however often, the end of the transfer asks
/// for those bytes to be parsed.
pub proof fn a_transfer_hands_over_what_was_sent(
    node: NodeView,
    bytes: Seq<u8>,
    chunks: Seq<(u32, Seq<u8>)>,
    header: Header,
    now_us: u64,
)
    requires
        node.wf(),
        bytes.len() <= MAX_PROGRAM,
        header.mesh_prefix == node.mesh_prefix,
        forall|k: int| 0 <= k < chunks.len() ==> is_part(#[trigger] chunks[k], bytes),
        forall|i: int| 0 <= i < bytes.len() ==> #[trigger] arrived(chunks, i),
    ensures
        ({
            let node = after_chunks(node.begun(bytes.len() as u32), chunks);
            let end = Decoded::Datagram { header, message: Some(Message::ProgEnd) };
            &&& node.step(end, now_us) == Step::Parse
            &&& node.after(end, now_us).held() == bytes
        }),
{
    chunks_so_far(node, bytes, chunks);
    let there = after_chunks(node.begun(bytes.len() as u32), chunks);
    assert forall|i: int|
        #![trigger there.program[i]]
        #![trigger there.present[i]]
        0 <= i < bytes.len() implies there.program[i] == bytes[i] && there.present[i] by {
        assert(arrived(chunks, i));
        let k = choose|k: int| 0 <= k < chunks.len() && #[trigger] carries(chunks[k], i);
        assert(carries(chunks[k], i));
    }
    a_complete_program_is_as_long_as_declared(there);
    assert(there.program.take(there.program_len as int) =~= bytes);
}

/// Once every byte has arrived, the program held is as long as it was declared
/// to be.
pub proof fn a_complete_program_is_as_long_as_declared(node: NodeView)
    requires
        node.wf(),
        node.complete(),
    ensures
        node.program_len == node.expected_len,
{
    if node.expected_len > 0 {
        assert(node.present[node.expected_len - 1]);
    }
}

/// A run of datagrams, each as it was decoded and when it arrived.
pub open spec fn after_run(node: NodeView, run: Seq<(Decoded, u64)>) -> NodeView
    decreases run.len(),
{
    if run.len() == 0 {
        node
    } else {
        after_run(node, run.drop_last()).after(run.last().0, run.last().1)
    }
}

/// A datagram that starts a transfer on this node.
pub open spec fn starts(node: NodeView, decoded: Decoded) -> bool {
    decoded matches Decoded::Datagram {
        header,
        message: Some(Message::ProgBegin { total_len }),
    } && header.mesh_prefix == node.mesh_prefix && total_len <= MAX_PROGRAM
}

/// A chunk that this node accepts, and that carries byte `i`.
pub open spec fn brings(node: NodeView, decoded: Decoded, i: int) -> bool {
    decoded matches Decoded::Datagram {
        header,
        message: Some(Message::ProgChunk { offset, data }),
    } && header.mesh_prefix == node.mesh_prefix && node.receiving && node.fits(offset, data@)
        && carries((offset, data@), i)
}

/// Byte `i` of a transfer that has begun on `node` is not among what a run of
/// datagrams brings, and the run starts no other transfer.
pub open spec fn never_comes(node: NodeView, run: Seq<(Decoded, u64)>, i: int) -> bool
    decreases run.len(),
{
    if run.len() == 0 {
        true
    } else {
        let before = after_run(node, run.drop_last());
        &&& never_comes(node, run.drop_last(), i)
        &&& !starts(before, run.last().0)
        &&& !brings(before, run.last().0, i)
    }
}

proof fn a_byte_stays_away(node: NodeView, total_len: u32, run: Seq<(Decoded, u64)>, i: int)
    requires
        node.wf(),
        0 <= i < total_len <= MAX_PROGRAM,
        never_comes(node.begun(total_len), run, i),
    ensures
        ({
            let there = after_run(node.begun(total_len), run);
            &&& there.mesh_prefix == node.mesh_prefix
            &&& there.expected_len == total_len
            &&& !there.present[i]
            &&& !there.receiving ==> there.program_len == 0
        }),
    decreases run.len(),
{
    if run.len() > 0 {
        a_byte_stays_away(node, total_len, run.drop_last(), i);
        let before = after_run(node.begun(total_len), run.drop_last());
        assert(!before.present[i]);
        assert(!before.complete());
    }
}

/// A transfer that lost a byte never becomes a program, whichever byte it was
/// and whatever else arrived meanwhile: as long as no chunk that was accepted
/// carried it, the end is rejected, nothing is parsed, and nothing of it is held.
pub proof fn a_transfer_that_lost_a_byte_is_rejected(
    node: NodeView,
    total_len: u32,
    run: Seq<(Decoded, u64)>,
    i: int,
    header: Header,
    now_us: u64,
)
    requires
        node.wf(),
        0 <= i < total_len <= MAX_PROGRAM,
        header.mesh_prefix == node.mesh_prefix,
        never_comes(node.begun(total_len), run, i),
    ensures
        ({
            let there = after_run(node.begun(total_len), run);
            let end = Decoded::Datagram { header, message: Some(Message::ProgEnd) };
            &&& there.step(end, now_us) == Step::Done(Handled::ProgramRejected)
            &&& there.after(end, now_us).program_len == 0
        }),
{
    a_byte_stays_away(node, total_len, run, i);
    let there = after_run(node.begun(total_len), run);
    assert(!there.present[i]);
    assert(!there.complete());
}

/// A chunk that reaches past the declared length is never written, and ends the
/// transfer, which comes to nothing.
pub proof fn a_bad_chunk_is_never_written(node: NodeView, offset: u32, data: Seq<u8>)
    requires
        !node.fits(offset, data),
    ensures
        node.filled(offset, data).program == node.program,
        !node.filled(offset, data).receiving,
        node.receiving ==> node.filled(offset, data).program_len == 0,
        !node.receiving ==> node.filled(offset, data) == node,
{
}

/// Nothing that is not for this mesh changes anything.
pub proof fn another_mesh_changes_nothing(
    node: NodeView,
    header: Header,
    message: Option<Message>,
    now_us: u64,
)
    requires
        header.mesh_prefix != node.mesh_prefix,
    ensures
        node.after(Decoded::Datagram { header, message }, now_us) == node,
        node.step(Decoded::Datagram { header, message }, now_us) == Step::Done(
            Handled::NotForThisMesh,
        ),
{
}

/// After a tick the node reads the show time that the tick carried.
pub proof fn a_tick_sets_the_show_time(node: NodeView, header: Header, now_us: u64)
    requires
        header.mesh_prefix == node.mesh_prefix,
        now_us <= i64::MAX,
        header.show_time_us <= i64::MAX,
    ensures
        node.after(Decoded::Datagram { header, message: Some(Message::Tick) }, now_us).show_time(
            now_us,
        ) == header.show_time_us,
{
}

/// The frame drawn is the one the show time falls in, so that all nodes of a
/// mesh draw on one grid.
pub proof fn a_frame_starts_at_or_before_its_time(show_us: u64)
    ensures
        frame_start(show_us) <= show_us < frame_start(show_us) + FRAME_US,
        frame_start(show_us) as int % FRAME_US as int == 0,
{
}

/// The source that a push puts on the stack is the one that was sent: its identity,
/// scene, priority, expiry and both fades are those of the message, it is pushed at
/// the show time it arrived, and it is in the one zone of the device.
pub proof fn the_source_pushed_is_the_one_sent(
    node: NodeView,
    header: Header,
    source_id: [u8; 16],
    scene_id: [u8; 16],
    priority: u8,
    expires_at: Option<u64>,
    fade_in_ms: u32,
    fade_out_ms: u32,
    now_us: u64,
)
    requires
        header.mesh_prefix == node.mesh_prefix,
    ensures
        ({
            let push = Decoded::Datagram {
                header,
                message: Some(
                    Message::SrcPush {
                        source_id,
                        scene_id,
                        priority,
                        expires_at,
                        fade_in_ms,
                        fade_out_ms,
                    },
                ),
            };
            &&& node.step(push, now_us) matches Step::Push { now_us: at, source } && {
                &&& source.id == source_id
                &&& source.scene == scene_id
                &&& source.priority == priority
                &&& source.expires_at_us == expires_at
                &&& source.fade_in_ms == fade_in_ms
                &&& source.fade_out_ms == fade_out_ms
                &&& source.zone@ == Seq::new(16, |i: int| 50u8)
                &&& source.cost == 10
                &&& source.pushed_at_us == at
                &&& 0 <= now_us + node.clock_offset_us <= u64::MAX ==> at == now_us
                    + node.clock_offset_us
            }
            &&& node.after(push, now_us) == node
        }),
{
    assert(ZONE@ =~= Seq::new(16, |i: int| 50u8));
}

/// The source that a pop takes off is the one that was named, at the show time it
/// arrived.
pub proof fn the_source_popped_is_the_one_named(
    node: NodeView,
    header: Header,
    source_id: [u8; 16],
    now_us: u64,
)
    requires
        header.mesh_prefix == node.mesh_prefix,
    ensures
        ({
            let pop = Decoded::Datagram { header, message: Some(Message::SrcPop { source_id }) };
            &&& node.step(pop, now_us) matches Step::Pop { now_us: at, source_id: id } && {
                &&& id == source_id
                &&& 0 <= now_us + node.clock_offset_us <= u64::MAX ==> at == now_us
                    + node.clock_offset_us
            }
            &&& node.after(pop, now_us) == node
        }),
{
}

/// What is claimed or published is what was sent, on the channel that was named and
/// for the node that sent it, at the show time it arrived.
pub proof fn a_channel_is_asked_for_what_was_sent(
    node: NodeView,
    header: Header,
    message: Message,
    now_us: u64,
)
    requires
        header.mesh_prefix == node.mesh_prefix,
        message is ChanClaim || message is Chan,
    ensures
        ({
            let sent = Decoded::Datagram { header, message: Some(message) };
            &&& node.step(sent, now_us) matches Step::Channel { id, now_us: at, sender, request }
                && {
                &&& sender == header.sender_prefix
                &&& 0 <= now_us + node.clock_offset_us <= u64::MAX ==> at == now_us
                    + node.clock_offset_us
                &&& message matches Message::ChanClaim { channel_id, priority, lease_ms } ==> {
                    &&& id == channel_id
                    &&& request == (ChannelRequest::Claim { priority, lease_ms })
                }
                &&& message matches Message::Chan { channel_id, producer_seq, payload } ==> {
                    &&& id == channel_id
                    &&& request == (ChannelRequest::Publish { seq: producer_seq, payload })
                }
            }
            &&& node.after(sent, now_us) == node
        }),
{
}

/// A value that is published is read as it was written, negative ones too, and is
/// what the channel is set to. What follows the value is not looked at.
pub proof fn a_value_published_is_the_value_set(
    id: u16,
    seq: u16,
    payload: &[u8],
    value: i32,
    rest: Seq<u8>,
)
    requires
        payload@ == le::field(
            if value >= 0 {
                value as nat
            } else {
                (value + 0x1_0000_0000) as nat
            },
            4,
        ) + rest,
    ensures
        settled(id, ChannelRequest::Publish { seq, payload }, true) == (
            Handled::ChannelSet { id, value },
            Some(ChannelWrite::Publish { seq, value }),
        ),
{
    let v: nat = if value >= 0 {
        value as nat
    } else {
        (value + 0x1_0000_0000) as nat
    };
    le::reaches();
    le::value_of_field(v, 4);
    assert(payload@.subrange(0, 4) =~= le::field(v, 4));
}

/// Only a channel that the program reads is written, and only with something that
/// says what: a claim as it was made, or a value of four bytes at least. Everything
/// else is told, and writes nothing.
pub proof fn only_a_channel_that_is_read_is_written(id: u16, request: ChannelRequest, known: bool)
    ensures
        settled(id, request, known).1 is Some <==> known && (request matches ChannelRequest::Publish {
            payload,
            ..
        } ==> payload@.len() >= 4),
        !known ==> settled(id, request, known).0 == (Handled::ChannelUnknown { id }),
        known ==> (request matches ChannelRequest::Claim { priority, lease_ms } ==> settled(
            id,
            request,
            known,
        ) == (
            Handled::ChannelClaimed { id },
            Some(ChannelWrite::Claim { priority, lease_ms }),
        )),
        known ==> (request matches ChannelRequest::Publish { payload, .. } ==> payload@.len() < 4
            ==> settled(id, request, known).0 == Handled::Undecodable),
{
}

/// The channels named come in the order of the slots, each as often as it is
/// named: those of two runs of slots are those of the first and then of the second.
pub proof fn channels_are_named_in_order(first: Seq<Option<u16>>, second: Seq<Option<u16>>)
    ensures
        named(first + second) == named(first) + named(second),
        forall|id: u16| named(#[trigger] first.push(Some(id))) == named(first).push(id),
        named(first.push(None)) == named(first),
    decreases second.len(),
{
    assert forall|id: u16| named(#[trigger] first.push(Some(id))) == named(first).push(id) by {
        assert(first.push(Some(id)).drop_last() =~= first);
    }
    assert(first.push(None).drop_last() =~= first);
    if second.len() == 0 {
        assert(first + second =~= first);
        assert(named(first) + named(second) =~= named(first));
    } else {
        channels_are_named_in_order(first, second.drop_last());
        assert((first + second).drop_last() =~= first + second.drop_last());
        assert((first + second).last() == second.last());
        assert(named(first + second) =~= named(first) + named(second));
    }
}

/// A picture is staged pixel by pixel, red, green and blue of each, as many whole
/// pixels as there are up to three hundred.
pub proof fn a_picture_is_staged_pixel_by_pixel(frame: Seq<Rgb>, k: int)
    requires
        0 <= k < frame.len(),
        k < 300,
    ensures
        frame.len() <= 300 ==> staged(frame).len() == 3 * frame.len(),
        frame.len() >= 300 ==> staged(frame).len() == 900,
        staged(frame)[3 * k] == frame[k].r,
        staged(frame)[3 * k + 1] == frame[k].g,
        staged(frame)[3 * k + 2] == frame[k].b,
{
}

/// Show time runs as device time does, from where the last tick set it, and stays
/// within its range.
pub proof fn show_time_runs_with_the_device(
    node: NodeView,
    header: Header,
    now_us: u64,
    later_us: u64,
)
    requires
        header.mesh_prefix == node.mesh_prefix,
        i64::MIN <= header.show_time_us - now_us <= i64::MAX,
    ensures
        ({
            let tick = Decoded::Datagram { header, message: Some(Message::Tick) };
            let after = node.after(tick, now_us);
            let due = header.show_time_us + later_us - now_us;
            &&& node.step(tick, now_us) == Step::Done(
                Handled::ClockSet { offset_us: (header.show_time_us - now_us) as i64 },
            )
            &&& after.clock_offset_us == header.show_time_us - now_us
            &&& 0 <= due <= u64::MAX ==> after.show_time(later_us) == due
            &&& due < 0 ==> after.show_time(later_us) == 0
            &&& due > u64::MAX ==> after.show_time(later_us) == u64::MAX
        }),
{
    crate::modular::reading_as_signed_keeps_differences(header.show_time_us, now_us);
}

/// There is something to draw exactly if a program is held that parses and a source
/// is admitted: the show time asked about, and the frame of the grid it falls in.
pub proof fn what_is_drawn_is_the_frame_of_the_time(node: NodeView, show_us: u64, parses: bool)
    ensures
        node.drawing_at(show_us, parses) is Some <==> node.program_len > 0 && parses && node.sources
            > 0,
        node.drawing_at(show_us, parses) matches Some(draw) ==> {
            &&& draw.show_us == show_us
            &&& draw.frame_us <= show_us < draw.frame_us + 33_333
            &&& draw.frame_us as int % 33_333 == 0
        },
        forall|now_us: u64| #[trigger]
            node.drawing(now_us, parses) == node.drawing_at(node.show_time(now_us), parses),
{
}

/// A program of up to four kilobytes can be sent, and one that is longer is refused
/// and changes nothing. One that is begun starts with nothing of it there.
pub proof fn a_program_begins_with_nothing(
    node: NodeView,
    header: Header,
    total_len: u32,
    now_us: u64,
)
    requires
        header.mesh_prefix == node.mesh_prefix,
    ensures
        ({
            let begin = Decoded::Datagram {
                header,
                message: Some(Message::ProgBegin { total_len }),
            };
            let after = node.after(begin, now_us);
            &&& total_len > 4_096 ==> after == node && node.step(begin, now_us) == Step::Done(
                Handled::ProgramRejected,
            )
            &&& total_len <= 4_096 ==> {
                &&& node.step(begin, now_us) == Step::Done(
                    Handled::ProgramStarted { len: total_len },
                )
                &&& after.receiving
                &&& after.expected_len == total_len
                &&& after.held().len() == 0
                &&& forall|i: int| 0 <= i < 4_096 ==> !(#[trigger] after.present[i])
                &&& after.program == node.program
            }
        }),
{
}

/// A chunk that lies within the program is written where it says and nowhere else,
/// and what is held reaches to the end of what was written furthest.
pub proof fn a_chunk_is_written_where_it_says(
    node: NodeView,
    header: Header,
    offset: u32,
    data: &[u8],
    now_us: u64,
    i: int,
)
    requires
        node.wf(),
        header.mesh_prefix == node.mesh_prefix,
        node.receiving,
        offset + data@.len() <= node.expected_len,
        0 <= i < 4_096,
    ensures
        ({
            let chunk = Decoded::Datagram {
                header,
                message: Some(Message::ProgChunk { offset, data }),
            };
            let after = node.after(chunk, now_us);
            &&& node.step(chunk, now_us) == Step::Done(
                Handled::ProgramChunk { at: offset, len: data@.len() as usize },
            )
            &&& offset <= i < offset + data@.len() ==> after.program[i] == data@[i - offset]
                && after.present[i]
            &&& !(offset <= i < offset + data@.len()) ==> after.program[i] == node.program[i]
                && after.present[i] == node.present[i]
            &&& after.receiving
            &&& after.expected_len == node.expected_len
            &&& after.program_len >= node.program_len
            &&& after.program_len >= offset + data@.len()
            &&& after.program_len == node.program_len || after.program_len == offset + data@.len()
        }),
{
}

/// A chunk without a transfer is ignored; one that does not lie within the program
/// is refused, and so is an end to which something is missing. What is not a
/// datagram, or whose payload cannot be read, is undecodable, and any other payload
/// is ignored.
pub proof fn what_cannot_be_taken_is_told(
    node: NodeView,
    header: Header,
    offset: u32,
    data: &[u8],
    now_us: u64,
)
    requires
        node.wf(),
        header.mesh_prefix == node.mesh_prefix,
    ensures
        ({
            let chunk = Decoded::Datagram {
                header,
                message: Some(Message::ProgChunk { offset, data }),
            };
            let end = Decoded::Datagram { header, message: Some(Message::ProgEnd) };
            let other = Decoded::Datagram { header, message: Some(Message::Other) };
            &&& !node.receiving ==> node.step(chunk, now_us) == Step::Done(Handled::Ignored)
                && node.after(chunk, now_us) == node
            &&& node.receiving && offset + data@.len() > node.expected_len ==> node.step(
                chunk,
                now_us,
            ) == Step::Done(Handled::ProgramRejected)
            &&& !node.receiving ==> node.step(end, now_us) == Step::Done(Handled::ProgramRejected)
                && node.after(end, now_us) == node
            &&& node.step(other, now_us) == Step::Done(Handled::Ignored)
            &&& node.after(other, now_us) == node
            &&& node.step(Decoded::Garbage, now_us) == Step::Done(Handled::Undecodable)
            &&& node.after(Decoded::Garbage, now_us) == node
            &&& node.step(Decoded::Datagram { header, message: None }, now_us) == Step::Done(
                Handled::Undecodable,
            )
            &&& node.after(Decoded::Datagram { header, message: None }, now_us) == node
        }),
{
}

/// No datagram changes what a node is, how many sources it has been told of, or
/// whether it renders; only a tick moves its clock, and only a chunk its buffer.
pub proof fn a_datagram_changes_only_what_it_is_about(
    node: NodeView,
    decoded: Decoded,
    now_us: u64,
)
    ensures
        ({
            let after = node.after(decoded, now_us);
            &&& after.mesh_prefix == node.mesh_prefix
            &&& after.device == node.device
            &&& after.leds == node.leds
            &&& after.sources == node.sources
            &&& after.rendering == node.rendering
            &&& !(decoded matches Decoded::Datagram { message: Some(Message::Tick), .. })
                ==> after.clock_offset_us == node.clock_offset_us
            &&& !(decoded matches Decoded::Datagram { message: Some(Message::ProgChunk { .. }), .. })
                ==> after.program == node.program
        }),
{
}

/// A transfer that is over is over: its end leaves none under way, and what it left
/// is held as long as it parses.
pub proof fn an_end_leaves_no_transfer(node: NodeView, header: Header, now_us: u64, good: bool)
    requires
        header.mesh_prefix == node.mesh_prefix,
    ensures
        ({
            let end = Decoded::Datagram { header, message: Some(Message::ProgEnd) };
            let after = node.after(end, now_us);
            &&& !after.receiving
            &&& after.program == node.program
            &&& good ==> after.after_parse(good) == after
            &&& !good ==> after.after_parse(good).held().len() == 0 && !after.after_parse(
                good,
            ).receiving
        }),
{
}

/// A node that has been sent nothing holds nothing, draws nothing, expects nothing,
/// and runs on the time of its device.
pub proof fn a_fresh_node_is_on_its_own(
    mesh_prefix: [u8; 2],
    device: [u8; 16],
    count: u16,
    now_us: u64,
    parses: bool,
)
    ensures
        ({
            let node = NodeView::fresh(mesh_prefix, device, count);
            &&& node.mesh_prefix == mesh_prefix
            &&& node.device == device
            &&& node.leds == count
            &&& node.held().len() == 0
            &&& !node.receiving
            &&& node.drawing(now_us, parses) is None
            &&& node.show_time(now_us) == now_us
            &&& !node.rendering
        }),
{
}

/// A node knows of as many sources as it was told of last. It renders once a push was
/// admitted, and until the stack is advanced and none is left; a push that was
/// refused and a pop change nothing about that.
pub proof fn a_node_renders_while_there_are_sources(node: NodeView, admitted: bool, active: nat)
    ensures
        node.after_push(admitted, active).sources == active,
        node.after_push(admitted, active).rendering <==> admitted || node.rendering,
        node.after_pop(active).sources == active,
        node.after_pop(active).rendering == node.rendering,
        node.after_advance(active).sources == active,
        node.after_advance(active).rendering <==> active > 0,
        node.after_push(admitted, active).held() == node.held(),
        node.after_pop(active).held() == node.held(),
        node.after_advance(active).held() == node.held(),
        node.after_push(admitted, active).clock_offset_us == node.clock_offset_us,
        node.after_pop(active).clock_offset_us == node.clock_offset_us,
        node.after_advance(active).clock_offset_us == node.clock_offset_us,
        node.after_push(admitted, active).receiving == node.receiving,
        node.after_pop(active).receiving == node.receiving,
        node.after_advance(active).receiving == node.receiving,
        node.after_push(admitted, active).present == node.present,
        node.after_pop(active).present == node.present,
        node.after_advance(active).present == node.present,
{
}

/// What is told of a program that parses is how long it is, what a pixel of it costs
/// and how many slots it has, whether or not they name a channel.
pub proof fn what_is_told_of_a_program_is_its_own(
    node: NodeView,
    budget: u32,
    slots: Seq<Option<u16>>,
)
    requires
        node.wf(),
        slots.len() <= usize::MAX,
    ensures
        node.parsing(budget, slots) matches Handled::ProgramComplete {
            len,
            budget: told,
            channels,
        } && len == node.held().len() && told == budget && channels == slots.len(),
        named(slots).len() <= slots.len(),
{
    no_more_channels_than_slots(slots);
}

proof fn no_more_channels_than_slots(slots: Seq<Option<u16>>)
    ensures
        named(slots).len() <= slots.len(),
    decreases slots.len(),
{
    if slots.len() > 0 {
        no_more_channels_than_slots(slots.drop_last());
    }
}

/// However far apart the two times are, a tick sets the difference, up to a multiple of
/// two to the sixty-fourth.
pub proof fn a_tick_sets_the_difference(node: NodeView, header: Header, now_us: u64)
    requires
        header.mesh_prefix == node.mesh_prefix,
    ensures
        exists|k: int|
            -1 <= k <= 1 && node.after(
                Decoded::Datagram { header, message: Some(Message::Tick) },
                now_us,
            ).clock_offset_us == header.show_time_us - now_us + #[trigger] (k
                * 0x1_0000_0000_0000_0000),
        node.step(
            Decoded::Datagram { header, message: Some(Message::Tick) },
            now_us,
        ) matches Step::Done(Handled::ClockSet { offset_us }) && offset_us == node.after(
            Decoded::Datagram { header, message: Some(Message::Tick) },
            now_us,
        ).clock_offset_us,
{
    crate::modular::differences_wrap(header.show_time_us, now_us, 0, 0);
}

/// A push that was admitted is told with the priority it was sent with, and one that
/// was not is told to have been refused.
pub proof fn a_push_is_told_with_its_priority(priority: u8, admitted: bool)
    ensures
        admitted ==> (push_told(priority, admitted) matches Handled::SourcePushed {
            priority: told,
        } && told == priority),
        !admitted ==> push_told(priority, admitted) == Handled::SourceRejected,
{
}

} // verus!
