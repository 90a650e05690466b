//! The sync exchange, and the roles either side of it.
//!
//! A request carries `t1`; the answer echoes it with `t2`, when the request
//! arrived, and `t3`, when the answer left; the requester notes `t4`, when that
//! arrived. Everything here takes a time and some bytes and hands back bytes.

use vstd::prelude::*;

use crate::le;
use crate::modular::half_towards_zero;
use crate::modular::signed;
use crate::modular::signed_of;
use crate::net::Endpoint;
use crate::net::EVERYONE;
use crate::text::same_text;
use crate::time_sync::stats::Samples;
use crate::time_sync::stats::SamplesView;

verus! {

/// The port of both roles.
pub const PORT: u16 = 6353;

/// Message types.
pub const TICK: u8 = 0x10;

pub const SYNC_REQ: u8 = 0x11;

pub const SYNC_RESP: u8 = 0x12;

/// The type byte and `t1`.
pub const REQ_LEN: usize = 9;

/// The type byte, the echoed `t1`, then `t2` and `t3`.
pub const RESP_LEN: usize = 25;

/// How often a master announces itself.
pub const TICK_INTERVAL_US: u64 = 1_000_000;

/// How often a follower asks.
pub const REQUEST_INTERVAL_US: u64 = 200_000;

/// How many samples are taken between reports.
pub const REPORT_EVERY: usize = 100;

/// How many requests are sent between progress notes.
pub const NOTE_EVERY: u32 = 25;

/// A message, in a buffer long enough for the longest.
pub struct Datagram {
    bytes: [u8; RESP_LEN],
    len: usize,
}

impl View for Datagram {
    type V = Seq<u8>;

    closed spec fn view(&self) -> Seq<u8> {
        if self.len <= RESP_LEN {
            self.bytes@.take(self.len as int)
        } else {
            self.bytes@
        }
    }
}

impl Datagram {
    pub fn new() -> (r: Datagram)
        ensures
            r@ == Seq::<u8>::empty(),
    {
        let r = Datagram { bytes: [0;RESP_LEN], len: 0 };
        assert(r@ =~= Seq::<u8>::empty());
        r
    }

    /// One byte more, if there is room for it.
    pub fn push(&mut self, b: u8)
        ensures
            final(self)@ == if old(self)@.len() < RESP_LEN {
                old(self)@.push(b)
            } else {
                old(self)@
            },
    {
        let ghost before = self@;
        if self.len < RESP_LEN {
            self.bytes[self.len] = b;
            self.len = self.len + 1;
            assert(self@ =~= before.push(b));
        }
    }

    /// Eight bytes more, as far as there is room for them.
    pub fn push_u64(&mut self, v: u64)
        ensures
            final(self)@ == (old(self)@ + le::field(v as nat, 8)).take(
                if old(self)@.len() + 8 <= RESP_LEN {
                    old(self)@.len() as int + 8
                } else {
                    RESP_LEN as int
                },
            ),
    {
        let ghost before = self@;
        let bytes: [u8; 8] = le::u64_bytes(v);
        let mut i: usize = 0;
        assert(before.len() <= RESP_LEN);
        assert((before + bytes@).take(before.len() as int) =~= before);
        while i < 8
            invariant
                i <= 8,
                before.len() <= RESP_LEN,
                self@ == (before + bytes@).take(
                    if before.len() + i <= RESP_LEN {
                        before.len() as int + i
                    } else {
                        RESP_LEN as int
                    },
                ),
            decreases 8 - i,
        {
            let ghost earlier = self@;
            self.push(bytes[i]);
            assert(before.len() + i < RESP_LEN ==> self@ =~= (before + bytes@).take(
                before.len() + i + 1,
            ));
            i = i + 1;
        }
    }
}

impl core::ops::Deref for Datagram {
    type Target = [u8];

    /// The bytes of the message.
    fn deref(&self) -> (r: &[u8])
        ensures
            r@ == self@,
    {
        if self.len <= RESP_LEN {
            vstd::slice::slice_subrange(self.bytes.as_slice(), 0, self.len)
        } else {
            self.bytes.as_slice()
        }
    }
}

/// The announcement of a master.
pub open spec fn tick_message() -> Seq<u8> {
    seq![TICK]
}

/// A request sent at `t1`.
pub open spec fn request_message(t1: u64) -> Seq<u8> {
    seq![SYNC_REQ] + le::field(t1 as nat, 8)
}

/// The answer to a request.
pub open spec fn response_message(t1: u64, t2: u64, t3: u64) -> Seq<u8> {
    seq![SYNC_RESP] + le::field(t1 as nat, 8) + le::field(t2 as nat, 8) + le::field(t3 as nat, 8)
}

pub open spec fn is_tick(bytes: Seq<u8>) -> bool {
    bytes.len() >= 1 && bytes[0] == TICK
}

pub open spec fn is_request(bytes: Seq<u8>) -> bool {
    bytes.len() >= REQ_LEN && bytes[0] == SYNC_REQ
}

pub open spec fn is_response(bytes: Seq<u8>) -> bool {
    bytes.len() >= RESP_LEN && bytes[0] == SYNC_RESP
}

/// The timestamp at `at`.
pub open spec fn stamp(bytes: Seq<u8>, at: int) -> u64 {
    le::value(bytes.subrange(at, at + 8)) as u64
}

/// How far the master's clock is ahead.
pub open spec fn offset_of(t1: u64, t2: u64, t3: u64, t4: u64) -> i64 {
    let out = signed(t2).wrapping_sub(signed(t1));
    let back = signed(t3).wrapping_sub(signed(t4));
    half_towards_zero(out.wrapping_add(back) as int) as i64
}

/// How long the exchange spent in the air.
pub open spec fn rtt_of(t1: u64, t2: u64, t3: u64, t4: u64) -> i64 {
    let whole = signed(t4).wrapping_sub(signed(t1));
    let held = signed(t3).wrapping_sub(signed(t2));
    whole.wrapping_sub(held)
}

pub fn offset(t1: u64, t2: u64, t3: u64, t4: u64) -> (r: i64)
    ensures
        r == offset_of(t1, t2, t3, t4),
{
    let out: i64 = signed_of(t2).wrapping_sub(signed_of(t1));
    let back: i64 = signed_of(t3).wrapping_sub(signed_of(t4));
    out.wrapping_add(back) / 2
}

pub fn rtt(t1: u64, t2: u64, t3: u64, t4: u64) -> (r: i64)
    ensures
        r == rtt_of(t1, t2, t3, t4),
{
    let whole: i64 = signed_of(t4).wrapping_sub(signed_of(t1));
    let held: i64 = signed_of(t3).wrapping_sub(signed_of(t2));
    whole.wrapping_sub(held)
}

/// What is worth telling whoever watches.
#[derive(Clone, Copy, PartialEq, Eq, Debug)]
pub enum Note {
    Quiet,
    /// A master announced itself, having answered so many requests.
    Ticked { answered: u32 },
    /// A follower has sent so many requests and heard so many replies.
    Asked { sent: u32, heard: u32 },
    /// A follower learned where the master is.
    Found { addr: [u8; 4] },
    /// A report is due.
    Report,
}

/// What to send, if anything, and what to tell.
pub struct Step {
    pub send: Option<(Endpoint, Datagram)>,
    pub note: Note,
}

pub struct StepView {
    pub send: Option<(Endpoint, Seq<u8>)>,
    pub note: Note,
}

impl View for Step {
    type V = StepView;

    open spec fn view(&self) -> StepView {
        StepView {
            send: match self.send {
                Some((to, datagram)) => Some((to, datagram@)),
                None => None,
            },
            note: self.note,
        }
    }
}

/// One end of the exchange.
pub enum State {
    /// Answers requests, and announces itself so that a follower needs no
    /// address.
    Master {
        next_tick_us: u64,
        /// Requests answered. A master that ticks and never answers is a
        /// different fault from one that is not running.
        answered: u32,
    },
    /// Asks, filters and accumulates.
    Follower {
        master: Option<Endpoint>,
        samples: Samples,
        /// When the first sample came, and the offset it gave.
        first_offset: Option<(u64, i64)>,
        /// Requests sent and replies heard, so that silence can be attributed.
        sent: u32,
        heard: u32,
    },
}

pub enum StateView {
    Master { next_tick_us: u64, answered: nat },
    Follower {
        master: Option<Endpoint>,
        samples: SamplesView,
        first_offset: Option<(u64, i64)>,
        sent: nat,
        heard: nat,
    },
}

impl View for State {
    type V = StateView;

    open spec fn view(&self) -> StateView {
        match self {
            State::Master { next_tick_us, answered } => StateView::Master {
                next_tick_us: *next_tick_us,
                answered: *answered as nat,
            },
            State::Follower { master, samples, first_offset, sent, heard } => StateView::Follower {
                master: *master,
                samples: samples@,
                first_offset: *first_offset,
                sent: *sent as nat,
                heard: *heard as nat,
            },
        }
    }
}

/// Where a master announces itself.
pub open spec fn broadcast_endpoint() -> Endpoint {
    Endpoint { addr: EVERYONE, port: PORT }
}

/// Where an answer goes: back to the host it came from, on the common port.
pub open spec fn reply_endpoint(from: Endpoint) -> Endpoint {
    Endpoint { addr: from.addr, port: PORT }
}

impl StateView {
    /// How long to wait before the next scheduled send.
    pub open spec fn interval(self) -> u64 {
        match self {
            StateView::Master { .. } => TICK_INTERVAL_US,
            StateView::Follower { .. } => REQUEST_INTERVAL_US,
        }
    }

    /// After the scheduled send.
    pub open spec fn after_tick(self, now: u64) -> StateView {
        match self {
            StateView::Master { next_tick_us, answered } => StateView::Master {
                next_tick_us: (now + TICK_INTERVAL_US) as u64,
                answered,
            },
            StateView::Follower { master, samples, first_offset, sent, heard } => match master {
                Some(_) => StateView::Follower {
                    master,
                    samples,
                    first_offset,
                    sent: sent + 1,
                    heard,
                },
                None => self,
            },
        }
    }

    /// What the scheduled send is, if it goes out at `send_us`.
    pub open spec fn tick_step(self, send_us: u64) -> StepView {
        match self {
            StateView::Master { next_tick_us, answered } => StepView {
                send: Some((broadcast_endpoint(), tick_message())),
                note: Note::Ticked { answered: answered as u32 },
            },
            StateView::Follower { master, samples, first_offset, sent, heard } => match master {
                Some(to) => StepView {
                    send: Some((to, request_message(send_us))),
                    note: if (sent + 1) % NOTE_EVERY as nat == 0 {
                        Note::Asked { sent: (sent + 1) as u32, heard: heard as u32 }
                    } else {
                        Note::Quiet
                    },
                },
                None => StepView { send: None, note: Note::Quiet },
            },
        }
    }

    /// After a datagram that arrived at `t`.
    pub open spec fn after_datagram(self, t: u64, bytes: Seq<u8>, from: Endpoint) -> StateView {
        match self {
            StateView::Master { next_tick_us, answered } => if is_request(bytes) {
                StateView::Master { next_tick_us, answered: answered + 1 }
            } else {
                self
            },
            StateView::Follower { master, samples, first_offset, sent, heard } => if is_tick(
                bytes,
            ) {
                StateView::Follower {
                    master: match master {
                        Some(known) => Some(known),
                        None => Some(reply_endpoint(from)),
                    },
                    samples,
                    first_offset,
                    sent,
                    heard,
                }
            } else if is_response(bytes) {
                let o = offset_of(stamp(bytes, 1), stamp(bytes, 9), stamp(bytes, 17), t);
                let r = rtt_of(stamp(bytes, 1), stamp(bytes, 9), stamp(bytes, 17), t);
                if r < 0 {
                    // The clocks moved between the timestamps in a way the
                    // arithmetic cannot express. Never a sample.
                    StateView::Follower { master, samples, first_offset, sent, heard: heard + 1 }
                } else {
                    StateView::Follower {
                        master,
                        samples: samples.added(t, r, o),
                        first_offset: match first_offset {
                            Some(first) => Some(first),
                            None => Some((t, o)),
                        },
                        sent,
                        heard: heard + 1,
                    }
                }
            } else {
                self
            },
        }
    }

    /// What a datagram that arrived at `t` calls for, if an answer leaves at
    /// `send_us`.
    pub open spec fn datagram_step(
        self,
        t: u64,
        bytes: Seq<u8>,
        from: Endpoint,
        send_us: u64,
    ) -> StepView {
        match self {
            StateView::Master { .. } => if is_request(bytes) {
                StepView {
                    send: Some(
                        (reply_endpoint(from), response_message(stamp(bytes, 1), t, send_us)),
                    ),
                    note: Note::Quiet,
                }
            } else {
                StepView { send: None, note: Note::Quiet }
            },
            StateView::Follower { master, samples, first_offset, sent, heard } => StepView {
                send: None,
                note: if is_tick(bytes) && master is None {
                    Note::Found { addr: from.addr }
                } else if is_response(bytes) && rtt_of(
                    stamp(bytes, 1),
                    stamp(bytes, 9),
                    stamp(bytes, 17),
                    t,
                ) >= 0 && (samples.total + 1) % REPORT_EVERY as nat == 0 {
                    Note::Report
                } else {
                    Note::Quiet
                },
            },
        }
    }
}

impl State {
    pub open spec fn wf(&self) -> bool {
        self matches State::Follower { samples, .. } ==> samples.wf()
    }

    /// The counters have room for what the scheduled send counts.
    pub open spec fn can_tick(&self, now: u64) -> bool {
        match self {
            State::Master { .. } => now + TICK_INTERVAL_US <= u64::MAX,
            State::Follower { master, sent, .. } => master is Some ==> *sent < u32::MAX,
        }
    }

    /// The counters have room for what a datagram counts.
    pub open spec fn can_take(&self, t: u64, bytes: Seq<u8>) -> bool {
        match self {
            State::Master { answered, .. } => is_request(bytes) ==> *answered < u32::MAX,
            State::Follower { samples, heard, .. } => is_response(bytes) ==> {
                &&& *heard < u32::MAX
                &&& rtt_of(stamp(bytes, 1), stamp(bytes, 9), stamp(bytes, 17), t) >= 0
                    ==> samples@.total < usize::MAX
            },
        }
    }

    /// A master if that is the role, and a follower otherwise.
    pub fn new(role: &str) -> (r: State)
        ensures
            r@ == if role@ == "master"@ {
                StateView::Master { next_tick_us: 0, answered: 0 }
            } else {
                StateView::Follower {
                    master: None,
                    samples: SamplesView::fresh(),
                    first_offset: None,
                    sent: 0,
                    heard: 0,
                }
            },
            r.wf(),
    {
        if same_text(role, "master") {
            State::Master { next_tick_us: 0, answered: 0 }
        } else {
            State::Follower {
                master: None,
                samples: Samples::new(),
                first_offset: None,
                sent: 0,
                heard: 0,
            }
        }
    }

    /// How long to wait before the next scheduled send.
    pub fn interval_us(&self) -> (r: u64)
        ensures
            r == match self@ {
                StateView::Master { .. } => TICK_INTERVAL_US,
                StateView::Follower { .. } => REQUEST_INTERVAL_US,
            },
            r == self@.interval(),
    {
        match self {
            State::Master { .. } => TICK_INTERVAL_US,
            State::Follower { .. } => REQUEST_INTERVAL_US,
        }
    }

    /// The scheduled send: an announcement from a master, a request from a
    /// follower that knows where to send one.
    ///
    /// `send_us` is read as late as possible: every microsecond between it and
    /// the wire is error that lands in the offset.
    pub fn on_tick(&mut self, now: u64, send_us: u64) -> (r: Step)
        requires
            old(self).can_tick(now),
        ensures
            final(self)@ == old(self)@.after_tick(now),
            r@ == old(self)@.tick_step(send_us),
            old(self).wf() ==> final(self).wf(),
    {
        match self {
            State::Master { next_tick_us, answered } => {
                *next_tick_us = now + TICK_INTERVAL_US;
                let mut out = Datagram::new();
                out.push(TICK);
                assert(out@ =~= tick_message());
                Step { send: Some((broadcast(), out)), note: Note::Ticked { answered: *answered } }
            },
            State::Follower { master, sent, heard, .. } => {
                let to: Endpoint = match *master {
                    Some(to) => to,
                    None => {
                        return Step { send: None, note: Note::Quiet };
                    },
                };
                *sent = *sent + 1;
                let note: Note = if *sent % NOTE_EVERY == 0 {
                    Note::Asked { sent: *sent, heard: *heard }
                } else {
                    Note::Quiet
                };
                Step { send: Some((to, request(send_us))), note }
            },
        }
    }

    /// A datagram arrived at `t`. If it wants an answer, that leaves at
    /// `send_us`.
    pub fn on_datagram(&mut self, t: u64, bytes: &[u8], from: Endpoint, send_us: u64) -> (r: Step)
        requires
            old(self).wf(),
            old(self).can_take(t, bytes@),
        ensures
            final(self)@ == old(self)@.after_datagram(t, bytes@, from),
            r@ == old(self)@.datagram_step(t, bytes@, from, send_us),
            final(self).wf(),
    {
        if bytes.len() == 0 {
            return Step { send: None, note: Note::Quiet };
        }
        let kind: u8 = bytes[0];
        match self {
            State::Master { answered, .. } => {
                if kind == SYNC_REQ && bytes.len() >= REQ_LEN {
                    *answered = *answered + 1;
                    let t1: u64 = le::read(bytes, 1, 8);
                    // `t2` is arrival and `t3` departure. The gap is the
                    // master's own work, which the requester takes off rather
                    // than mistaking it for the network.
                    let to = Endpoint { addr: from.addr, port: PORT };
                    return Step {
                        send: Some((to, response(t1, t, send_us))),
                        note: Note::Quiet,
                    };
                }
                Step { send: None, note: Note::Quiet }
            },
            State::Follower { master, samples, first_offset, heard, .. } => {
                if kind == TICK {
                    if master.is_none() {
                        *master = Some(Endpoint { addr: from.addr, port: PORT });
                        return Step { send: None, note: Note::Found { addr: from.addr } };
                    }
                    return Step { send: None, note: Note::Quiet };
                }
                if kind == SYNC_RESP && bytes.len() >= RESP_LEN {
                    *heard = *heard + 1;
                    let t1: u64 = le::read(bytes, 1, 8);
                    let t2: u64 = le::read(bytes, 9, 8);
                    let t3: u64 = le::read(bytes, 17, 8);
                    let ahead: i64 = offset(t1, t2, t3, t);
                    let trip: i64 = rtt(t1, t2, t3, t);
                    if trip < 0 {
                        return Step { send: None, note: Note::Quiet };
                    }
                    if first_offset.is_none() {
                        *first_offset = Some((t, ahead));
                    }
                    samples.add(t, trip, ahead);
                    // Counted on samples taken and not on samples kept: the
                    // filter can reject most of them, and a report that waited
                    // for survivors would go quiet exactly when the network is
                    // worth reporting on.
                    if samples.total() % REPORT_EVERY == 0 {
                        return Step { send: None, note: Note::Report };
                    }
                }
                Step { send: None, note: Note::Quiet }
            },
        }
    }
}

/// A request sent at `t1`.
fn request(t1: u64) -> (r: Datagram)
    ensures
        r@ == request_message(t1),
{
    let mut out = Datagram::new();
    out.push(SYNC_REQ);
    out.push_u64(t1);
    proof {
        le::field_has_its_length(t1 as nat, 8);
        assert(out@ =~= request_message(t1));
    }
    out
}

/// The answer to a request.
fn response(t1: u64, t2: u64, t3: u64) -> (r: Datagram)
    ensures
        r@ == response_message(t1, t2, t3),
{
    let mut out = Datagram::new();
    out.push(SYNC_RESP);
    out.push_u64(t1);
    out.push_u64(t2);
    out.push_u64(t3);
    proof {
        le::field_has_its_length(t1 as nat, 8);
        le::field_has_its_length(t2 as nat, 8);
        le::field_has_its_length(t3 as nat, 8);
        assert(out@ =~= response_message(t1, t2, t3));
    }
    out
}

/// When the next scheduled send is due. Nothing is due before there is a lease.
pub struct Pace {
    pub next_action_us: Option<u64>,
}

impl Pace {
    pub fn new() -> (r: Pace)
        ensures
            r.next_action_us is None,
    {
        Pace { next_action_us: None }
    }

    /// A lease was granted at `now`: the first send is due at once.
    pub fn lease(&mut self, now: u64)
        ensures
            final(self).next_action_us == Some(now),
    {
        self.next_action_us = Some(now);
    }

    pub fn due(&self, t: u64) -> (r: bool)
        ensures
            r <==> (self.next_action_us matches Some(at) && t >= at),
    {
        match self.next_action_us {
            Some(at) => t >= at,
            None => false,
        }
    }

    /// A scheduled send was made at `t`.
    pub fn acted(&mut self, t: u64, interval_us: u64)
        requires
            t + interval_us <= u64::MAX,
        ensures
            final(self).next_action_us == Some((t + interval_us) as u64),
    {
        self.next_action_us = Some(t + interval_us);
    }
}

/// One end of the exchange, and when it speaks up.
pub struct Session {
    state: State,
    pace: Pace,
}

impl Session {
    pub closed spec fn state(&self) -> State {
        self.state
    }

    /// When the next scheduled send is due, once there is a lease.
    pub closed spec fn due_at(&self) -> Option<u64> {
        self.pace.next_action_us
    }

    pub open spec fn wf(&self) -> bool {
        self.state().wf()
    }

    pub open spec fn is_due(&self, t: u64) -> bool {
        self.due_at() matches Some(at) && t >= at
    }

    pub fn new(role: &str) -> (r: Session)
        ensures
            r.state()@ == if role@ == "master"@ {
                StateView::Master { next_tick_us: 0, answered: 0 }
            } else {
                StateView::Follower {
                    master: None,
                    samples: SamplesView::fresh(),
                    first_offset: None,
                    sent: 0,
                    heard: 0,
                }
            },
            r.due_at() is None,
            r.wf(),
    {
        Session { state: State::new(role), pace: Pace::new() }
    }

    pub fn borrow_state(&self) -> (r: &State)
        ensures
            *r == self.state(),
    {
        &self.state
    }

    /// A lease was granted at `now`.
    pub fn lease(&mut self, now: u64)
        ensures
            final(self).state() == old(self).state(),
            final(self).due_at() == Some(now),
    {
        self.pace.lease(now);
    }

    /// A datagram arrived at `t`.
    pub fn on_datagram(&mut self, t: u64, bytes: &[u8], from: Endpoint, send_us: u64) -> (r: Step)
        requires
            old(self).wf(),
            old(self).state().can_take(t, bytes@),
        ensures
            final(self).state()@ == old(self).state()@.after_datagram(t, bytes@, from),
            r@ == old(self).state()@.datagram_step(t, bytes@, from, send_us),
            final(self).due_at() == old(self).due_at(),
            final(self).wf(),
    {
        self.state.on_datagram(t, bytes, from, send_us)
    }

    /// The scheduled send at `t`, if it is due.
    pub fn tick(&mut self, t: u64, send_us: u64) -> (r: Option<Step>)
        requires
            old(self).wf(),
            old(self).is_due(t) ==> old(self).state().can_tick(t) && t + TICK_INTERVAL_US
                <= u64::MAX,
        ensures
            r is Some <==> old(self).is_due(t),
            r matches Some(step) ==> {
                &&& step@ == old(self).state()@.tick_step(send_us)
                &&& final(self).state()@ == old(self).state()@.after_tick(t)
                &&& final(self).due_at() == Some(
                    (t + match old(self).state()@ {
                        StateView::Master { .. } => TICK_INTERVAL_US,
                        StateView::Follower { .. } => REQUEST_INTERVAL_US,
                    }) as u64,
                )
                &&& final(self).due_at() == Some((t + old(self).state()@.interval()) as u64)
            },
            r is None ==> *final(self) == *old(self),
            final(self).wf(),
    {
        if !self.pace.due(t) {
            return None;
        }
        let step: Step = self.state.on_tick(t, send_us);
        let interval: u64 = self.state.interval_us();
        self.pace.acted(t, interval);
        Some(step)
    }
}

/// A request carries its `t1`, and nothing else.
pub proof fn a_request_carries_its_timestamp(t1: u64)
    ensures
        is_request(request_message(t1)),
        request_message(t1).len() == REQ_LEN,
        stamp(request_message(t1), 1) == t1,
{
    le::reaches();
    le::value_of_field(t1 as nat, 8);
    assert(request_message(t1).subrange(1, 9) =~= le::field(t1 as nat, 8));
}

/// A response carries its three timestamps, in order.
pub proof fn a_response_carries_its_timestamps(t1: u64, t2: u64, t3: u64)
    ensures
        is_response(response_message(t1, t2, t3)),
        response_message(t1, t2, t3).len() == RESP_LEN,
        stamp(response_message(t1, t2, t3), 1) == t1,
        stamp(response_message(t1, t2, t3), 9) == t2,
        stamp(response_message(t1, t2, t3), 17) == t3,
{
    le::reaches();
    le::value_of_field(t1 as nat, 8);
    le::value_of_field(t2 as nat, 8);
    le::value_of_field(t3 as nat, 8);
    let m = response_message(t1, t2, t3);
    assert(m.subrange(1, 9) =~= le::field(t1 as nat, 8));
    assert(m.subrange(9, 17) =~= le::field(t2 as nat, 8));
    assert(m.subrange(17, 25) =~= le::field(t3 as nat, 8));
}

/// A whole exchange: the request a follower sends at `t1` reaches a master at
/// `t2`, whose answer leaves at `t3` and arrives at `t4`. The master answers to
/// where the request came from, and the follower takes one sample, of exactly
/// those four timestamps, unless the round trip came out negative.
pub proof fn an_exchange_gives_one_sample(
    follower: StateView,
    master: StateView,
    t1: u64,
    t2: u64,
    t3: u64,
    t4: u64,
    follower_at: Endpoint,
    master_at: Endpoint,
)
    requires
        follower is Follower,
        follower->master is Some,
        master is Master,
    ensures
        follower.tick_step(t1).send == Some((follower->master.unwrap(), request_message(t1))),
        master.datagram_step(t2, request_message(t1), follower_at, t3).send == Some(
            (reply_endpoint(follower_at), response_message(t1, t2, t3)),
        ),
        master.after_datagram(t2, request_message(t1), follower_at) == (StateView::Master {
            next_tick_us: master->next_tick_us,
            answered: master->answered + 1,
        }),
        follower.after_datagram(t4, response_message(t1, t2, t3), master_at)->samples == if rtt_of(
            t1,
            t2,
            t3,
            t4,
        ) < 0 {
            follower->samples
        } else {
            follower->samples.added(t4, rtt_of(t1, t2, t3, t4), offset_of(t1, t2, t3, t4))
        },
        follower.after_datagram(t4, response_message(t1, t2, t3), master_at)->heard
            == follower->heard + 1,
{
    a_request_carries_its_timestamp(t1);
    a_response_carries_its_timestamps(t1, t2, t3);
}

/// What the four timestamps measure. If the master's clock is `ahead` of the
/// follower's, the request spent `out` in the air and the answer `back`, and the
/// master held it for `held`, then the round trip is `out + back` whatever the
/// master did in between, and the offset is wrong by exactly half the difference
/// of the two legs, rounded towards zero. Legs that are equal give it exactly.
pub proof fn the_offset_is_wrong_by_half_the_asymmetry(
    t1: u64,
    t2: u64,
    t3: u64,
    t4: u64,
    ahead: int,
    out: int,
    held: int,
    back: int,
)
    requires
        t1 < 0x4000_0000_0000_0000,
        t2 < 0x4000_0000_0000_0000,
        t3 < 0x4000_0000_0000_0000,
        t4 < 0x4000_0000_0000_0000,
        t2 == t1 + out + ahead,
        t3 == t2 + held,
        t4 == t3 + back - ahead,
    ensures
        rtt_of(t1, t2, t3, t4) == out + back,
        offset_of(t1, t2, t3, t4) == half_towards_zero(2 * ahead + out - back),
        out == back ==> offset_of(t1, t2, t3, t4) == ahead,
{
}

/// A reply that a follower hears adds one sample, of the time that the exchange
/// spent in the air and of the offset that it shows, whatever else arrived before.
pub proof fn a_reply_measures_the_clocks(
    follower: StateView,
    bytes: Seq<u8>,
    t: u64,
    from: Endpoint,
    ahead: int,
    out: int,
    held: int,
    back: int,
)
    requires
        follower is Follower,
        is_response(bytes),
        stamp(bytes, 1) < 0x4000_0000_0000_0000,
        stamp(bytes, 9) < 0x4000_0000_0000_0000,
        stamp(bytes, 17) < 0x4000_0000_0000_0000,
        t < 0x4000_0000_0000_0000,
        out >= 0,
        back >= 0,
        stamp(bytes, 9) == stamp(bytes, 1) + out + ahead,
        stamp(bytes, 17) == stamp(bytes, 9) + held,
        t == stamp(bytes, 17) + back - ahead,
    ensures
        follower.after_datagram(t, bytes, from)->samples == follower->samples.added(
            t,
            (out + back) as i64,
            half_towards_zero(2 * ahead + out - back) as i64,
        ),
        follower.after_datagram(t, bytes, from)->heard == follower->heard + 1,
{
    the_offset_is_wrong_by_half_the_asymmetry(
        stamp(bytes, 1),
        stamp(bytes, 9),
        stamp(bytes, 17),
        t,
        ahead,
        out,
        held,
        back,
    );
}

/// A follower that knows a master keeps it, whatever arrives.
pub proof fn a_follower_keeps_its_master(
    follower: StateView,
    t: u64,
    bytes: Seq<u8>,
    from: Endpoint,
)
    requires
        follower is Follower,
        follower->master is Some,
    ensures
        follower.after_datagram(t, bytes, from) is Follower,
        follower.after_datagram(t, bytes, from)->master == follower->master,
{
}

/// A follower is never made to send by what arrives, and a master is made to by
/// requests alone.
pub proof fn only_requests_are_answered(
    state: StateView,
    t: u64,
    bytes: Seq<u8>,
    from: Endpoint,
    send_us: u64,
)
    ensures
        state.datagram_step(t, bytes, from, send_us).send is Some <==> state is Master
            && is_request(bytes),
{
}

/// Where a master announces itself.
pub fn broadcast() -> (r: Endpoint)
    ensures
        r == broadcast_endpoint(),
{
    Endpoint { addr: EVERYONE, port: PORT }
}

/// What a datagram is: a request is at least nine bytes that start with its type, a
/// response at least twenty-five, and an announcement at least one.
pub proof fn a_datagram_is_known_by_its_type(bytes: Seq<u8>)
    ensures
        is_tick(bytes) <==> bytes.len() >= 1 && bytes[0] == 0x10,
        is_request(bytes) <==> bytes.len() >= 9 && bytes[0] == 0x11,
        is_response(bytes) <==> bytes.len() >= 25 && bytes[0] == 0x12,
{
}

/// A report is due with every hundredth sample that is taken, and at no other time.
pub proof fn every_hundredth_sample_is_reported(
    follower: StateView,
    t: u64,
    bytes: Seq<u8>,
    from: Endpoint,
    send_us: u64,
)
    requires
        follower is Follower,
    ensures
        ({
            let before = follower->samples.total;
            let after = follower.after_datagram(t, bytes, from)->samples.total;
            &&& after == before || after == before + 1
            &&& follower.datagram_step(t, bytes, from, send_us).note == Note::Report <==> after
                == before + 1 && after % 100 == 0
        }),
{
}

/// A follower is told of once, when it learns where its master is: at the host that
/// announced itself, on the common port.
pub proof fn the_first_announcement_is_the_master(
    follower: StateView,
    t: u64,
    bytes: Seq<u8>,
    from: Endpoint,
    send_us: u64,
)
    requires
        follower is Follower,
        follower->master is None,
    ensures
        ({
            let after = follower.after_datagram(t, bytes, from);
            let note = follower.datagram_step(t, bytes, from, send_us).note;
            &&& bytes.len() >= 1 && bytes[0] == 0x10 ==> {
                &&& after->master == Some(Endpoint { addr: from.addr, port: 6353 })
                &&& note == (Note::Found { addr: from.addr })
                &&& after->samples == follower->samples
                &&& after->heard == follower->heard
                &&& after->sent == follower->sent
                &&& after->first_offset == follower->first_offset
            }
            &&& !(bytes.len() >= 1 && bytes[0] == 0x10) ==> after->master is None && !(
            note is Found)
        }),
{
}

/// A master announces itself to everyone, with the type and nothing else, says how
/// many requests it has answered, and does so again in a second.
pub proof fn a_master_announces_itself_every_second(master: StateView, now: u64, send_us: u64)
    requires
        master is Master,
        now + 1_000_000 <= u64::MAX,
        master->answered <= u32::MAX,
    ensures
        master.tick_step(send_us).send matches Some((to, bytes)) && {
            &&& to.addr@ == seq![255u8, 255, 255, 255]
            &&& to.port == 6353
            &&& bytes == seq![0x10u8]
        },
        master.tick_step(send_us).note matches Note::Ticked { answered } && answered
            == master->answered,
        master.after_tick(now) == (StateView::Master {
            next_tick_us: (now + 1_000_000) as u64,
            answered: master->answered,
        }),
{
    assert(EVERYONE@ =~= seq![255u8, 255, 255, 255]);
}

/// A follower asks the master it knows, and tells of every twenty-fifth request how
/// many it has sent and how many replies it has heard. One that knows none does
/// nothing.
pub proof fn a_follower_asks_its_master(follower: StateView, now: u64, send_us: u64)
    requires
        follower is Follower,
        follower->sent < u32::MAX,
        follower->heard <= u32::MAX,
    ensures
        ({
            let after = follower.after_tick(now);
            let step = follower.tick_step(send_us);
            &&& follower->master is None ==> after == follower && step.send is None && step.note
                == Note::Quiet
            &&& follower->master matches Some(master) ==> {
                &&& after->sent == follower->sent + 1
                &&& after->master == follower->master
                &&& after->samples == follower->samples
                &&& after->heard == follower->heard
                &&& after->first_offset == follower->first_offset
                &&& step.send matches Some((to, bytes)) && {
                    &&& to == master
                    &&& bytes.len() == 9
                    &&& bytes[0] == 0x11
                    &&& le::value(bytes.skip(1)) == send_us
                }
                &&& step.note == if after->sent % 25 == 0 {
                    Note::Asked { sent: after->sent as u32, heard: after->heard as u32 }
                } else {
                    Note::Quiet
                }
            }
        }),
{
    le::reaches();
    le::value_of_field(send_us as nat, 8);
    assert(request_message(send_us).skip(1) =~= le::field(send_us as nat, 8));
}

/// The first sample is remembered, with the time it came and the offset it gave,
/// and none after it is. A round trip that comes out negative is heard and is no
/// sample.
pub proof fn the_first_sample_is_remembered(
    follower: StateView,
    t: u64,
    bytes: Seq<u8>,
    from: Endpoint,
)
    requires
        follower is Follower,
    ensures
        ({
            let after = follower.after_datagram(t, bytes, from);
            let trip = rtt_of(stamp(bytes, 1), stamp(bytes, 9), stamp(bytes, 17), t);
            let ahead = offset_of(stamp(bytes, 1), stamp(bytes, 9), stamp(bytes, 17), t);
            let heard = bytes.len() >= 25 && bytes[0] == 0x12;
            &&& follower->first_offset is Some ==> after->first_offset == follower->first_offset
            &&& follower->first_offset is None && heard && trip >= 0 ==> after->first_offset
                == Some((t, ahead))
            &&& !heard || trip < 0 ==> after->first_offset == follower->first_offset
                && after->samples == follower->samples
            &&& after->heard == follower->heard + if heard {
                1int
            } else {
                0int
            }
            &&& after->sent == follower->sent
        }),
{
}

/// A request is answered to the host that made it, on the common port, with its own
/// time, the time it arrived and the time the answer leaves, and is counted.
/// Nothing else makes a master do anything.
pub proof fn a_request_is_answered_and_counted(
    master: StateView,
    t: u64,
    bytes: Seq<u8>,
    from: Endpoint,
    send_us: u64,
)
    requires
        master is Master,
    ensures
        ({
            let after = master.after_datagram(t, bytes, from);
            let step = master.datagram_step(t, bytes, from, send_us);
            let asked = bytes.len() >= 9 && bytes[0] == 0x11;
            &&& asked ==> after->answered == master->answered + 1
            &&& !asked ==> after->answered == master->answered
            &&& after->next_tick_us == master->next_tick_us
            &&& after is Master
            &&& step.note == Note::Quiet
            &&& step.send is Some <==> asked
            &&& step.send matches Some((to, answer)) ==> {
                &&& to == (Endpoint { addr: from.addr, port: 6353 })
                &&& answer.len() == 25
                &&& answer[0] == 0x12
                &&& answer.subrange(1, 9) == bytes.subrange(1, 9)
                &&& le::value(answer.subrange(9, 17)) == t
                &&& le::value(answer.subrange(17, 25)) == send_us
            }
        }),
{
    if is_request(bytes) {
        let t1 = stamp(bytes, 1);
        let m = response_message(t1, t, send_us);
        le::reaches();
        le::value_is_within_reach(bytes.subrange(1, 9));
        le::field_of_value(bytes.subrange(1, 9));
        le::value_of_field(t1 as nat, 8);
        le::value_of_field(t as nat, 8);
        le::value_of_field(send_us as nat, 8);
        assert(m.subrange(1, 9) =~= le::field(t1 as nat, 8));
        assert(m.subrange(9, 17) =~= le::field(t as nat, 8));
        assert(m.subrange(17, 25) =~= le::field(send_us as nat, 8));
    }
}

/// A master speaks up every second, and a follower asks five times as often.
pub proof fn a_follower_asks_five_times_a_second(state: StateView)
    ensures
        state is Master ==> state.interval() == 1_000_000,
        state is Follower ==> state.interval() == 200_000,
{
}

/// Whatever the four timestamps are, the round trip is what the exchange took less
/// what the master held it, up to a multiple of two to the sixty-fourth; and the
/// offset is half of what the two legs show, rounded towards zero, up to such a
/// multiple before it is halved.
pub proof fn wild_timestamps_wrap(t1: u64, t2: u64, t3: u64, t4: u64)
    ensures
        exists|k: int|
            rtt_of(t1, t2, t3, t4) == (t4 - t1) - (t3 - t2) + #[trigger] (k
                * 0x1_0000_0000_0000_0000),
        exists|k: int|
            ({
                let both = (t2 - t1) + (t3 - t4) + #[trigger] (k * 0x1_0000_0000_0000_0000);
                let half = offset_of(t1, t2, t3, t4);
                &&& i64::MIN <= both <= i64::MAX
                &&& both >= 0 ==> half >= 0 && 2 * half <= both <= 2 * half + 1
                &&& both <= 0 ==> half <= 0 && 2 * half - 1 <= both <= 2 * half
            }),
{
    let k = the_round_trip_wraps(t1, t2, t3, t4);
    assert(rtt_of(t1, t2, t3, t4) == (t4 - t1) - (t3 - t2) + k * 0x1_0000_0000_0000_0000);
    let m = the_offset_wraps(t1, t2, t3, t4);
    let both = (t2 - t1) + (t3 - t4) + m * 0x1_0000_0000_0000_0000;
    assert(i64::MIN <= both <= i64::MAX);
}

proof fn the_round_trip_wraps(t1: u64, t2: u64, t3: u64, t4: u64) -> (k: int)
    ensures
        rtt_of(t1, t2, t3, t4) == (t4 - t1) - (t3 - t2) + k * 0x1_0000_0000_0000_0000,
{
    let whole = signed(t4).wrapping_sub(signed(t1));
    let held = signed(t3).wrapping_sub(signed(t2));
    let a = crate::modular::a_difference_wraps(signed(t4), signed(t1));
    let b = crate::modular::a_difference_wraps(signed(t3), signed(t2));
    let c = crate::modular::a_difference_wraps(whole, held);
    let d = crate::modular::a_signed_reading_wraps(t1);
    let e = crate::modular::a_signed_reading_wraps(t2);
    let f = crate::modular::a_signed_reading_wraps(t3);
    let g = crate::modular::a_signed_reading_wraps(t4);
    a - b + c + g - d - f + e
}

proof fn the_offset_wraps(t1: u64, t2: u64, t3: u64, t4: u64) -> (k: int)
    ensures
        ({
            let both = (t2 - t1) + (t3 - t4) + k * 0x1_0000_0000_0000_0000;
            let half = offset_of(t1, t2, t3, t4);
            &&& i64::MIN <= both <= i64::MAX
            &&& both >= 0 ==> half >= 0 && 2 * half <= both <= 2 * half + 1
            &&& both <= 0 ==> half <= 0 && 2 * half - 1 <= both <= 2 * half
        }),
{
    let out = signed(t2).wrapping_sub(signed(t1));
    let back = signed(t3).wrapping_sub(signed(t4));
    let a = crate::modular::a_difference_wraps(signed(t2), signed(t1));
    let b = crate::modular::a_difference_wraps(signed(t3), signed(t4));
    let c = crate::modular::a_sum_wraps(out, back);
    let d = crate::modular::a_signed_reading_wraps(t1);
    let e = crate::modular::a_signed_reading_wraps(t2);
    let f = crate::modular::a_signed_reading_wraps(t3);
    let g = crate::modular::a_signed_reading_wraps(t4);
    let k = a + b + c + e - d + f - g;
    assert(out.wrapping_add(back) == (t2 - t1) + (t3 - t4) + k * 0x1_0000_0000_0000_0000);
    k
}

} // verus!
