//! Who sends the flood, when, and to whom; and when a receiver reports.

use vstd::prelude::*;

use crate::modular::signed;
use crate::modular::signed_of;
use crate::multicast::chan::decoding_undoes_encoding;
use crate::multicast::chan::encode;
use crate::multicast::chan::is_message;
use crate::multicast::chan::message;
use crate::multicast::chan::parts;
use crate::multicast::chan::Report;
use crate::multicast::chan::Sink;
use crate::multicast::chan::SinkView;
use crate::multicast::chan::INTERVAL_US;
use crate::multicast::chan::LEN;
use crate::multicast::stats::a_percentile_is_the_first_edge_with_its_share_below;
use crate::multicast::stats::histogram;
use crate::multicast::stats::histogram_of_one_more;
use crate::multicast::stats::percentile_edge;
use crate::multicast::stats::Histogram;
use crate::multicast::stats::HistogramView;
use crate::net::same_four;
use crate::net::Endpoint;
use crate::net::EVERYONE;
use crate::text::same_text;

verus! {

/// The port of the flood.
pub const PORT: u16 = 6354;

/// The group, in the range that stays on the local network.
pub const GROUP: [u8; 4] = [239, 12, 34, 56];

/// How many sinks a source addresses one by one.
pub const MAX_SINKS: usize = 8;

/// How often a sink announces itself.
pub const HELLO_INTERVAL_US: u64 = 1_000_000;

/// A sink saying that it is there.
pub const HELLO: u8 = 0xA5;

/// The channel that is flooded.
pub const CHANNEL: u16 = 1;

/// How many datagrams there are between reports.
pub const REPORT_EVERY: u32 = 600;

/// The sinks a source has heard from, in the order in which it did.
pub struct Sinks {
    known: Vec<[u8; 4]>,
}

impl View for Sinks {
    type V = Seq<[u8; 4]>;

    closed spec fn view(&self) -> Seq<[u8; 4]> {
        self.known@
    }
}

/// The sinks after a datagram from `addr`: a hello from one that is not known
/// yet is remembered as long as there is room.
pub open spec fn greeted(known: Seq<[u8; 4]>, bytes: Seq<u8>, addr: [u8; 4]) -> Seq<[u8; 4]> {
    if bytes == seq![HELLO] && !known.contains(addr) && known.len() < MAX_SINKS {
        known.push(addr)
    } else {
        known
    }
}

/// No sink is there twice, and there are no more than fit.
pub open spec fn sinks_wf(known: Seq<[u8; 4]>) -> bool {
    known.len() <= MAX_SINKS && known.no_duplicates()
}

impl Sinks {
    pub fn new() -> (r: Sinks)
        ensures
            r@ == Seq::<[u8; 4]>::empty(),
    {
        Sinks { known: Vec::new() }
    }

    pub fn len(&self) -> (r: usize)
        ensures
            r == self@.len(),
    {
        self.known.len()
    }

    pub fn get(&self, i: usize) -> (r: [u8; 4])
        requires
            i < self@.len(),
        ensures
            r == self@[i as int],
    {
        self.known[i]
    }

    /// A datagram reached the source. Whether it was from a new sink.
    pub fn hello(&mut self, bytes: &[u8], addr: [u8; 4]) -> (r: bool)
        ensures
            final(self)@ == greeted(old(self)@, bytes@, addr),
            r == (final(self)@ != old(self)@),
            sinks_wf(old(self)@) ==> sinks_wf(final(self)@),
    {
        if bytes.len() != 1 || bytes[0] != HELLO {
            return false;
        }
        assert(bytes@ =~= seq![HELLO]);
        let mut i: usize = 0;
        while i < self.known.len()
            invariant
                i <= self.known@.len(),
                self@ == old(self)@,
                self@ == self.known@,
                forall|j: int| 0 <= j < i ==> self.known@[j] != addr,
            decreases self.known@.len() - i,
        {
            if same_four(&self.known[i], &addr) {
                assert(old(self)@.contains(addr));
                return false;
            }
            i = i + 1;
        }
        assert(!old(self)@.contains(addr));
        if self.known.len() < MAX_SINKS {
            self.known.push(addr);
            assert(self@.len() != old(self)@.len());
            true
        } else {
            false
        }
    }
}

/// When the next send is due, after one at `t` that was due at `due`.
///
/// From the deadline rather than from now, so that a late send does not push
/// every later one back; unless a whole interval was missed.
pub open spec fn next_send(due: u64, t: u64) -> int {
    if due + INTERVAL_US < t {
        t + INTERVAL_US
    } else {
        due + INTERVAL_US
    }
}

/// The next send is never due before the one just made.
pub proof fn a_send_is_never_due_in_the_past(due: u64, t: u64)
    ensures
        next_send(due, t) >= t,
        next_send(due, t) <= if due > t {
            due + INTERVAL_US
        } else {
            t + INTERVAL_US
        },
{
}

/// The deadline after a run of sends, at times `times`.
pub open spec fn deadline(start: u64, times: Seq<u64>) -> int
    decreases times.len(),
{
    if times.len() == 0 {
        start as int
    } else {
        next_send(deadline(start, times.drop_last()) as u64, times.last())
    }
}

/// As long as no send is late by more than an interval, the deadlines stay on
/// the grid they started on, however late each send was.
pub proof fn a_late_send_does_not_slow_the_sender(start: u64, times: Seq<u64>)
    requires
        start + times.len() * INTERVAL_US <= u64::MAX,
        forall|i: int|
            0 <= i < times.len() ==> (#[trigger] times[i]) <= start + (i + 1) * INTERVAL_US,
    ensures
        deadline(start, times) == start + times.len() * INTERVAL_US,
    decreases times.len(),
{
    if times.len() > 0 {
        let earlier = times.drop_last();
        let n = earlier.len();
        assert((n + 1) * INTERVAL_US == n * INTERVAL_US + INTERVAL_US) by (nonlinear_arith);
        assert forall|i: int| 0 <= i < earlier.len() implies (#[trigger] earlier[i]) <= start + (i
            + 1) * INTERVAL_US by {
            assert(times[i] <= start + (i + 1) * INTERVAL_US);
        }
        a_late_send_does_not_slow_the_sender(start, earlier);
        assert(times.last() == times[n as int]);
    }
}

/// What a source tells: how many messages it has made, how many datagrams the
/// stack took and refused, and how late the sends were.
#[derive(Clone, Copy, PartialEq, Eq, Debug)]
pub struct Progress {
    pub seq: u32,
    pub sent: u32,
    pub refused: u32,
    pub p50: i64,
    pub p95: i64,
    pub p99: i64,
}

/// The one device that sends.
pub struct Source {
    seq: u32,
    /// Nothing is sent before there is a lease.
    next_send_us: Option<u64>,
    /// A send that never left the device is not loss that the network caused.
    sent: u32,
    refused: u32,
    lateness: Histogram,
}

#[verifier::ext_equal]
pub struct SourceView {
    pub seq: u32,
    pub next_send_us: Option<u64>,
    pub sent: nat,
    pub refused: nat,
    pub lateness: HistogramView,
}

impl View for Source {
    type V = SourceView;

    closed spec fn view(&self) -> SourceView {
        SourceView {
            seq: self.seq,
            next_send_us: self.next_send_us,
            sent: self.sent as nat,
            refused: self.refused as nat,
            lateness: self.lateness@,
        }
    }
}

impl SourceView {
    pub open spec fn due(self, t: u64) -> bool {
        self.next_send_us matches Some(at) && t >= at
    }

    /// After the send due now, made at `t`: the stack took `sent` datagrams and
    /// refused `refused`.
    pub open spec fn after_send(self, t: u64, sent: u32, refused: u32) -> SourceView {
        let at = self.next_send_us.unwrap();
        SourceView {
            seq: self.seq.wrapping_add(1),
            next_send_us: Some(next_send(at, t) as u64),
            sent: self.sent + sent as nat,
            refused: self.refused + refused as nat,
            lateness: self.lateness.with(signed((t - at) as u64) as int),
        }
    }

    /// What there is to tell after a send, if it is time for that.
    pub open spec fn tells(self) -> Option<Progress> {
        if self.seq % REPORT_EVERY == 0 {
            Some(self.progress())
        } else {
            None
        }
    }

    pub open spec fn progress(self) -> Progress {
        Progress {
            seq: self.seq,
            sent: self.sent as u32,
            refused: self.refused as u32,
            p50: percentile_edge(self.lateness.counts, 50) as i64,
            p95: percentile_edge(self.lateness.counts, 95) as i64,
            p99: percentile_edge(self.lateness.counts, 99) as i64,
        }
    }
}

impl Source {
    pub fn new() -> (r: Source)
        ensures
            r@ == (SourceView {
                seq: 0,
                next_send_us: None,
                sent: 0,
                refused: 0,
                lateness: HistogramView::fresh(),
            }),
    {
        Source { seq: 0, next_send_us: None, sent: 0, refused: 0, lateness: Histogram::new() }
    }

    /// A lease was granted at `now`: the first send is due at once.
    pub fn lease(&mut self, now: u64)
        ensures
            final(self)@ == (SourceView { next_send_us: Some(now), ..old(self)@ }),
    {
        self.next_send_us = Some(now);
        assert(self@ =~= (SourceView { next_send_us: Some(now), ..old(self)@ }));
    }

    /// What to send at `t`, if a send is due.
    pub fn due(&self, t: u64) -> (r: Option<[u8; LEN]>)
        ensures
            r is Some <==> self@.due(t),
            r matches Some(out) ==> out@ == message(CHANNEL, self@.seq, t),
    {
        match self.next_send_us {
            Some(at) => if t >= at {
                Some(encode(CHANNEL, self.seq, t))
            } else {
                None
            },
            None => None,
        }
    }

    /// The due send was made at `t`. There is something to tell every so many
    /// messages.
    pub fn sent(&mut self, t: u64, sent: u32, refused: u32) -> (r: Option<Progress>)
        requires
            old(self)@.due(t),
            next_send(old(self)@.next_send_us.unwrap(), t) <= u64::MAX,
            old(self)@.sent + sent <= u32::MAX,
            old(self)@.refused + refused <= u32::MAX,
        ensures
            final(self)@ == old(self)@.after_send(t, sent, refused),
            r == if final(self)@.seq % REPORT_EVERY == 0 {
                Some(final(self)@.progress())
            } else {
                None
            },
            r == final(self)@.tells(),
    {
        let at: u64 = match self.next_send_us {
            Some(at) => at,
            None => t,
        };
        self.sent = self.sent + sent;
        self.refused = self.refused + refused;
        self.lateness.add(signed_of(t - at));
        self.seq = self.seq.wrapping_add(1);
        self.next_send_us = Some(
            if at + INTERVAL_US < t {
                t + INTERVAL_US
            } else {
                at + INTERVAL_US
            },
        );
        assert(self@ =~= old(self)@.after_send(t, sent, refused));
        if self.seq % REPORT_EVERY == 0 {
            Some(
                Progress {
                    seq: self.seq,
                    sent: self.sent,
                    refused: self.refused,
                    p50: self.lateness.percentile(50),
                    p95: self.lateness.percentile(95),
                    p99: self.lateness.percentile(99),
                },
            )
        } else {
            None
        }
    }

    /// How many datagrams the stack has taken and refused.
    pub fn tally(&self) -> (r: (u32, u32))
        ensures
            r.0 == self@.sent,
            r.1 == self@.refused,
    {
        (self.sent, self.refused)
    }
}

/// Where a source sends to: the group, or each sink it has heard from.
pub fn destinations(unicast: bool, sinks: &Sinks) -> (r: Vec<Endpoint>)
    ensures
        r@ == destinations_of(unicast, sinks@),
{
    let mut out: Vec<Endpoint> = Vec::new();
    if !unicast {
        out.push(Endpoint { addr: GROUP, port: PORT });
        assert(out@ =~= destinations_of(unicast, sinks@));
        return out;
    }
    let mut i: usize = 0;
    while i < sinks.len()
        invariant
            i <= sinks@.len(),
            out@ == destinations_of(true, sinks@.take(i as int)),
        decreases sinks@.len() - i,
    {
        out.push(Endpoint { addr: sinks.get(i), port: PORT });
        i = i + 1;
        assert(out@ =~= destinations_of(true, sinks@.take(i as int)));
    }
    assert(sinks@.take(i as int) =~= sinks@);
    out
}

pub open spec fn destinations_of(unicast: bool, known: Seq<[u8; 4]>) -> Seq<Endpoint> {
    if unicast {
        known.map_values(|addr: [u8; 4]| Endpoint { addr, port: PORT })
    } else {
        seq![Endpoint { addr: GROUP, port: PORT }]
    }
}

/// One of the devices that listen.
pub struct Listener {
    sink: Sink,
    windows: u32,
    next_hello_us: u64,
}

#[verifier::ext_equal]
pub struct ListenerView {
    pub sink: SinkView,
    pub windows: nat,
    pub next_hello_us: u64,
}

impl View for Listener {
    type V = ListenerView;

    closed spec fn view(&self) -> ListenerView {
        ListenerView {
            sink: self.sink@,
            windows: self.windows as nat,
            next_hello_us: self.next_hello_us,
        }
    }
}

/// The end of a window. The first one is startup, and says nothing about the
/// network.
#[derive(Clone, Copy, PartialEq, Eq, Debug)]
pub struct Window {
    pub number: u32,
    pub startup: bool,
    pub report: Option<Report>,
}

impl ListenerView {
    pub open spec fn wf(self) -> bool {
        self.sink.wf() && self.sink.received < REPORT_EVERY
    }

    /// The window that a datagram closes, if it does.
    pub open spec fn closed(self, t: u64, bytes: Seq<u8>) -> Option<Window> {
        let sink = self.sink.after(t, bytes);
        if sink.received >= REPORT_EVERY {
            Some(
                Window {
                    number: (self.windows + 1) as u32,
                    startup: self.windows == 0,
                    report: sink.report(),
                },
            )
        } else {
            None
        }
    }

    pub open spec fn after(self, t: u64, bytes: Seq<u8>) -> ListenerView {
        let sink = self.sink.after(t, bytes);
        if sink.received >= REPORT_EVERY {
            ListenerView { sink: sink.windowed(), windows: self.windows + 1, ..self }
        } else {
            ListenerView { sink, ..self }
        }
    }
}

impl Listener {
    pub fn new() -> (r: Listener)
        ensures
            r@ == (ListenerView { sink: SinkView::fresh(), windows: 0, next_hello_us: 0 }),
            r@.wf(),
    {
        Listener { sink: Sink::new(), windows: 0, next_hello_us: 0 }
    }

    /// How many windows have been closed.
    pub fn windows(&self) -> (r: u32)
        ensures
            r == self@.windows,
    {
        self.windows
    }

    /// The hello to send at `t`, if one is due.
    pub fn hello(&mut self, t: u64) -> (r: Option<(Endpoint, [u8; 1])>)
        requires
            t >= old(self)@.next_hello_us ==> t + HELLO_INTERVAL_US <= u64::MAX,
        ensures
            r is Some <==> t >= old(self)@.next_hello_us,
            r matches Some((to, out)) ==> to == (Endpoint { addr: EVERYONE, port: PORT }) && out@
                == seq![HELLO],
            final(self)@ == if t >= old(self)@.next_hello_us {
                ListenerView { next_hello_us: (t + HELLO_INTERVAL_US) as u64, ..old(self)@ }
            } else {
                old(self)@
            },
            old(self)@.wf() ==> final(self)@.wf(),
    {
        if t < self.next_hello_us {
            return None;
        }
        self.next_hello_us = t + HELLO_INTERVAL_US;
        let out: [u8; 1] = [HELLO];
        assert(out@ =~= seq![HELLO]);
        assert(self@ =~= (ListenerView {
            next_hello_us: (t + HELLO_INTERVAL_US) as u64,
            ..old(self)@
        }));
        Some((Endpoint { addr: EVERYONE, port: PORT }, out))
    }

    /// A datagram arrived at `t`.
    pub fn on_datagram(&mut self, t: u64, bytes: &[u8]) -> (r: Option<Window>)
        requires
            old(self)@.wf(),
            old(self)@.sink.received + 1 >= REPORT_EVERY && is_message(bytes@)
                ==> old(self)@.windows < u32::MAX,
        ensures
            r == old(self)@.closed(t, bytes@),
            final(self)@ == old(self)@.after(t, bytes@),
            final(self)@.wf(),
    {
        self.sink.on_datagram(t, bytes);
        if self.sink.received() < REPORT_EVERY {
            assert(self@ =~= old(self)@.after(t, bytes@));
            return None;
        }
        self.windows = self.windows + 1;
        let report: Option<Report> = self.sink.report();
        self.sink.begin_window();
        assert(self@ =~= old(self)@.after(t, bytes@));
        Some(Window { number: self.windows, startup: self.windows == 1, report })
    }
}

/// What a datagram came to.
#[derive(Clone, Copy, PartialEq, Eq, Debug)]
pub enum Heard {
    Nothing,
    /// A sink that wants to be sent to, and how many there are now.
    Sink { count: usize },
    /// A window came to its end.
    Closed(Window),
}

/// One device of the flood: the one that sends, or one of those that listen;
/// to the group, or to each sink by itself.
pub struct Flood {
    is_source: bool,
    unicast: bool,
    leased: bool,
    joined: bool,
    source: Source,
    sinks: Sinks,
    listener: Listener,
}

#[verifier::ext_equal]
pub struct FloodView {
    pub is_source: bool,
    pub unicast: bool,
    pub leased: bool,
    pub joined: bool,
    pub source: SourceView,
    pub sinks: Seq<[u8; 4]>,
    pub listener: ListenerView,
}

impl View for Flood {
    type V = FloodView;

    closed spec fn view(&self) -> FloodView {
        FloodView {
            is_source: self.is_source,
            unicast: self.unicast,
            leased: self.leased,
            joined: self.joined,
            source: self.source@,
            sinks: self.sinks@,
            listener: self.listener@,
        }
    }
}

impl FloodView {
    pub open spec fn wf(self) -> bool {
        self.listener.wf() && sinks_wf(self.sinks)
    }

    /// A sink announces itself in case a source sends to each by itself.
    pub open spec fn says_hello(self, t: u64) -> bool {
        self.leased && self.unicast && !self.is_source && t >= self.listener.next_hello_us
    }

    pub open spec fn sends(self, t: u64) -> bool {
        self.leased && self.is_source && self.source.due(t)
    }

    /// After a lease was granted at `now`.
    pub open spec fn leased_at(self, now: u64) -> FloodView {
        FloodView {
            leased: true,
            source: SourceView { next_send_us: Some(now), ..self.source },
            ..self
        }
    }

    /// Whether the group is still to be joined.
    pub open spec fn wants_group(self) -> bool {
        self.leased && !self.joined && !self.is_source && !self.unicast
    }

    /// After the group was joined.
    pub open spec fn in_group(self) -> FloodView {
        FloodView { joined: true, ..self }
    }

    /// What is sent at `t` and where to, if anything is.
    pub open spec fn sending(self, t: u64) -> Option<(Seq<u8>, Seq<Endpoint>)> {
        if self.sends(t) {
            Some(
                (
                    message(CHANNEL, self.source.seq, t),
                    destinations_of(self.unicast, self.sinks),
                ),
            )
        } else {
            None
        }
    }

    /// The hello that is said at `t` and where to, if one is.
    pub open spec fn greeting(self, t: u64) -> Option<(Endpoint, Seq<u8>)> {
        if self.says_hello(t) {
            Some((Endpoint { addr: EVERYONE, port: PORT }, seq![HELLO]))
        } else {
            None
        }
    }

    /// After a hello was due at `t`, or was not.
    pub open spec fn greeted_at(self, t: u64) -> FloodView {
        if self.says_hello(t) {
            FloodView {
                listener: ListenerView {
                    next_hello_us: (t + HELLO_INTERVAL_US) as u64,
                    ..self.listener
                },
                ..self
            }
        } else {
            self
        }
    }

    /// After a datagram arrived at `t` from `addr`.
    pub open spec fn after_datagram(self, t: u64, bytes: Seq<u8>, addr: [u8; 4]) -> FloodView {
        if self.is_source {
            FloodView { sinks: greeted(self.sinks, bytes, addr), ..self }
        } else {
            FloodView { listener: self.listener.after(t, bytes), ..self }
        }
    }

    /// What a datagram that arrived at `t` from `addr` came to.
    pub open spec fn heard(self, t: u64, bytes: Seq<u8>, addr: [u8; 4]) -> Heard {
        if self.is_source {
            if greeted(self.sinks, bytes, addr) != self.sinks {
                Heard::Sink { count: (self.sinks.len() + 1) as usize }
            } else {
                Heard::Nothing
            }
        } else {
            match self.listener.closed(t, bytes) {
                Some(w) => Heard::Closed(w),
                None => Heard::Nothing,
            }
        }
    }
}

impl Flood {
    /// `source` is the role that sends, and `unicast` the mode that addresses
    /// sinks one by one.
    pub fn new(role: &str, mode: &str) -> (r: Flood)
        ensures
            r@ == (FloodView {
                is_source: role@ == "source"@,
                unicast: mode@ == "unicast"@,
                leased: false,
                joined: false,
                source: SourceView {
                    seq: 0,
                    next_send_us: None,
                    sent: 0,
                    refused: 0,
                    lateness: HistogramView::fresh(),
                },
                sinks: Seq::empty(),
                listener: ListenerView {
                    sink: SinkView::fresh(),
                    windows: 0,
                    next_hello_us: 0,
                },
            }),
            r@.wf(),
    {
        Flood {
            is_source: same_text(role, "source"),
            unicast: same_text(mode, "unicast"),
            leased: false,
            joined: false,
            source: Source::new(),
            sinks: Sinks::new(),
            listener: Listener::new(),
        }
    }

    /// A lease was granted at `now`.
    pub fn lease(&mut self, now: u64)
        ensures
            final(self)@ == (FloodView {
                leased: true,
                source: SourceView { next_send_us: Some(now), ..old(self)@.source },
                ..old(self)@
            }),
            final(self)@ == old(self)@.leased_at(now),
    {
        self.leased = true;
        self.source.lease(now);
    }

    /// The hello to send at `t`, if one is due.
    pub fn hello(&mut self, t: u64) -> (r: Option<(Endpoint, [u8; 1])>)
        requires
            old(self)@.says_hello(t) ==> t + HELLO_INTERVAL_US <= u64::MAX,
            old(self)@.wf(),
        ensures
            r is Some <==> old(self)@.says_hello(t),
            r matches Some((to, out)) ==> to == (Endpoint { addr: EVERYONE, port: PORT }) && out@
                == seq![HELLO],
            final(self)@ == if old(self)@.says_hello(t) {
                FloodView {
                    listener: ListenerView {
                        next_hello_us: (t + HELLO_INTERVAL_US) as u64,
                        ..old(self)@.listener
                    },
                    ..old(self)@
                }
            } else {
                old(self)@
            },
            final(self)@ == old(self)@.greeted_at(t),
            r matches Some((to, out)) ==> old(self)@.greeting(t) == Some((to, out@)),
            r is Some <==> old(self)@.greeting(t) is Some,
            final(self)@.wf(),
    {
        if !self.leased || !self.unicast || self.is_source {
            return None;
        }
        self.listener.hello(t)
    }

    /// Whether the group is still to be joined. Joining is what tells an access
    /// point to forward it.
    pub fn wants_group(&self) -> (r: bool)
        ensures
            r == (self@.leased && !self@.joined && !self@.is_source && !self@.unicast),
            r == self@.wants_group(),
    {
        self.leased && !self.joined && !self.is_source && !self.unicast
    }

    pub fn joined_group(&mut self)
        ensures
            final(self)@ == (FloodView { joined: true, ..old(self)@ }),
            final(self)@ == old(self)@.in_group(),
    {
        self.joined = true;
    }

    /// How many windows have been closed.
    pub fn windows(&self) -> (r: u32)
        ensures
            r == self@.listener.windows,
    {
        self.listener.windows()
    }

    /// A datagram arrived at `t` from `addr`. A source takes hellos and a
    /// listener takes messages.
    pub fn on_datagram(&mut self, t: u64, bytes: &[u8], addr: [u8; 4]) -> (r: Heard)
        requires
            old(self)@.wf(),
            !old(self)@.is_source && is_message(bytes@) && old(self)@.listener.sink.received + 1
                >= REPORT_EVERY ==> old(self)@.listener.windows < u32::MAX,
        ensures
            final(self)@ == if old(self)@.is_source {
                FloodView { sinks: greeted(old(self)@.sinks, bytes@, addr), ..old(self)@ }
            } else {
                FloodView { listener: old(self)@.listener.after(t, bytes@), ..old(self)@ }
            },
            r == if old(self)@.is_source {
                if greeted(old(self)@.sinks, bytes@, addr) != old(self)@.sinks {
                    Heard::Sink { count: (old(self)@.sinks.len() + 1) as usize }
                } else {
                    Heard::Nothing
                }
            } else {
                match old(self)@.listener.closed(t, bytes@) {
                    Some(w) => Heard::Closed(w),
                    None => Heard::Nothing,
                }
            },
            final(self)@ == old(self)@.after_datagram(t, bytes@, addr),
            r == old(self)@.heard(t, bytes@, addr),
            final(self)@.wf(),
    {
        if self.is_source {
            if self.sinks.hello(bytes, addr) {
                Heard::Sink { count: self.sinks.len() }
            } else {
                Heard::Nothing
            }
        } else {
            match self.listener.on_datagram(t, bytes) {
                Some(w) => Heard::Closed(w),
                None => Heard::Nothing,
            }
        }
    }

    /// What to send at `t`, if a send is due, and where to.
    pub fn send(&self, t: u64) -> (r: Option<([u8; LEN], Vec<Endpoint>)>)
        ensures
            r is Some <==> self@.sends(t),
            r matches Some((out, to)) ==> out@ == message(CHANNEL, self@.source.seq, t) && to@
                == destinations_of(self@.unicast, self@.sinks),
            r is Some <==> self@.sending(t) is Some,
            r matches Some((out, to)) ==> self@.sending(t) == Some((out@, to@)),
    {
        if !self.leased || !self.is_source {
            return None;
        }
        match self.source.due(t) {
            Some(out) => Some((out, destinations(self.unicast, &self.sinks))),
            None => None,
        }
    }

    /// How many datagrams the stack has taken and refused.
    pub fn tally(&self) -> (r: (u32, u32))
        ensures
            r.0 == self@.source.sent,
            r.1 == self@.source.refused,
    {
        self.source.tally()
    }

    /// The due send was made at `t`.
    pub fn sent(&mut self, t: u64, sent: u32, refused: u32) -> (r: Option<Progress>)
        requires
            old(self)@.sends(t),
            next_send(old(self)@.source.next_send_us.unwrap(), t) <= u64::MAX,
            old(self)@.source.sent + sent <= u32::MAX,
            old(self)@.source.refused + refused <= u32::MAX,
        ensures
            final(self)@ == (FloodView {
                source: old(self)@.source.after_send(t, sent, refused),
                ..old(self)@
            }),
            r == if final(self)@.source.seq % REPORT_EVERY == 0 {
                Some(final(self)@.source.progress())
            } else {
                None
            },
            r == final(self)@.source.tells(),
    {
        self.source.sent(t, sent, refused)
    }
}

/// A sink is known once it has said hello, in one byte and no other, as long as
/// there is room for eight; those known before it stay, in their order.
pub proof fn a_sink_is_known_by_its_hello(known: Seq<[u8; 4]>, bytes: Seq<u8>, addr: [u8; 4])
    requires
        known.len() <= 8,
    ensures
        ({
            let after = greeted(known, bytes, addr);
            let hello = bytes.len() == 1 && bytes[0] == 0xA5;
            &&& after.take(known.len() as int) == known
            &&& after.len() <= 8
            &&& known.len() < 8 && hello ==> after.contains(addr)
            &&& known.no_duplicates() ==> after.no_duplicates()
            &&& !hello || known.contains(addr) || known.len() == 8 ==> after == known
            &&& hello && !known.contains(addr) && known.len() < 8 ==> after == known.push(addr)
        }),
{
    let after = greeted(known, bytes, addr);
    assert(after.take(known.len() as int) =~= known);
    if bytes.len() == 1 && bytes[0] == 0xA5 {
        assert(bytes =~= seq![0xA5u8]);
        if !known.contains(addr) && known.len() < 8 {
            assert(after[known.len() as int] == addr);
        }
    }
}

/// The next send is one interval after the last was due, sixty to the second,
/// unless that has passed by the time of the send: then it is one after that.
pub proof fn a_send_is_due_an_interval_after_the_last(due: u64, t: u64)
    ensures
        t <= due + 16_667 ==> next_send(due, t) == due + 16_667,
        t > due + 16_667 ==> next_send(due, t) == t + 16_667,
{
}

/// After a run of sends, each with the time it was made and how many datagrams the
/// stack took and refused.
pub open spec fn after_sends(source: SourceView, run: Seq<(u64, u32, u32)>) -> SourceView
    decreases run.len(),
{
    if run.len() == 0 {
        source
    } else {
        after_sends(source, run.drop_last()).after_send(run.last().0, run.last().1, run.last().2)
    }
}

/// Every send of a run is made at or after the time it was due.
pub open spec fn all_due(source: SourceView, run: Seq<(u64, u32, u32)>) -> bool
    decreases run.len(),
{
    run.len() > 0 ==> {
        let before = after_sends(source, run.drop_last());
        &&& all_due(source, run.drop_last())
        &&& before.next_send_us matches Some(at) && at <= run.last().0 <= i64::MAX
    }
}

/// How late each send of a run was.
pub open spec fn lateness(source: SourceView, run: Seq<(u64, u32, u32)>) -> Seq<int>
    decreases run.len(),
{
    if run.len() == 0 {
        Seq::empty()
    } else {
        let before = after_sends(source, run.drop_last());
        lateness(source, run.drop_last()).push(run.last().0 - before.next_send_us.unwrap())
    }
}

/// How many datagrams of a run the stack took, and how many it refused.
pub open spec fn taken_and_refused(run: Seq<(u64, u32, u32)>) -> (nat, nat)
    decreases run.len(),
{
    if run.len() == 0 {
        (0, 0)
    } else {
        let earlier = taken_and_refused(run.drop_last());
        (earlier.0 + run.last().1 as nat, earlier.1 + run.last().2 as nat)
    }
}

/// A source counts every message it made and every datagram that was taken or
/// refused, and what it tells of its lateness is how late its sends were.
pub proof fn a_source_counts_what_it_sent(start: u64, run: Seq<(u64, u32, u32)>)
    requires
        run.len() <= u32::MAX,
        ({
            let source = SourceView {
                seq: 0,
                next_send_us: Some(start),
                sent: 0,
                refused: 0,
                lateness: HistogramView::fresh(),
            };
            all_due(source, run)
        }),
    ensures
        ({
            let source = SourceView {
                seq: 0,
                next_send_us: Some(start),
                sent: 0,
                refused: 0,
                lateness: HistogramView::fresh(),
            };
            let after = after_sends(source, run);
            let late = lateness(source, run);
            &&& after.seq == run.len()
            &&& after.sent == taken_and_refused(run).0
            &&& after.refused == taken_and_refused(run).1
            &&& late.len() == run.len()
            &&& after.lateness == histogram(late)
            &&& after.progress().seq == run.len()
            &&& after.sent <= u32::MAX ==> after.progress().sent == taken_and_refused(run).0
            &&& after.refused <= u32::MAX ==> after.progress().refused == taken_and_refused(run).1
            &&& after.progress().p50 == percentile_edge(histogram(late).counts, 50)
            &&& after.progress().p95 == percentile_edge(histogram(late).counts, 95)
            &&& after.progress().p99 == percentile_edge(histogram(late).counts, 99)
        }),
    decreases run.len(),
{
    let source = SourceView {
        seq: 0,
        next_send_us: Some(start),
        sent: 0,
        refused: 0,
        lateness: HistogramView::fresh(),
    };
    let late = lateness(source, run);
    if run.len() > 0 {
        let earlier = run.drop_last();
        a_source_counts_what_it_sent(start, earlier);
        let before = after_sends(source, earlier);
        let at = before.next_send_us.unwrap();
        histogram_of_one_more(lateness(source, earlier), run.last().0 - at);
    }
    a_percentile_is_the_first_edge_with_its_share_below(late, 50, 250);
    a_percentile_is_the_first_edge_with_its_share_below(late, 95, 250);
    a_percentile_is_the_first_edge_with_its_share_below(late, 99, 250);
}

/// A source sends to the group, or to every sink it knows of and to no one else.
pub proof fn a_source_sends_to_the_group_or_to_each_sink(known: Seq<[u8; 4]>)
    ensures
        destinations_of(false, known).len() == 1,
        destinations_of(false, known)[0].port == 6354,
        destinations_of(false, known)[0].addr@ == seq![239u8, 12, 34, 56],
        destinations_of(true, known).len() == known.len(),
        forall|i: int|
            0 <= i < known.len() ==> #[trigger] destinations_of(true, known)[i] == (Endpoint {
                addr: known[i],
                port: 6354,
            }),
{
    assert(GROUP@ =~= seq![239u8, 12, 34, 56]);
}

/// After a run of datagrams, each with the time it arrived.
pub open spec fn after_listening(
    listener: ListenerView,
    run: Seq<(u64, Seq<u8>)>,
) -> ListenerView
    decreases run.len(),
{
    if run.len() == 0 {
        listener
    } else {
        after_listening(listener, run.drop_last()).after(run.last().0, run.last().1)
    }
}

/// How many of a run of datagrams are messages.
pub open spec fn messages_in(run: Seq<(u64, Seq<u8>)>) -> nat
    decreases run.len(),
{
    if run.len() == 0 {
        0
    } else {
        messages_in(run.drop_last()) + if run.last().1.len() >= 15 && run.last().1[0] == 0x21 {
            1nat
        } else {
            0nat
        }
    }
}

/// Every six hundred messages close a window, whatever else arrives: the windows
/// are numbered from one, the first of them is startup, and each reports what the
/// sink has seen since the one before. Hellos are not affected.
pub proof fn every_six_hundred_messages_close_a_window(
    next_hello_us: u64,
    run: Seq<(u64, Seq<u8>)>,
    t: u64,
    bytes: Seq<u8>,
)
    requires
        messages_in(run) < u32::MAX,
    ensures
        ({
            let start = ListenerView { sink: SinkView::fresh(), windows: 0, next_hello_us };
            let there = after_listening(start, run);
            let n = messages_in(run.push((t, bytes)));
            &&& there.windows == messages_in(run) / 600
            &&& there.sink.received == messages_in(run) % 600
            &&& there.next_hello_us == next_hello_us
            &&& there.closed(t, bytes) is Some <==> n > messages_in(run) && n % 600 == 0
            &&& there.closed(t, bytes) matches Some(window) ==> {
                &&& window.number == n / 600
                &&& window.startup <==> n == 600
                &&& window.report == there.sink.after(t, bytes).report()
                &&& there.after(t, bytes).sink == there.sink.after(t, bytes).windowed()
            }
            &&& there.closed(t, bytes) is None ==> there.after(t, bytes).sink == there.sink.after(
                t,
                bytes,
            )
        }),
    decreases run.len(),
{
    let start = ListenerView { sink: SinkView::fresh(), windows: 0, next_hello_us };
    if run.len() > 0 {
        let earlier = run.drop_last();
        every_six_hundred_messages_close_a_window(
            next_hello_us,
            earlier,
            run.last().0,
            run.last().1,
        );
        one_more_datagram(
            after_listening(start, earlier),
            messages_in(earlier),
            run.last().0,
            run.last().1,
        );
    }
    assert(run.push((t, bytes)).drop_last() =~= run);
    one_more_datagram(after_listening(start, run), messages_in(run), t, bytes);
}

proof fn one_more_datagram(there: ListenerView, m: nat, t: u64, bytes: Seq<u8>)
    requires
        m < u32::MAX,
        there.windows == m / 600,
        there.sink.received == m % 600,
    ensures
        ({
            let n = m + if bytes.len() >= 15 && bytes[0] == 0x21 {
                1nat
            } else {
                0nat
            };
            let after = there.after(t, bytes);
            &&& after.windows == n / 600
            &&& after.sink.received == n % 600
            &&& after.next_hello_us == there.next_hello_us
            &&& there.closed(t, bytes) is Some <==> n > m && n % 600 == 0
            &&& there.closed(t, bytes) matches Some(window) ==> {
                &&& window.number == n / 600
                &&& window.startup <==> n == 600
                &&& window.report == there.sink.after(t, bytes).report()
                &&& after.sink == there.sink.after(t, bytes).windowed()
            }
            &&& there.closed(t, bytes) is None ==> after.sink == there.sink.after(t, bytes)
        }),
{
    let heard = there.sink.after(t, bytes);
    if is_message(bytes) {
        assert(heard.received == there.sink.received + 1);
        if (m + 1) % 600 == 0 {
            assert(m % 600 == 599);
        }
    } else {
        assert(heard == there.sink);
    }
}

/// A device says hello, sends or joins only with a lease, and each in its own role:
/// a sink says hello where sinks are addressed one by one, and a source sends.
pub proof fn each_role_keeps_to_its_own(flood: FloodView, t: u64)
    ensures
        flood.says_hello(t) ==> flood.leased && flood.unicast && !flood.is_source,
        flood.sends(t) ==> flood.leased && flood.is_source,
        !(flood.says_hello(t) && flood.sends(t)),
        flood.leased && flood.unicast && !flood.is_source ==> (flood.says_hello(t) <==> t
            >= flood.listener.next_hello_us),
        flood.leased && flood.is_source ==> (flood.sends(t) <==> (flood.source.next_send_us matches Some(
            at,
        ) && t >= at)),
{
}

/// There is something to tell with every six hundredth message.
pub proof fn every_six_hundredth_message_is_told(source: SourceView)
    ensures
        source.tells() is Some <==> source.seq % 600 == 0,
        source.tells() matches Some(progress) ==> progress == source.progress(),
{
}

/// What a source sends is read as it was meant: channel one, the sequence of the
/// source and the time of sending, to the group or to each sink that it knows.
pub proof fn what_is_sent_is_read_as_meant(flood: FloodView, t: u64)
    ensures
        flood.sending(t) is Some <==> flood.sends(t),
        flood.sending(t) matches Some((bytes, to)) ==> {
            &&& bytes.len() == 15
            &&& is_message(bytes)
            &&& parts(bytes) == (1u16, flood.source.seq, t)
            &&& !flood.unicast ==> to.len() == 1 && to[0].port == 6354 && to[0].addr@ == seq![
                239u8,
                12,
                34,
                56,
            ]
            &&& flood.unicast ==> to.len() == flood.sinks.len() && forall|i: int|
                0 <= i < to.len() ==> #[trigger] to[i] == (Endpoint {
                    addr: flood.sinks[i],
                    port: 6354,
                })
        },
{
    let bytes = message(CHANNEL, flood.source.seq, t);
    decoding_undoes_encoding(CHANNEL, flood.source.seq, t, Seq::empty());
    assert(bytes + Seq::<u8>::empty() =~= bytes);
    a_source_sends_to_the_group_or_to_each_sink(flood.sinks);
}

/// A hello is one byte, to everyone on the port of the flood, and is said again after
/// a second and not before. Nothing else changes.
pub proof fn a_hello_is_said_every_second(flood: FloodView, t: u64, later: u64)
    requires
        t + 1_000_000 <= u64::MAX,
    ensures
        flood.greeting(t) is Some <==> flood.says_hello(t),
        flood.greeting(t) matches Some((to, bytes)) ==> {
            &&& to.addr@ == seq![255u8, 255, 255, 255]
            &&& to.port == 6354
            &&& bytes == seq![0xA5u8]
            &&& flood.greeted_at(t).says_hello(later) <==> later >= t + 1_000_000
            &&& flood.greeted_at(t) == (FloodView {
                listener: ListenerView {
                    next_hello_us: flood.greeted_at(t).listener.next_hello_us,
                    ..flood.listener
                },
                ..flood
            })
        },
        flood.greeting(t) is None ==> flood.greeted_at(t) == flood,
{
    assert(EVERYONE@ =~= seq![255u8, 255, 255, 255]);
}

/// A source takes hellos and nothing else, and says how many sinks there are when
/// there is a new one; a sink takes messages and nothing else, and says when a window
/// has closed. What the other role is for never changes.
pub proof fn each_role_takes_its_own(flood: FloodView, t: u64, bytes: Seq<u8>, addr: [u8; 4])
    requires
        flood.sinks.len() <= 8,
    ensures
        ({
            let after = flood.after_datagram(t, bytes, addr);
            let heard = flood.heard(t, bytes, addr);
            &&& flood.is_source ==> {
                &&& after.listener == flood.listener
                &&& after.sinks == greeted(flood.sinks, bytes, addr)
                &&& after.sinks.len() > flood.sinks.len() ==> heard == (Heard::Sink {
                    count: after.sinks.len() as usize,
                })
                &&& after.sinks.len() == flood.sinks.len() ==> heard == Heard::Nothing
            }
            &&& !flood.is_source ==> {
                &&& after.sinks == flood.sinks
                &&& after.listener == flood.listener.after(t, bytes)
                &&& heard == match flood.listener.closed(t, bytes) {
                    Some(window) => Heard::Closed(window),
                    None => Heard::Nothing,
                }
            }
            &&& after == (FloodView { sinks: after.sinks, listener: after.listener, ..flood })
        }),
{
}

/// A send counts once, after the largest sequence from zero again; it adds what was
/// taken and refused, and its own lateness.
pub proof fn a_send_counts_once(source: SourceView, t: u64, sent: u32, refused: u32)
    requires
        source.next_send_us is Some,
        source.next_send_us.unwrap() <= t,
        t - source.next_send_us.unwrap() <= i64::MAX,
    ensures
        ({
            let after = source.after_send(t, sent, refused);
            let due = source.next_send_us.unwrap();
            &&& after.seq == (source.seq + 1) % 0x1_0000_0000
            &&& after.sent == source.sent + sent
            &&& after.refused == source.refused + refused
            &&& after.lateness == source.lateness.with(t - due)
            &&& t <= due + 16_667 && due + 16_667 <= u64::MAX ==> after.next_send_us == Some(
                (due + 16_667) as u64,
            )
            &&& t > due + 16_667 && t + 16_667 <= u64::MAX ==> after.next_send_us == Some(
                (t + 16_667) as u64,
            )
        }),
{
}

/// A lease makes the first send due at once, and a source that had one starts again
/// from it; a sink that listens to the group wants to join it from then on, until it
/// has.
pub proof fn a_lease_lets_a_device_begin(flood: FloodView, now: u64, t: u64)
    ensures
        flood.is_source ==> (flood.leased_at(now).sends(t) <==> t >= now),
        flood.leased_at(now).wants_group() <==> !flood.joined && !flood.is_source
            && !flood.unicast,
        !flood.leased ==> !flood.wants_group() && !flood.sends(t) && !flood.says_hello(t),
        !flood.in_group().wants_group(),
        flood.leased_at(now).source.seq == flood.source.seq,
        flood.leased_at(now).sinks == flood.sinks,
        flood.leased_at(now).listener == flood.listener,
        flood.in_group() == (FloodView { joined: true, ..flood }),
{
}

} // verus!
