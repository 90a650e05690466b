//! The desktop node's loop, as what it does next.

use vstd::prelude::*;

use crate::device::clock::ClockView;
use crate::device::clock::ShowClock;
use crate::device::device_loop::DeviceView;
use crate::device::mesh::a_peer_is_found_where_it_was_heard;
use crate::device::mesh::address;
use crate::device::mesh::apply_mesh;
use crate::device::mesh::clock_after;
use crate::device::mesh::distinct;
use crate::device::mesh::fallback;
use crate::device::mesh::only_the_oldest_is_forgotten;
use crate::device::mesh::remembered;
use crate::device::mesh::role_after;
use crate::device::mesh::sendings;
use crate::device::mesh::sooner;
use crate::device::mesh::synced_after;
use crate::device::mesh::waking;
use crate::device::mesh::Action;
use crate::device::mesh::Peer;
use crate::device::mesh::PeerTable;
use crate::device::mesh::Sending;
use crate::device::node::FRAME_US;
use crate::device::shell::sender_of;
use crate::sender::http::Request;
use crate::sender::peer::announced;
use crate::sender::peer::announcement;
use crate::sender::peer::carried;
use crate::sender::peer::carry_out;
use crate::sender::peer::frame_at;
use crate::sender::peer::frame_of;
use crate::sender::peer::is_announcement;
use crate::sender::peer::next_frame;
use crate::sender::peer::AlertTimer;
use crate::sender::peer::Announcement;
use crate::sender::peer::Carried;
use crate::sender::peer::Summary;
use crate::sender::peer::Watch;
use crate::sender::peer::WatchView;
use crate::sender::peer::HELLO;
use crate::sender::peer::PREFIXED;
use crate::sender::peer::REPORT_INTERVAL_US;
use crate::sender::peer::TICK;
use crate::sender::peer::TOLD;
use crate::sender::provision::has_lost_it;
use crate::sender::provision::lost_program;

verus! {

/// What this node has to show.
#[derive(Clone, Copy, PartialEq, Eq, Debug)]
pub struct Has {
    /// A picture of its own, to hold against a device's.
    pub live: bool,
    /// An effect for devices that hold none.
    pub play: bool,
    /// An alert.
    pub alert: bool,
}

/// What a datagram calls for.
#[derive(Clone, Copy, PartialEq, Eq, Debug)]
pub struct Arrival {
    /// Whether it is worth telling.
    pub tell: bool,
    /// The frame to draw and hold against the device's, and its show time.
    pub compare: Option<(Announcement, u64)>,
    /// Where to send the effect.
    pub give: Option<[u8; 4]>,
    /// Whether the core is told of it.
    pub to_mesh: bool,
}

/// What a desktop node reports.
#[derive(Clone, Copy, PartialEq, Eq, Debug)]
pub struct DeskReport {
    pub synced: bool,
    pub peers: usize,
    pub window: Summary,
}

/// The whole of a desktop node but for its input and output. Roles are the
/// core's own.
pub struct Desk<R> {
    own: [u8; 4],
    port: u16,
    has: Has,
    clock: ShowClock,
    peers: PeerTable,
    watch: Watch,
    alerts: AlertTimer,
    deadline_us: u64,
    last_report_us: u64,
    last_frame: Option<u64>,
    device: Option<[u8; 4]>,
    role: R,
    synced: bool,
}

#[verifier::ext_equal]
pub struct DeskView<R> {
    pub own: [u8; 4],
    pub port: u16,
    pub has: Has,
    pub clock: ClockView,
    pub peers: Seq<Peer>,
    pub watch: WatchView,
    /// When the next alert is due, and how often there is one.
    pub next_alert_us: u64,
    pub alert_every_us: u64,
    pub deadline_us: u64,
    pub last_report_us: u64,
    /// The frame drawn last.
    pub last_frame: Option<u64>,
    /// Where the device is that was last heard announcing itself.
    pub device: Option<[u8; 4]>,
    pub role: R,
    pub synced: bool,
}

impl<R> DeskView<R> {
    pub open spec fn wf(self) -> bool {
        self.clock.wf() && self.watch.wf()
    }

    /// After the core asked for `actions` at show time `now_us`. If that takes
    /// the show clock back, the core is woken no later for it.
    pub open spec fn asked(self, actions: Seq<Action<R>>, now_us: u64) -> DeskView<R> {
        DeskView {
            deadline_us: sooner(waking(actions, now_us), fallback(actions, self.clock)),
            clock: clock_after(actions, self.clock),
            role: role_after(actions, self.role),
            synced: synced_after(actions, self.synced),
            ..self
        }
    }

    /// After a datagram arrived at `now_us`, from `from` if that is an address
    /// that can be answered.
    ///
    /// Any announcement says where a device is: a device that already holds a
    /// program could otherwise never be sent an alert.
    pub open spec fn arrived(
        self,
        now_us: u64,
        bytes: Seq<u8>,
        from: Option<[u8; 4]>,
    ) -> DeskView<R> {
        DeskView {
            watch: self.watch.skewed(now_us, bytes, self.own).ticked(bytes),
            peers: match from {
                Some(addr) => if bytes.len() >= PREFIXED {
                    remembered(
                        self.peers,
                        0,
                        [bytes[6], bytes[7], bytes[8], bytes[9]],
                        addr,
                    )
                } else {
                    self.peers
                },
                None => self.peers,
            },
            device: if from is Some && bytes.len() >= 2 && bytes[0] == HELLO {
                from
            } else {
                self.device
            },
            ..self
        }
    }

    /// The frame to draw at `now_us`, if this node draws and has not drawn it yet:
    /// its place on the grid, and its show time.
    pub open spec fn drawing(self, now_us: u64) -> Option<(u64, u64)> {
        if self.has.live && self.last_frame != Some(now_us / FRAME_US) {
            Some((now_us / FRAME_US, (now_us / FRAME_US * FRAME_US) as u64))
        } else {
            None
        }
    }

    /// Whether an alert is due.
    pub open spec fn alerts(self, raw_us: u64) -> bool {
        self.has.alert && self.device is Some && raw_us >= self.next_alert_us
    }

    /// After an alert was due, or was not.
    pub open spec fn alerted(self, raw_us: u64) -> DeskView<R> {
        if self.alerts(raw_us) {
            DeskView { next_alert_us: (raw_us + self.alert_every_us) as u64, ..self }
        } else {
            self
        }
    }

    /// The report at hardware time `raw_us`, if one is due.
    pub open spec fn report(self, raw_us: u64) -> Option<DeskReport> {
        if raw_us >= self.last_report_us + REPORT_INTERVAL_US {
            Some(
                DeskReport {
                    synced: self.synced,
                    peers: self.peers.len() as usize,
                    window: self.watch.summary(),
                },
            )
        } else {
            None
        }
    }

    /// After a report was due, or was not.
    pub open spec fn reported(self, raw_us: u64) -> DeskView<R> {
        if self.report(raw_us) is Some {
            DeskView { last_report_us: raw_us, watch: self.watch.windowed(), ..self }
        } else {
            self
        }
    }

    pub open spec fn arrival(self, bytes: Seq<u8>, from: Option<[u8; 4]>) -> Arrival {
        Arrival {
            tell: bytes.len() >= PREFIXED && (bytes[2] != TICK || self.watch.seen_ticks < TOLD),
            compare: match announced(bytes) {
                Some(a) => if self.has.live {
                    Some((a, frame_at(a.index)))
                } else {
                    None
                },
                None => None,
            },
            give: if has_lost_it(bytes) && self.has.play {
                from
            } else {
                None
            },
            to_mesh: !has_lost_it(bytes),
        }
    }
}

impl<R> View for Desk<R> {
    type V = DeskView<R>;

    closed spec fn view(&self) -> DeskView<R> {
        DeskView {
            own: self.own,
            port: self.port,
            has: self.has,
            clock: self.clock@,
            peers: self.peers@,
            watch: self.watch@,
            next_alert_us: self.alerts.next_us,
            alert_every_us: self.alerts.every_us,
            deadline_us: self.deadline_us,
            last_report_us: self.last_report_us,
            last_frame: self.last_frame,
            device: self.device,
            role: self.role,
            synced: self.synced,
        }
    }
}

impl<R: Copy> Desk<R> {
    pub closed spec fn wf(&self) -> bool {
        self@.wf() && self.peers.limit() == 0
    }

    /// A node whose show clock starts with its hardware clock at zero.
    pub fn new(own: [u8; 4], port: u16, has: Has, alert_every_us: u64, role: R) -> (r: Desk<R>)
        ensures
            r.wf(),
            r@.wf(),
            r@ == (DeskView {
                own,
                port,
                has,
                clock: ClockView { last_raw_us: 0, now_us: 0, pending_us: 0, carried: 0 },
                peers: Seq::empty(),
                watch: WatchView::fresh(),
                next_alert_us: alert_every_us,
                alert_every_us,
                deadline_us: 0,
                last_report_us: 0,
                last_frame: None,
                device: None,
                role,
                synced: false,
            }),
    {
        Desk {
            own,
            port,
            has,
            clock: ShowClock::new(0),
            peers: PeerTable::new(0),
            watch: Watch::new(),
            alerts: AlertTimer::new(0, alert_every_us),
            deadline_us: 0,
            last_report_us: 0,
            last_frame: None,
            device: None,
            role,
            synced: false,
        }
    }

    pub fn watch(&self) -> (r: &Watch)
        ensures
            r@ == self@.watch,
    {
        &self.watch
    }

    pub fn role(&self) -> (r: R)
        ensures
            r == self@.role,
    {
        self.role
    }

    /// Where the device is that was last heard announcing itself.
    pub fn device(&self) -> (r: Option<[u8; 4]>)
        ensures
            r == self@.device,
    {
        self.device
    }

    /// The show time.
    pub fn now_us(&self) -> (r: u64)
        ensures
            r == self@.clock.now_us,
    {
        self.clock.now_us()
    }

    /// Hardware time at the last turn.
    pub fn last_raw_us(&self) -> (r: u64)
        ensures
            r == self@.clock.last_raw_us,
    {
        self.clock.last_raw_us()
    }

    /// A turn begins at hardware time `raw_us`. The show time, and whether the
    /// core is to be woken.
    pub fn turn(&mut self, raw_us: u64) -> (r: (u64, bool))
        requires
            old(self).wf(),
            old(self)@.clock.elapsed(raw_us) <= i64::MAX,
        ensures
            final(self).wf(),
            final(self)@ == (DeskView {
                clock: old(self)@.clock.advanced(raw_us),
                ..old(self)@
            }),
            r.0 == final(self)@.clock.now_us,
            r.1 == (r.0 >= old(self)@.deadline_us),
    {
        let now: u64 = self.clock.advance_to(raw_us);
        (now, now >= self.deadline_us)
    }

    /// The core was woken at `now_us` and asked for `actions`. What to send.
    pub fn woken(&mut self, actions: &[Action<R>], now_us: u64) -> (r: Vec<Sending>)
        requires
            old(self).wf(),
        ensures
            final(self).wf(),
            final(self)@ == old(self)@.asked(actions@, now_us),
            r@ == sendings(actions@, old(self)@.peers, old(self)@.port),
    {
        let before: u64 = self.clock.now_us();
        let (at, out): (u64, Vec<Sending>) = apply_mesh(
            actions,
            now_us,
            self.peers.peers(),
            self.port,
            &mut self.clock,
            &mut self.role,
            &mut self.synced,
        );
        self.deadline_us = at.saturating_sub(before.saturating_sub(self.clock.now_us()));
        out
    }

    /// The core was told of a datagram at `now_us` and asked for `actions`. If
    /// for nothing, its deadline stands.
    pub fn heard(&mut self, actions: &[Action<R>], now_us: u64) -> (r: Vec<Sending>)
        requires
            old(self).wf(),
        ensures
            final(self).wf(),
            final(self)@ == if actions@.len() > 0 {
                old(self)@.asked(actions@, now_us)
            } else {
                old(self)@
            },
            r@ == sendings(actions@, old(self)@.peers, old(self)@.port),
    {
        if actions.len() == 0 {
            return Vec::new();
        }
        self.woken(actions, now_us)
    }

    /// A datagram arrived at show time `now_us`, from `from` if that is an
    /// address that can be answered.
    pub fn arrive(&mut self, now_us: u64, bytes: &[u8], from: Option<[u8; 4]>) -> (r: Arrival)
        requires
            old(self).wf(),
            old(self)@.watch.can_observe(bytes@, old(self)@.own),
        ensures
            final(self).wf(),
            final(self)@ == old(self)@.arrived(now_us, bytes@, from),
            r == old(self)@.arrival(bytes@, from),
    {
        let tell: bool = self.watch.observe(now_us, bytes, self.own);
        if let Some(addr) = from {
            if let Some(prefix) = sender_of(bytes) {
                proof {
                    let named: [u8; 4] = [bytes@[6], bytes@[7], bytes@[8], bytes@[9]];
                    assert(prefix@ =~= named@);
                    assert(prefix == named);
                }
                self.peers.remember(prefix, addr);
            }
            if is_announcement(bytes) {
                self.device = Some(addr);
            }
        }
        let compare: Option<(Announcement, u64)> = if self.has.live {
            match announcement(bytes) {
                Some(a) => Some((a, frame_of(&a))),
                None => None,
            }
        } else {
            None
        };
        let lost: bool = lost_program(bytes);
        let give: Option<[u8; 4]> = if lost && self.has.play {
            from
        } else {
            None
        };
        assert(self@ =~= old(self)@.arrived(now_us, bytes@, from));
        Arrival { tell, compare, give, to_mesh: !lost }
    }

    /// The frame that a device announced was drawn here too, with fingerprint
    /// `mine`. Whether a difference is worth telling.
    pub fn compared(&mut self, now_us: u64, a: Announcement, mine: u64) -> (r: bool)
        requires
            old(self).wf(),
            old(self)@.watch.can_match(a, mine),
        ensures
            final(self).wf(),
            final(self)@ == (DeskView {
                watch: old(self)@.watch.matched(now_us, a, mine),
                ..old(self)@
            }),
            r == (mine != a.digest && final(self)@.watch.differ <= TOLD),
            r == old(self)@.watch.tells(a, mine),
    {
        self.watch.compare(now_us, a, mine)
    }

    /// The frame to draw now, if this node draws and has not drawn it yet: its
    /// place on the grid, and its show time.
    pub fn frame(&mut self, now_us: u64) -> (r: Option<(u64, u64)>)
        requires
            old(self).wf(),
        ensures
            final(self).wf(),
            r == old(self)@.drawing(now_us),
            final(self)@ == match r {
                Some((index, _)) => DeskView { last_frame: Some(index), ..old(self)@ },
                None => old(self)@,
            },
    {
        if !self.has.live {
            return None;
        }
        let r: Option<(u64, u64)> = next_frame(self.last_frame, now_us);
        if let Some((index, _)) = r {
            self.last_frame = Some(index);
        }
        r
    }

    /// What a request comes to.
    pub fn request(&self, request: Request) -> (r: Carried)
        requires
            request matches Request::Alert(seconds) ==> seconds * 1_000_000 <= u64::MAX,
        ensures
            r == match request {
                Request::Alert(seconds) => if self@.has.alert && self@.device is Some {
                    Carried::Alert { lasts_us: (seconds * 1_000_000) as u64 }
                } else {
                    Carried::Missing
                },
                Request::Off => if self@.device is Some {
                    Carried::Off
                } else {
                    Carried::Nothing
                },
            },
            r == carried(request, self@.has.alert, self@.device is Some),
    {
        carry_out(request, self.has.alert, self.device.is_some())
    }

    /// Whether an alert is due at hardware time `raw_us`.
    pub fn alert_due(&mut self, raw_us: u64) -> (r: bool)
        requires
            old(self).wf(),
            old(self)@.alerts(raw_us) ==> raw_us + old(self)@.alert_every_us <= u64::MAX,
        ensures
            final(self).wf(),
            r == old(self)@.alerts(raw_us),
            final(self)@ == if r {
                DeskView {
                    next_alert_us: (raw_us + old(self)@.alert_every_us) as u64,
                    ..old(self)@
                }
            } else {
                old(self)@
            },
            final(self)@ == old(self)@.alerted(raw_us),
    {
        let ready: bool = self.has.alert && self.device.is_some();
        self.alerts.due(raw_us, ready)
    }

    /// The report at hardware time `raw_us`, if one is due.
    pub fn report(&mut self, raw_us: u64) -> (r: Option<DeskReport>)
        requires
            old(self).wf(),
        ensures
            final(self).wf(),
            r == if raw_us >= old(self)@.last_report_us + REPORT_INTERVAL_US {
                Some(
                    DeskReport {
                        synced: old(self)@.synced,
                        peers: old(self)@.peers.len() as usize,
                        window: old(self)@.watch.summary(),
                    },
                )
            } else {
                None
            },
            final(self)@ == match r {
                Some(_) => DeskView {
                    last_report_us: raw_us,
                    watch: old(self)@.watch.windowed(),
                    ..old(self)@
                },
                None => old(self)@,
            },
            r == old(self)@.report(raw_us),
            final(self)@ == old(self)@.reported(raw_us),
    {
        if raw_us < self.last_report_us || raw_us - self.last_report_us < REPORT_INTERVAL_US {
            return None;
        }
        self.last_report_us = raw_us;
        let window: Summary = self.watch.report();
        Some(DeskReport { synced: self.synced, peers: self.peers.len(), window })
    }
}

/// A desktop draws the frame that a device draws at the same moment.
pub proof fn a_desk_draws_the_frame_of_a_device<R, S>(
    desk: DeskView<R>,
    device: DeviceView<S>,
    t: u64,
    u: u64,
)
    requires
        t / FRAME_US == u / FRAME_US,
        desk.drawing(t) is Some,
        device.drawing(u, true) is Some,
    ensures
        desk.drawing(t).unwrap().1 == device.drawing(u, true).unwrap().frame_us,
        desk.drawing(t).unwrap().0 == u / FRAME_US,
{
}

/// A device that says it holds nothing is given the effect and nothing else: the
/// core never sees its announcement.
pub proof fn an_empty_device_is_given_the_effect<R>(
    desk: DeskView<R>,
    bytes: Seq<u8>,
    addr: [u8; 4],
)
    requires
        has_lost_it(bytes),
        desk.has.play,
    ensures
        desk.arrival(bytes, Some(addr)).give == Some(addr),
        !desk.arrival(bytes, Some(addr)).to_mesh,
        desk.arrived(0, bytes, Some(addr)).device == Some(addr),
{
}

/// What a datagram tells a desk: how far the clocks are apart, where its sender
/// lives if it names itself, and where a device is if it announces one; and nothing
/// else changes. Without an address that can be answered, nobody is found.
pub proof fn a_desk_learns_from_what_arrives<R>(
    desk: DeskView<R>,
    now_us: u64,
    bytes: Seq<u8>,
    from: Option<[u8; 4]>,
)
    requires
        distinct(desk.peers),
    ensures
        ({
            let after = desk.arrived(now_us, bytes, from);
            let announces = bytes.len() >= 2 && bytes[0] == 0xA5;
            &&& after.watch == desk.watch.skewed(now_us, bytes, desk.own).ticked(bytes)
            &&& from matches Some(addr) ==> {
                &&& bytes.len() >= 10 ==> exists|prefix: [u8; 4]|
                    prefix@ == bytes.subrange(6, 10) && #[trigger] address(after.peers, prefix)
                        == Some(addr)
                &&& announces ==> after.device == Some(addr)
            }
            &&& from is None || bytes.len() < 10 ==> after.peers == desk.peers
            &&& from is None || !announces ==> after.device == desk.device
            &&& distinct(after.peers)
            &&& after == (DeskView {
                watch: after.watch,
                peers: after.peers,
                device: after.device,
                ..desk
            })
        }),
{
    if bytes.len() >= 10 {
        if let Some(addr) = from {
            let prefix: [u8; 4] = [bytes[6], bytes[7], bytes[8], bytes[9]];
            assert(prefix@ =~= bytes.subrange(6, 10));
            a_peer_is_found_where_it_was_heard(desk.peers, 0, prefix, addr);
            assert(address(desk.arrived(now_us, bytes, from).peers, prefix) == Some(addr));
        }
    }
}

/// A desk never forgets where a peer lives: it has room for any number.
pub proof fn a_desk_forgets_no_peer<R>(
    desk: DeskView<R>,
    now_us: u64,
    bytes: Seq<u8>,
    from: Option<[u8; 4]>,
    other: [u8; 4],
)
    requires
        distinct(desk.peers),
        address(desk.peers, other) is Some,
    ensures
        address(desk.arrived(now_us, bytes, from).peers, other) is Some,
{
    if bytes.len() >= 10 {
        if let Some(addr) = from {
            let prefix: [u8; 4] = [bytes[6], bytes[7], bytes[8], bytes[9]];
            if prefix == other {
                a_peer_is_found_where_it_was_heard(desk.peers, 0, prefix, addr);
            } else {
                only_the_oldest_is_forgotten(desk.peers, 0, prefix, addr, other);
            }
        }
    }
}

/// What a datagram calls for. It is told if it says who sent it, and ticks only
/// until three of them have been; a frame that a device announces is drawn here too,
/// at the time of that frame, if there is a picture to hold against it; a device
/// that holds nothing is given the effect, if there is one; and the core hears of
/// everything else.
pub proof fn what_an_arrival_calls_for<R>(desk: DeskView<R>, bytes: Seq<u8>, from: Option<[u8; 4]>)
    ensures
        ({
            let arrival = desk.arrival(bytes, from);
            let empty = bytes.len() >= 2 && bytes[0] == 0xA5 && bytes[1] == 0;
            &&& arrival.tell <==> bytes.len() >= 10 && (bytes[2] == 0x10 ==> desk.watch.seen_ticks
                < 3)
            &&& arrival.compare is Some <==> desk.has.live && announced(bytes) is Some
            &&& arrival.compare matches Some((a, at)) ==> {
                &&& announced(bytes) == Some(a)
                &&& a.index * 33_333 <= u64::MAX ==> at == a.index * 33_333
            }
            &&& empty && desk.has.play ==> arrival.give == from
            &&& !(empty && desk.has.play) ==> arrival.give is None
            &&& arrival.to_mesh <==> !empty
        }),
{
    if let Some(a) = announced(bytes) {
        if a.index * 33_333 <= u64::MAX {
            crate::sender::peer::a_frame_is_drawn_at_its_own_time(a.index);
        }
    }
}

/// A desk that draws draws each frame once: the one that the time falls in, at the
/// start of that, and not again until the time is in another.
pub proof fn a_desk_draws_each_frame_once<R>(desk: DeskView<R>, now_us: u64, later_us: u64)
    ensures
        !desk.has.live ==> desk.drawing(now_us) is None,
        desk.has.live && desk.last_frame is None ==> desk.drawing(now_us) is Some,
        desk.drawing(now_us) matches Some((index, at)) ==> {
            let after = DeskView { last_frame: Some(index), ..desk };
            &&& at == index * 33_333
            &&& at <= now_us < at + 33_333
            &&& after.drawing(later_us) is Some <==> !(at <= later_us < at + 33_333)
        },
{
}

/// An alert is due from its time on, if there is one to show and a device to show it.
pub proof fn an_alert_is_due_from_its_time_on<R>(desk: DeskView<R>, raw_us: u64)
    ensures
        desk.alerts(raw_us) <==> desk.has.alert && desk.device is Some && raw_us
            >= desk.next_alert_us,
{
}

/// What the core asks for reaches the clock, the role, whether the show clock is held
/// and the waking, which is as far off after the clock was taken back as it was
/// before; and nothing else.
pub proof fn the_core_governs_the_clock_alone<R>(
    desk: DeskView<R>,
    actions: Seq<Action<R>>,
    now_us: u64,
)
    ensures
        ({
            let after = desk.asked(actions, now_us);
            &&& after.clock == clock_after(actions, desk.clock)
            &&& after.role == role_after(actions, desk.role)
            &&& after.synced == synced_after(actions, desk.synced)
            &&& after.clock.now_us >= desk.clock.now_us ==> after.deadline_us == waking(
                actions,
                now_us,
            )
            &&& after.clock.now_us < desk.clock.now_us && waking(actions, now_us)
                >= desk.clock.now_us ==> after.deadline_us - after.clock.now_us == waking(
                actions,
                now_us,
            ) - desk.clock.now_us
            &&& after == (DeskView {
                clock: after.clock,
                role: after.role,
                synced: after.synced,
                deadline_us: after.deadline_us,
                ..desk
            })
        }),
{
}

/// An alert that was due is due again after a whole interval and not before, counted
/// from when it was shown. One that was not stays due as it was.
pub proof fn alerts_are_an_interval_apart<R>(desk: DeskView<R>, raw_us: u64, later_us: u64)
    requires
        raw_us + desk.alert_every_us <= u64::MAX,
    ensures
        desk.alerts(raw_us) ==> (desk.alerted(raw_us).alerts(later_us) <==> later_us >= raw_us
            + desk.alert_every_us),
        !desk.alerts(raw_us) ==> desk.alerted(raw_us) == desk,
        desk.alerted(raw_us).alert_every_us == desk.alert_every_us,
{
}

/// A report is due five seconds after the last and not before. It says whether the
/// show clock is held, how many peers are known and what the window holds, and
/// starts the next window.
pub proof fn reports_are_five_seconds_apart<R>(desk: DeskView<R>, raw_us: u64, later_us: u64)
    requires
        desk.peers.len() <= usize::MAX,
    ensures
        desk.report(raw_us) is Some <==> raw_us >= desk.last_report_us + 5_000_000,
        desk.report(raw_us) matches Some(report) ==> {
            let after = desk.reported(raw_us);
            &&& report.synced == desk.synced
            &&& report.peers == desk.peers.len()
            &&& report.window == desk.watch.summary()
            &&& after.report(later_us) is Some <==> later_us >= raw_us + 5_000_000
            &&& after.watch == desk.watch.windowed()
            &&& after == (DeskView {
                last_report_us: after.last_report_us,
                watch: after.watch,
                ..desk
            })
        },
        desk.report(raw_us) is None ==> desk.reported(raw_us) == desk,
{
}

} // verus!
