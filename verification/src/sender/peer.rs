//! A second node in the mesh, on a desktop.
//!
//! It runs the same core as a device, listens to what devices say of themselves,
//! and measures how well the two agree: on the time, and on the picture. Figures
//! are per window and not since the start: an average that holds the seconds
//! before a node synchronised never recovers from them.

use vstd::prelude::*;

use crate::device::node::FRAME_US;
use crate::le;
use crate::modular::a_quotient_is_rounded_towards_zero;
use crate::modular::a_sum_stays_in_range;
use crate::modular::differences_wrap;
use crate::modular::magnitude;
use crate::modular::magnitude_of;
use crate::modular::mean_of;
use crate::modular::quotient_towards_zero;
use crate::modular::reading_as_signed_keeps_differences;
use crate::modular::signed;
use crate::modular::signed_of;
use crate::modular::sum;
use crate::net::same_four;
use crate::sender::http::Request;

verus! {

/// The marker byte of a device's announcement.
pub const HELLO: u8 = 0xA5;

/// The shortest datagram that carries the time it was sent.
pub const TIMED: usize = 24;

/// The shortest datagram that says who sent it.
pub const PREFIXED: usize = 10;

/// The shortest announcement of a frame.
pub const FRAMED: usize = 36;

/// The type of a tick.
pub const TICK: u8 = 0x10;

/// How many ticks, and how many differing frames, are told one by one.
pub const TOLD: u32 = 3;

pub const REPORT_INTERVAL_US: u64 = 5_000_000;

/// Where an alert goes, what it outranks, and what it is known by.
pub const ALERT_SLOT: u8 = 1;

pub const ALERT_PRIORITY: u8 = 230;

pub const ALERT_SOURCE: [u8; 16] = [9, 9, 9, 9, 9, 9, 9, 9, 9, 9, 9, 9, 9, 9, 9, 9];

/// What a show is known by, and how it fades when it is taken off.
pub const SHOW_SOURCE: [u8; 16] = [7, 7, 7, 7, 7, 7, 7, 7, 7, 7, 7, 7, 7, 7, 7, 7];

pub const OFF_FADE_MS: u32 = 400;

/// An identity of a process: a mark, its number, and nothing behind it.
pub open spec fn identity_of(pid: u32) -> Seq<u8> {
    seq![0xDEu8, 0x5Cu8] + le::field(pid as nat, 4) + seq![0u8, 0, 0, 0, 0, 0, 0, 0, 0, 0]
}

/// An identity that is stable for this process and cannot collide with a
/// device's.
pub fn identity(pid: u32) -> (r: [u8; 16])
    ensures
        r@ == identity_of(pid),
        r@ == seq![0xDEu8, 0x5Cu8] + le::field(pid as nat, 4) + seq![
            0u8,
            0,
            0,
            0,
            0,
            0,
            0,
            0,
            0,
            0,
        ],
{
    let p: [u8; 4] = le::u32_bytes(pid);
    let r: [u8; 16] = [
        0xDE,
        0x5C,
        p[0],
        p[1],
        p[2],
        p[3],
        0,
        0,
        0,
        0,
        0,
        0,
        0,
        0,
        0,
        0,
    ];
    assert(r@ =~= seq![0xDEu8, 0x5Cu8] + le::field(pid as nat, 4) + seq![
        0u8,
        0,
        0,
        0,
        0,
        0,
        0,
        0,
        0,
        0,
    ]);
    r
}

/// What a device says it drew: which frame, its fingerprint, and what its clock
/// said when it sent this.
#[derive(Clone, Copy, PartialEq, Eq, Debug)]
pub struct Announcement {
    pub index: u64,
    pub digest: u64,
    pub now_us: u64,
}

/// Eight bytes of a datagram.
pub open spec fn word(bytes: Seq<u8>, at: int) -> u64 {
    le::value(bytes.subrange(at, at + 8)) as u64
}

/// What a datagram says was drawn. A device that has drawn nothing yet announces
/// frame zero.
pub open spec fn announced(bytes: Seq<u8>) -> Option<Announcement> {
    if bytes.len() >= FRAMED && bytes[0] == HELLO && bytes[1] == 1 && word(bytes, 2) > 0 {
        Some(
            Announcement {
                index: word(bytes, 2),
                digest: word(bytes, 10),
                now_us: word(bytes, 18),
            },
        )
    } else {
        None
    }
}

pub fn announcement(bytes: &[u8]) -> (r: Option<Announcement>)
    ensures
        r == announced(bytes@),
{
    if bytes.len() < FRAMED || bytes[0] != HELLO || bytes[1] != 1 {
        return None;
    }
    let index: u64 = le::read(bytes, 2, 8);
    if index == 0 {
        return None;
    }
    Some(Announcement { index, digest: le::read(bytes, 10, 8), now_us: le::read(bytes, 18, 8) })
}

/// Any announcement tells where a device is, whether or not it holds a program.
pub fn is_announcement(bytes: &[u8]) -> (r: bool)
    ensures
        r == (bytes@.len() >= 2 && bytes@[0] == HELLO),
{
    bytes.len() >= 2 && bytes[0] == HELLO
}

/// The show time of a frame.
pub open spec fn frame_at(index: u64) -> u64 {
    index.wrapping_mul(FRAME_US)
}

/// The show time of the frame that a device says it drew, so that the same one
/// can be drawn here.
pub fn frame_of(a: &Announcement) -> (r: u64)
    ensures
        r == frame_at(a.index),
{
    a.index.wrapping_mul(FRAME_US)
}

/// How far a device's frame is behind its own clock, in frames. The age of the
/// report is not in this: that is the network's and this node's.
pub open spec fn drift_of(a: Announcement) -> i64 {
    (quotient_towards_zero(signed(a.now_us) as int, FRAME_US as int) as i64).wrapping_sub(
        signed(a.index),
    )
}

/// A datagram of another node that carries the time it was sent.
pub open spec fn is_timed(bytes: Seq<u8>, own: [u8; 4]) -> bool {
    bytes.len() >= TIMED && bytes.subrange(6, 10) != own@
}

/// How much later this clock reads than one that said `theirs`.
pub open spec fn skew_of(now_us: u64, theirs: u64) -> i64 {
    signed(now_us).wrapping_sub(signed(theirs))
}

/// Which frame is to be drawn now, if not the one drawn last, and its show time.
pub fn next_frame(last: Option<u64>, now_us: u64) -> (r: Option<(u64, u64)>)
    ensures
        r == if last == Some(now_us / FRAME_US) {
            None::<(u64, u64)>
        } else {
            Some((now_us / FRAME_US, (now_us / FRAME_US * FRAME_US) as u64))
        },
{
    let index: u64 = now_us / FRAME_US;
    if let Some(i) = last {
        if i == index {
            return None;
        }
    }
    Some((index, index * FRAME_US))
}

/// What is counted of what arrives.
pub struct Watch {
    seen_ticks: u32,
    skew_samples: u64,
    skew_total: i128,
    worst_skew_us: i64,
    differ: u64,
    agree_window: u64,
    differ_window: u64,
    drift_total: i128,
    worst_drift: i64,
    worst_stale_us: i64,
}

#[verifier::ext_equal]
pub struct WatchView {
    pub seen_ticks: nat,
    pub skew_samples: nat,
    pub skew_total: int,
    pub worst_skew_us: i64,
    /// Differing frames since the start.
    pub differ: nat,
    pub agree_window: nat,
    pub differ_window: nat,
    pub drift_total: int,
    pub worst_drift: i64,
    pub worst_stale_us: i64,
}

impl View for Watch {
    type V = WatchView;

    closed spec fn view(&self) -> WatchView {
        WatchView {
            seen_ticks: self.seen_ticks as nat,
            skew_samples: self.skew_samples as nat,
            skew_total: self.skew_total as int,
            worst_skew_us: self.worst_skew_us,
            differ: self.differ as nat,
            agree_window: self.agree_window as nat,
            differ_window: self.differ_window as nat,
            drift_total: self.drift_total as int,
            worst_drift: self.worst_drift,
            worst_stale_us: self.worst_stale_us,
        }
    }
}

/// The frames of a window.
#[derive(Clone, Copy, PartialEq, Eq, Debug)]
pub struct Frames {
    pub agree: u64,
    pub differ: u64,
    /// How far devices are behind their own clocks on average, and at worst.
    pub mean_drift: i64,
    pub worst_drift: i64,
    /// The age of the oldest report.
    pub worst_stale_us: i64,
}

/// The clocks of a window.
#[derive(Clone, Copy, PartialEq, Eq, Debug)]
pub struct Skew {
    pub samples: u64,
    pub mean_us: i64,
    pub worst_us: i64,
}

/// The figures of a window, as far as there are any.
#[derive(Clone, Copy, PartialEq, Eq, Debug)]
pub struct Summary {
    pub frames: Option<Frames>,
    pub skew: Option<Skew>,
}

/// The larger of a figure and the magnitude of another.
pub open spec fn worse(worst: i64, x: i64) -> i64 {
    if magnitude(x) > worst {
        magnitude(x)
    } else {
        worst
    }
}

fn worse_of(worst: i64, x: i64) -> (r: i64)
    ensures
        r == worse(worst, x),
{
    let m: i64 = magnitude_of(x);
    if m > worst {
        m
    } else {
        worst
    }
}

impl WatchView {
    pub open spec fn fresh() -> WatchView {
        WatchView {
            seen_ticks: 0,
            skew_samples: 0,
            skew_total: 0,
            worst_skew_us: 0,
            differ: 0,
            agree_window: 0,
            differ_window: 0,
            drift_total: 0,
            worst_drift: 0,
            worst_stale_us: 0,
        }
    }

    /// Frames compared in this window.
    pub open spec fn compared(self) -> nat {
        self.agree_window + self.differ_window
    }

    pub open spec fn wf(self) -> bool {
        &&& self.compared() <= u64::MAX
        &&& self.skew_samples * i64::MIN <= self.skew_total <= self.skew_samples * i64::MAX
        &&& self.compared() * i64::MIN <= self.drift_total <= self.compared() * i64::MAX
    }

    /// The counters have room for one more of each.
    pub open spec fn has_room(self) -> bool {
        &&& self.seen_ticks < u32::MAX
        &&& self.skew_samples < u64::MAX
        &&& self.differ < u64::MAX
        &&& self.compared() < u64::MAX
    }

    /// The counters have room for what a datagram counts.
    pub open spec fn can_observe(self, bytes: Seq<u8>, own: [u8; 4]) -> bool {
        &&& bytes.len() >= PREFIXED && bytes[2] == TICK ==> self.seen_ticks < u32::MAX
        &&& is_timed(bytes, own) ==> self.skew_samples < u64::MAX
    }

    /// The counters have room for what a comparison counts.
    pub open spec fn can_match(self, a: Announcement, mine: u64) -> bool {
        &&& mine != a.digest ==> self.differ < u64::MAX
        &&& self.compared() < u64::MAX
    }

    /// After a datagram of another node that carries the time it was sent.
    pub open spec fn skewed(self, now_us: u64, bytes: Seq<u8>, own: [u8; 4]) -> WatchView {
        if is_timed(bytes, own) {
            let skew = skew_of(now_us, word(bytes, 14));
            WatchView {
                skew_samples: self.skew_samples + 1,
                skew_total: self.skew_total + skew,
                worst_skew_us: worse(self.worst_skew_us, skew),
                ..self
            }
        } else {
            self
        }
    }

    pub open spec fn ticked(self, bytes: Seq<u8>) -> WatchView {
        if bytes.len() >= PREFIXED && bytes[2] == TICK {
            WatchView { seen_ticks: self.seen_ticks + 1, ..self }
        } else {
            self
        }
    }

    /// After a frame that a device announced was drawn here too.
    pub open spec fn matched(self, now_us: u64, a: Announcement, mine: u64) -> WatchView {
        let same = mine == a.digest;
        WatchView {
            agree_window: self.agree_window + if same {
                1nat
            } else {
                0nat
            },
            differ_window: self.differ_window + if same {
                0nat
            } else {
                1nat
            },
            differ: self.differ + if same {
                0nat
            } else {
                1nat
            },
            drift_total: self.drift_total + drift_of(a),
            worst_drift: worse(self.worst_drift, drift_of(a)),
            worst_stale_us: worse(self.worst_stale_us, skew_of(now_us, a.now_us)),
            ..self
        }
    }

    /// Whether a frame that was drawn here too is worth telling: one that
    /// differs is, until so many have.
    pub open spec fn tells(self, a: Announcement, mine: u64) -> bool {
        mine != a.digest && self.differ < TOLD
    }

    pub open spec fn summary(self) -> Summary {
        Summary {
            frames: if self.compared() > 0 {
                Some(
                    Frames {
                        agree: self.agree_window as u64,
                        differ: self.differ_window as u64,
                        mean_drift: quotient_towards_zero(
                            self.drift_total,
                            self.compared() as int,
                        ) as i64,
                        worst_drift: self.worst_drift,
                        worst_stale_us: self.worst_stale_us,
                    },
                )
            } else {
                None
            },
            skew: if self.skew_samples > 0 {
                Some(
                    Skew {
                        samples: self.skew_samples as u64,
                        mean_us: quotient_towards_zero(
                            self.skew_total,
                            self.skew_samples as int,
                        ) as i64,
                        worst_us: self.worst_skew_us,
                    },
                )
            } else {
                None
            },
        }
    }

    /// A fresh window. What is told one by one goes on being counted.
    pub open spec fn windowed(self) -> WatchView {
        WatchView { seen_ticks: self.seen_ticks, differ: self.differ, ..WatchView::fresh() }
    }
}

impl Watch {
    pub fn new() -> (r: Watch)
        ensures
            r@ == WatchView::fresh(),
            r@.wf(),
    {
        Watch {
            seen_ticks: 0,
            skew_samples: 0,
            skew_total: 0,
            worst_skew_us: 0,
            differ: 0,
            agree_window: 0,
            differ_window: 0,
            drift_total: 0,
            worst_drift: 0,
            worst_stale_us: 0,
        }
    }

    /// Whether the counters have room for one more of each, whatever arrives.
    pub fn has_room(&self) -> (r: bool)
        requires
            self@.wf(),
        ensures
            r == self@.has_room(),
            r ==> forall|bytes: Seq<u8>, own: [u8; 4]| #[trigger]
                self@.can_observe(bytes, own),
            r ==> forall|a: Announcement, mine: u64| #[trigger] self@.can_match(a, mine),
    {
        self.seen_ticks < u32::MAX && self.skew_samples < u64::MAX && self.differ < u64::MAX
            && self.agree_window + self.differ_window < u64::MAX
    }

    /// A datagram arrived at `now_us`, on a node whose own prefix is `own`.
    /// Whether it is worth telling: everything is, but for ticks after the first
    /// few.
    pub fn observe(&mut self, now_us: u64, bytes: &[u8], own: [u8; 4]) -> (r: bool)
        requires
            old(self)@.wf(),
            old(self)@.can_observe(bytes@, own),
        ensures
            r == (bytes@.len() >= PREFIXED && (bytes@[2] != TICK || old(self)@.seen_ticks < TOLD)),
            final(self)@ == old(self)@.skewed(now_us, bytes@, own).ticked(bytes@),
            final(self)@.wf(),
    {
        let n: usize = bytes.len();
        if n >= TIMED {
            let prefix: [u8; 4] = [bytes[6], bytes[7], bytes[8], bytes[9]];
            assert(prefix@ =~= bytes@.subrange(6, 10));
            if !same_four(&prefix, &own) {
                proof {
                    if prefix@ == own@ {
                        assert(prefix == own);
                    }
                }
                let theirs: u64 = le::read(bytes, 14, 8);
                let skew: i64 = signed_of(now_us).wrapping_sub(signed_of(theirs));
                proof {
                    a_sum_stays_in_range(self@.skew_total, self@.skew_samples, skew);
                }
                self.worst_skew_us = worse_of(self.worst_skew_us, skew);
                self.skew_samples = self.skew_samples + 1;
                self.skew_total = self.skew_total + skew as i128;
            }
        }
        if n < PREFIXED {
            return false;
        }
        let tell: bool = bytes[2] != TICK || self.seen_ticks < TOLD;
        if bytes[2] == TICK {
            self.seen_ticks = self.seen_ticks + 1;
        }
        tell
    }

    /// The frame that a device announced was drawn here too, with fingerprint
    /// `mine`. Whether a difference is worth telling.
    pub fn compare(&mut self, now_us: u64, a: Announcement, mine: u64) -> (r: bool)
        requires
            old(self)@.wf(),
            old(self)@.can_match(a, mine),
        ensures
            final(self)@ == old(self)@.matched(now_us, a, mine),
            r == (mine != a.digest && final(self)@.differ <= TOLD),
            r == old(self)@.tells(a, mine),
            final(self)@.wf(),
    {
        let same: bool = mine == a.digest;
        let frames: i64 = signed_of(a.now_us) / FRAME_US as i64;
        let drift: i64 = frames.wrapping_sub(signed_of(a.index));
        let stale: i64 = signed_of(now_us).wrapping_sub(signed_of(a.now_us));
        proof {
            a_sum_stays_in_range(self@.drift_total, self@.compared(), drift);
        }
        self.worst_stale_us = worse_of(self.worst_stale_us, stale);
        if same {
            self.agree_window = self.agree_window + 1;
        } else {
            self.differ = self.differ + 1;
            self.differ_window = self.differ_window + 1;
        }
        self.drift_total = self.drift_total + drift as i128;
        self.worst_drift = worse_of(self.worst_drift, drift);
        assert(self@ =~= old(self)@.matched(now_us, a, mine));
        !same && self.differ <= TOLD as u64
    }

    /// The figures of the window, which ends.
    pub fn report(&mut self) -> (r: Summary)
        requires
            old(self)@.wf(),
        ensures
            r == old(self)@.summary(),
            final(self)@ == old(self)@.windowed(),
            final(self)@.wf(),
    {
        let compared: u64 = self.agree_window + self.differ_window;
        let frames: Option<Frames> = if compared > 0 {
            Some(
                Frames {
                    agree: self.agree_window,
                    differ: self.differ_window,
                    mean_drift: mean_of(self.drift_total, compared),
                    worst_drift: self.worst_drift,
                    worst_stale_us: self.worst_stale_us,
                },
            )
        } else {
            None
        };
        let skew: Option<Skew> = if self.skew_samples > 0 {
            Some(
                Skew {
                    samples: self.skew_samples,
                    mean_us: mean_of(self.skew_total, self.skew_samples),
                    worst_us: self.worst_skew_us,
                },
            )
        } else {
            None
        };
        self.skew_samples = 0;
        self.skew_total = 0;
        self.worst_skew_us = 0;
        self.agree_window = 0;
        self.differ_window = 0;
        self.drift_total = 0;
        self.worst_drift = 0;
        self.worst_stale_us = 0;
        assert(self@ =~= old(self)@.windowed());
        Summary { frames, skew }
    }
}

/// A window knows nothing of the ones before it.
pub proof fn a_window_starts_afresh(watch: WatchView)
    ensures
        watch.windowed().summary() == (Summary { frames: None, skew: None }),
{
}

/// The age of a report does not count as drift: how late it arrives changes how
/// stale it is and nothing else.
pub proof fn lateness_is_not_drift(watch: WatchView, a: Announcement, mine: u64, t: u64, u: u64)
    ensures
        watch.matched(t, a, mine) == (WatchView {
            worst_stale_us: watch.matched(t, a, mine).worst_stale_us,
            ..watch.matched(u, a, mine)
        }),
{
}

/// A device that draws the frame its clock says is not behind.
pub proof fn a_punctual_device_has_no_drift(a: Announcement)
    requires
        a.now_us <= i64::MAX,
        a.index == a.now_us / FRAME_US,
    ensures
        drift_of(a) == 0,
{
}

/// What a request comes to.
#[derive(Clone, Copy, PartialEq, Eq, Debug)]
pub enum Carried {
    /// Put the alert up for so many microseconds of show time.
    Alert { lasts_us: u64 },
    /// Take the show off.
    Off,
    /// There is no device to tell, or no alert to show.
    Missing,
    /// Nothing to do, and nobody to tell.
    Nothing,
}

/// What a request comes to, on a node that may have an alert to show and may
/// know of a device.
pub open spec fn carried(request: Request, alert: bool, device: bool) -> Carried {
    match request {
        Request::Alert(seconds) => if alert && device {
            Carried::Alert { lasts_us: (seconds * 1_000_000) as u64 }
        } else {
            Carried::Missing
        },
        Request::Off => if device {
            Carried::Off
        } else {
            Carried::Nothing
        },
    }
}

/// What a request comes to, on a node that may have an alert to show and may
/// know of a device.
pub fn carry_out(request: Request, alert: bool, device: bool) -> (r: Carried)
    requires
        request matches Request::Alert(seconds) ==> seconds * 1_000_000 <= u64::MAX,
    ensures
        r == match request {
            Request::Alert(seconds) => if alert && device {
                Carried::Alert { lasts_us: (seconds * 1_000_000) as u64 }
            } else {
                Carried::Missing
            },
            Request::Off => if device {
                Carried::Off
            } else {
                Carried::Nothing
            },
        },
        r == carried(request, alert, device),
{
    match request {
        Request::Alert(seconds) => if alert && device {
            Carried::Alert { lasts_us: seconds * 1_000_000 }
        } else {
            Carried::Missing
        },
        Request::Off => if device {
            Carried::Off
        } else {
            Carried::Nothing
        },
    }
}

/// An alert over the show, every so often, on a monotonic clock.
pub struct AlertTimer {
    pub next_us: u64,
    pub every_us: u64,
}

impl AlertTimer {
    /// The first alert is a whole interval from now.
    pub fn new(now_us: u64, every_us: u64) -> (r: AlertTimer)
        requires
            now_us + every_us <= u64::MAX,
        ensures
            r.next_us == now_us + every_us,
            r.every_us == every_us,
    {
        AlertTimer { next_us: now_us + every_us, every_us }
    }

    /// Whether an alert is due. Without an alert to show and a device to show it
    /// the time passes unused.
    pub fn due(&mut self, now_us: u64, ready: bool) -> (r: bool)
        requires
            ready && now_us >= old(self).next_us ==> now_us + old(self).every_us <= u64::MAX,
        ensures
            r == (ready && now_us >= old(self).next_us),
            final(self).every_us == old(self).every_us,
            final(self).next_us == if r {
                now_us + old(self).every_us
            } else {
                old(self).next_us as int
            },
    {
        if !ready || now_us < self.next_us {
            return false;
        }
        self.next_us = now_us + self.every_us;
        true
    }
}

/// After a run of datagrams, each with the time it arrived at.
pub open spec fn after_datagrams(
    watch: WatchView,
    own: [u8; 4],
    run: Seq<(u64, Seq<u8>)>,
) -> WatchView
    decreases run.len(),
{
    if run.len() == 0 {
        watch
    } else {
        after_datagrams(watch, own, run.drop_last()).skewed(
            run.last().0,
            run.last().1,
            own,
        ).ticked(run.last().1)
    }
}

/// When another node sent a datagram, if it is one that says so.
pub open spec fn sent_at(bytes: Seq<u8>, own: [u8; 4]) -> Option<int> {
    if bytes.len() >= 24 && bytes.subrange(6, 10) != own@ {
        Some(le::value(bytes.subrange(14, 22)) as int)
    } else {
        None
    }
}

/// How much later this clock read than the datagrams of a run said it was, one
/// for each that another node sent with a time in it.
pub open spec fn skews(own: [u8; 4], run: Seq<(u64, Seq<u8>)>) -> Seq<int>
    decreases run.len(),
{
    if run.len() == 0 {
        Seq::empty()
    } else {
        let earlier = skews(own, run.drop_last());
        match sent_at(run.last().1, own) {
            Some(theirs) => earlier.push(run.last().0 - theirs),
            None => earlier,
        }
    }
}

/// Every value is small enough for a signed word of its magnitude.
pub open spec fn are_words(values: Seq<int>) -> bool {
    forall|i: int| 0 <= i < values.len() ==> i64::MIN < #[trigger] values[i] <= i64::MAX
}

/// The worst of a run of values: no value is further from zero, and one of them
/// is as far. Nothing is the worst of none.
pub open spec fn is_worst(worst: int, values: Seq<int>) -> bool {
    &&& forall|i: int| 0 <= i < values.len() ==> -worst <= #[trigger] values[i] <= worst
    &&& values.len() > 0 ==> exists|i: int|
        0 <= i < values.len() && (#[trigger] values[i] == worst || values[i] == -worst)
    &&& values.len() == 0 ==> worst == 0
}

/// The mean of a run of values: its multiple is the sum, up to a remainder smaller
/// than their number and on the same side of zero.
pub open spec fn is_mean(mean: int, values: Seq<int>) -> bool {
    &&& sum(values) >= 0 ==> mean >= 0 && mean * values.len() <= sum(values) < (mean + 1)
        * values.len()
    &&& sum(values) <= 0 ==> mean <= 0 && (mean - 1) * values.len() < sum(values) <= mean
        * values.len()
}

proof fn the_worst_of_one_more(worst: i64, values: Seq<int>, x: i64)
    requires
        x != i64::MIN,
        is_worst(worst as int, values),
    ensures
        is_worst(worse(worst, x) as int, values.push(x as int)),
{
    let more = values.push(x as int);
    let now = worse(worst, x) as int;
    if values.len() > 0 {
        let i = choose|i: int|
            0 <= i < values.len() && (#[trigger] values[i] == worst || values[i] == -worst);
        assert(more[i] == values[i]);
        assert(-worst <= values[i] <= worst);
    }
    assert(more[values.len() as int] == x);
    assert forall|i: int| 0 <= i < more.len() implies -now <= #[trigger] more[i] <= now by {
        if i < values.len() {
            assert(more[i] == values[i]);
        }
    }
}

/// The worst skew of a window is at least the magnitude of every skew that was
/// observed in it, and is that of one of them; the mean is theirs; and there are
/// as many samples as datagrams of other nodes that say when they were sent.
pub proof fn a_window_holds_its_skews(watch: WatchView, own: [u8; 4], run: Seq<(u64, Seq<u8>)>)
    requires
        run.len() <= u64::MAX,
        are_words(skews(own, run)),
    ensures
        ({
            let after = after_datagrams(watch.windowed(), own, run);
            let observed = skews(own, run);
            &&& is_worst(after.worst_skew_us as int, observed)
            &&& after.skew_samples == observed.len()
            &&& after.skew_total == sum(observed)
            &&& after.summary().skew is Some <==> observed.len() > 0
            &&& after.summary().skew matches Some(skew) ==> {
                &&& skew.samples == observed.len()
                &&& is_worst(skew.worst_us as int, observed)
                &&& is_mean(skew.mean_us as int, observed)
            }
        }),
{
    observed_skews_are_held(watch, own, run);
    let observed = skews(own, run);
    if observed.len() > 0 {
        let n = observed.len() as int;
        no_more_skews_than_datagrams(own, run);
        a_quotient_is_rounded_towards_zero(sum(observed), n);
        a_sum_of_words_is_bounded(observed);
        a_mean_fits(sum(observed), n);
    }
}

proof fn no_more_skews_than_datagrams(own: [u8; 4], run: Seq<(u64, Seq<u8>)>)
    ensures
        skews(own, run).len() <= run.len(),
    decreases run.len(),
{
    if run.len() > 0 {
        no_more_skews_than_datagrams(own, run.drop_last());
    }
}

proof fn a_sum_of_words_is_bounded(values: Seq<int>)
    requires
        are_words(values),
    ensures
        values.len() * i64::MIN <= sum(values) <= values.len() * i64::MAX,
    decreases values.len(),
{
    if values.len() > 0 {
        let earlier = values.drop_last();
        assert forall|i: int| 0 <= i < earlier.len() implies i64::MIN < #[trigger] earlier[i]
            <= i64::MAX by {
            assert(earlier[i] == values[i]);
        }
        a_sum_of_words_is_bounded(earlier);
        let n = earlier.len();
        assert((n + 1) * i64::MIN == n * i64::MIN + i64::MIN) by (nonlinear_arith);
        assert((n + 1) * i64::MAX == n * i64::MAX + i64::MAX) by (nonlinear_arith);
        assert(values.last() == values[values.len() - 1]);
    }
}

proof fn a_mean_fits(total: int, n: int)
    requires
        n > 0,
        n * i64::MIN <= total <= n * i64::MAX,
    ensures
        i64::MIN <= quotient_towards_zero(total, n) <= i64::MAX,
{
    assert(total >= 0 ==> 0 <= total / n <= i64::MAX) by (nonlinear_arith)
        requires
            n > 0,
            total <= n * i64::MAX,
    ;
    assert(total < 0 ==> 0 <= (-total) / n <= -i64::MIN) by (nonlinear_arith)
        requires
            n > 0,
            n * i64::MIN <= total,
    ;
}

proof fn observed_skews_are_held(watch: WatchView, own: [u8; 4], run: Seq<(u64, Seq<u8>)>)
    requires
        are_words(skews(own, run)),
    ensures
        ({
            let after = after_datagrams(watch.windowed(), own, run);
            let observed = skews(own, run);
            &&& is_worst(after.worst_skew_us as int, observed)
            &&& after.skew_samples == observed.len()
            &&& after.skew_total == sum(observed)
        }),
    decreases run.len(),
{
    if run.len() > 0 {
        let earlier = run.drop_last();
        let bytes = run.last().1;
        let all = skews(own, run);
        let before = skews(own, earlier);
        assert forall|i: int| 0 <= i < before.len() implies i64::MIN < #[trigger] before[i]
            <= i64::MAX by {
            assert(all[i] == before[i]);
        }
        observed_skews_are_held(watch, own, earlier);
        let held = after_datagrams(watch.windowed(), own, earlier);
        if let Some(theirs) = sent_at(bytes, own) {
            le::value_is_within_reach(bytes.subrange(14, 22));
            le::reaches();
            assert(word(bytes, 14) == theirs);
            let skew = skew_of(run.last().0, word(bytes, 14));
            assert(all[before.len() as int] == run.last().0 - theirs);
            reading_as_signed_keeps_differences(run.last().0, word(bytes, 14));
            assert(skew == run.last().0 - theirs);
            the_worst_of_one_more(held.worst_skew_us, before, skew);
            assert(all.drop_last() =~= before);
        }
    }
}

/// A datagram says when it was sent in the eight bytes from the fifteenth on, and
/// who sent it in the four from the seventh on.
pub proof fn a_datagram_carries_its_time(
    watch: WatchView,
    now_us: u64,
    start: Seq<u8>,
    from: Seq<u8>,
    middle: Seq<u8>,
    theirs: u64,
    rest: Seq<u8>,
    own: [u8; 4],
)
    requires
        start.len() == 6,
        from.len() == 4,
        middle.len() == 4,
        rest.len() >= 2,
        i64::MIN <= now_us - theirs <= i64::MAX,
    ensures
        ({
            let bytes = start + from + middle + le::field(theirs as nat, 8) + rest;
            let after = watch.skewed(now_us, bytes, own);
            &&& from != own@ ==> after.skew_samples == watch.skew_samples + 1 && after.skew_total
                == watch.skew_total + (now_us - theirs)
            &&& from == own@ ==> after == watch
        }),
{
    le::reaches();
    le::value_of_field(theirs as nat, 8);
    let bytes = start + from + middle + le::field(theirs as nat, 8) + rest;
    assert(bytes.subrange(6, 10) =~= from);
    assert(bytes.subrange(14, 22) =~= le::field(theirs as nat, 8));
    reading_as_signed_keeps_differences(now_us, theirs);
}

/// After a run of frames that devices announced and that were drawn here too: when
/// each announcement arrived, what it said, and the fingerprint found here.
pub open spec fn after_frames(watch: WatchView, run: Seq<(u64, Announcement, u64)>) -> WatchView
    decreases run.len(),
{
    if run.len() == 0 {
        watch
    } else {
        after_frames(watch, run.drop_last()).matched(run.last().0, run.last().1, run.last().2)
    }
}

/// How many of a run of frames were drawn alike.
pub open spec fn alike(run: Seq<(u64, Announcement, u64)>) -> nat
    decreases run.len(),
{
    if run.len() == 0 {
        0
    } else if run.last().1.digest == run.last().2 {
        alike(run.drop_last()) + 1
    } else {
        alike(run.drop_last())
    }
}

/// How many frames each device of a run was behind its own clock.
pub open spec fn behind(run: Seq<(u64, Announcement, u64)>) -> Seq<int> {
    run.map_values(
        |r: (u64, Announcement, u64)| r.1.now_us as int / 33_333 - r.1.index as int,
    )
}

/// How old each report of a run was when it arrived.
pub open spec fn ages(run: Seq<(u64, Announcement, u64)>) -> Seq<int> {
    run.map_values(|r: (u64, Announcement, u64)| r.0 as int - r.1.now_us as int)
}

/// The frames of a window are counted by whether they agree, and its figures are
/// those of the reports that were in it: how far devices were behind on average
/// and at worst, and how old the oldest report was.
pub proof fn a_window_holds_its_frames(watch: WatchView, run: Seq<(u64, Announcement, u64)>)
    requires
        run.len() <= u64::MAX,
        forall|i: int|
            0 <= i < run.len() ==> (#[trigger] run[i]).0 <= i64::MAX && run[i].1.now_us <= i64::MAX
                && run[i].1.index <= i64::MAX,
    ensures
        ({
            let after = after_frames(watch.windowed(), run);
            &&& after.agree_window == alike(run)
            &&& after.agree_window + after.differ_window == run.len()
            &&& after.differ == watch.differ + (run.len() - alike(run))
            &&& after.drift_total == sum(behind(run))
            &&& is_worst(after.worst_drift as int, behind(run))
            &&& is_worst(after.worst_stale_us as int, ages(run))
            &&& after.summary().frames is Some <==> run.len() > 0
            &&& after.summary().frames matches Some(frames) ==> {
                &&& frames.agree == alike(run)
                &&& frames.differ == run.len() - alike(run)
                &&& is_mean(frames.mean_drift as int, behind(run))
                &&& is_worst(frames.worst_drift as int, behind(run))
                &&& is_worst(frames.worst_stale_us as int, ages(run))
            }
        }),
{
    compared_frames_are_held(watch, run);
    if run.len() > 0 {
        let n = run.len() as int;
        let drifts = behind(run);
        assert forall|i: int| 0 <= i < drifts.len() implies i64::MIN < #[trigger] drifts[i]
            <= i64::MAX by {
            assert(run[i].1.now_us <= i64::MAX);
        }
        a_sum_of_words_is_bounded(drifts);
        a_quotient_is_rounded_towards_zero(sum(drifts), n);
        a_mean_fits(sum(drifts), n);
    }
}

proof fn compared_frames_are_held(watch: WatchView, run: Seq<(u64, Announcement, u64)>)
    requires
        forall|i: int|
            0 <= i < run.len() ==> (#[trigger] run[i]).0 <= i64::MAX && run[i].1.now_us <= i64::MAX
                && run[i].1.index <= i64::MAX,
    ensures
        ({
            let after = after_frames(watch.windowed(), run);
            &&& after.agree_window == alike(run)
            &&& after.agree_window + after.differ_window == run.len()
            &&& after.differ == watch.differ + (run.len() - alike(run))
            &&& after.drift_total == sum(behind(run))
            &&& is_worst(after.worst_drift as int, behind(run))
            &&& is_worst(after.worst_stale_us as int, ages(run))
        }),
    decreases run.len(),
{
    if run.len() > 0 {
        let earlier = run.drop_last();
        let a = run.last().1;
        assert(run.last() == run[run.len() - 1]);
        assert forall|i: int| 0 <= i < earlier.len() implies (#[trigger] earlier[i]).0 <= i64::MAX
            && earlier[i].1.now_us <= i64::MAX && earlier[i].1.index <= i64::MAX by {
            assert(earlier[i] == run[i]);
        }
        compared_frames_are_held(watch, earlier);
        let held = after_frames(watch.windowed(), earlier);
        let drift = drift_of(a);
        assert(drift == a.now_us as int / 33_333 - a.index);
        let stale = skew_of(run.last().0, a.now_us);
        assert(stale == run.last().0 - a.now_us);
        assert(behind(run) =~= behind(earlier).push(drift as int));
        assert(ages(run) =~= ages(earlier).push(stale as int));
        assert(behind(run).drop_last() =~= behind(earlier));
        the_worst_of_one_more(held.worst_drift, behind(earlier), drift);
        the_worst_of_one_more(held.worst_stale_us, ages(earlier), stale);
    }
}

/// A device that has drawn a frame is read as it wrote: the frame, its
/// fingerprint and its time, in this order, behind the marker and a one. Frame
/// zero is none, nor is anything with another marker, with a zero, or too short.
pub proof fn an_announcement_is_read_as_written(
    marker: u8,
    holds: u8,
    index: u64,
    digest: u64,
    now_us: u64,
    rest: Seq<u8>,
)
    ensures
        ({
            let bytes = seq![marker, holds] + le::field(index as nat, 8) + le::field(
                digest as nat,
                8,
            ) + le::field(now_us as nat, 8) + rest;
            announced(bytes) == if marker == 0xA5 && holds == 1 && index > 0 && rest.len() >= 10 {
                Some(Announcement { index, digest, now_us })
            } else {
                None
            }
        }),
{
    le::reaches();
    le::value_of_field(index as nat, 8);
    le::value_of_field(digest as nat, 8);
    le::value_of_field(now_us as nat, 8);
    let bytes = seq![marker, holds] + le::field(index as nat, 8) + le::field(digest as nat, 8)
        + le::field(now_us as nat, 8) + rest;
    assert(bytes.subrange(2, 10) =~= le::field(index as nat, 8));
    assert(bytes.subrange(10, 18) =~= le::field(digest as nat, 8));
    assert(bytes.subrange(18, 26) =~= le::field(now_us as nat, 8));
}

/// A frame is drawn at a time that falls into it, thirty to the second, as long as
/// there is such a time.
pub proof fn a_frame_is_drawn_at_its_own_time(index: u64)
    ensures
        index * 33_333 <= u64::MAX ==> frame_at(index) == index * 33_333 && frame_at(index) / 33_333
            == index,
        frame_at(index) == (index * 33_333) as int % 0x1_0000_0000_0000_0000,
{
    if index * 33_333 <= u64::MAX {
        vstd::arithmetic::div_mod::lemma_small_mod(
            (index * 33_333) as nat,
            0x1_0000_0000_0000_0000,
        );
    }
}

/// A window forgets every figure of the one before it and nothing else: ticks and
/// differing frames go on being counted.
pub proof fn what_is_told_goes_on_being_counted(watch: WatchView)
    ensures
        watch.windowed().seen_ticks == watch.seen_ticks,
        watch.windowed().differ == watch.differ,
        watch.windowed().skew_samples == 0,
        watch.windowed().skew_total == 0,
        watch.windowed().worst_skew_us == 0,
        watch.windowed().compared() == 0,
        watch.windowed().drift_total == 0,
        watch.windowed().worst_drift == 0,
        watch.windowed().worst_stale_us == 0,
{
}

/// The ticks of a run of datagrams.
pub open spec fn ticks_in(run: Seq<(u64, Seq<u8>)>) -> nat
    decreases run.len(),
{
    if run.len() == 0 {
        0
    } else {
        ticks_in(run.drop_last()) + if run.last().1.len() >= 10 && run.last().1[2] == 0x10 {
            1nat
        } else {
            0nat
        }
    }
}

/// Every tick is counted, whoever sent it, and a datagram counts for nothing else.
pub proof fn every_tick_is_counted(watch: WatchView, own: [u8; 4], run: Seq<(u64, Seq<u8>)>)
    ensures
        ({
            let after = after_datagrams(watch, own, run);
            &&& after.seen_ticks == watch.seen_ticks + ticks_in(run)
            &&& after == (WatchView {
                seen_ticks: after.seen_ticks,
                skew_samples: after.skew_samples,
                skew_total: after.skew_total,
                worst_skew_us: after.worst_skew_us,
                ..watch
            })
        }),
    decreases run.len(),
{
    if run.len() > 0 {
        every_tick_is_counted(watch, own, run.drop_last());
    }
}

/// A request comes to what it asks for: an alert for as many millionths of a second
/// as it has seconds, if there is one to show and a device to show it, and otherwise
/// that something is missing; off if there is a device to take the show off, and
/// otherwise nothing.
pub proof fn a_request_comes_to_what_it_asks_for(request: Request, alert: bool, device: bool)
    requires
        request matches Request::Alert(seconds) ==> seconds * 1_000_000 <= u64::MAX,
    ensures
        request matches Request::Alert(seconds) ==> {
            &&& alert && device ==> (carried(request, alert, device) matches Carried::Alert {
                lasts_us,
            } && lasts_us == seconds * 1_000_000)
            &&& !(alert && device) ==> carried(request, alert, device) == Carried::Missing
        },
        request is Off ==> carried(request, alert, device) == if device {
            Carried::Off
        } else {
            Carried::Nothing
        },
{
}

/// The first three frames that differ are told, of however many there are and in
/// however many windows; one that agrees never is.
pub proof fn the_first_three_that_differ_are_told(
    run: Seq<(u64, Announcement, u64)>,
    a: Announcement,
    mine: u64,
)
    ensures
        after_frames(WatchView::fresh(), run).tells(a, mine) <==> mine != a.digest && run.len()
            - alike(run) < 3,
        after_frames(WatchView::fresh(), run).windowed().tells(a, mine) <==> after_frames(
            WatchView::fresh(),
            run,
        ).tells(a, mine),
{
    differences_are_counted(run);
}

proof fn differences_are_counted(run: Seq<(u64, Announcement, u64)>)
    ensures
        after_frames(WatchView::fresh(), run).differ == run.len() - alike(run),
    decreases run.len(),
{
    if run.len() > 0 {
        differences_are_counted(run.drop_last());
    }
}

/// The skews of a run of datagrams, however wild the timestamps are.
pub open spec fn wrapped_skews(own: [u8; 4], run: Seq<(u64, Seq<u8>)>) -> Seq<i64>
    decreases run.len(),
{
    if run.len() == 0 {
        Seq::empty()
    } else {
        let earlier = wrapped_skews(own, run.drop_last());
        match sent_at(run.last().1, own) {
            Some(theirs) => earlier.push(skew_of(run.last().0, theirs as u64)),
            None => earlier,
        }
    }
}

/// However wild the timestamps are, the worst skew of a window is at least the
/// magnitude of every one of them, and is that of one of them unless it is zero; and
/// each is the difference of the two times up to a multiple of two to the
/// sixty-fourth.
pub proof fn a_window_holds_wild_skews_too(watch: WatchView, own: [u8; 4], run: Seq<(u64, Seq<u8>)>)
    ensures
        ({
            let after = after_datagrams(watch.windowed(), own, run);
            let observed = wrapped_skews(own, run);
            &&& after.worst_skew_us >= 0
            &&& forall|i: int|
                0 <= i < observed.len() ==> magnitude(#[trigger] observed[i]) <= after.worst_skew_us
            &&& after.worst_skew_us > 0 ==> exists|i: int|
                0 <= i < observed.len() && magnitude(#[trigger] observed[i]) == after.worst_skew_us
            &&& after.skew_samples == observed.len()
        }),
    decreases run.len(),
{
    if run.len() > 0 {
        let earlier = run.drop_last();
        a_window_holds_wild_skews_too(watch, own, earlier);
        let held = after_datagrams(watch.windowed(), own, earlier);
        let after = after_datagrams(watch.windowed(), own, run);
        let before = wrapped_skews(own, earlier);
        let observed = wrapped_skews(own, run);
        if let Some(theirs) = sent_at(run.last().1, own) {
            le::value_is_within_reach(run.last().1.subrange(14, 22));
            le::reaches();
            let skew = skew_of(run.last().0, theirs as u64);
            assert(observed[before.len() as int] == skew);
            assert forall|i: int| 0 <= i < observed.len() implies magnitude(
                #[trigger] observed[i],
            ) <= after.worst_skew_us by {
                if i < before.len() {
                    assert(observed[i] == before[i]);
                }
            }
            if held.worst_skew_us > 0 {
                let i = choose|i: int|
                    0 <= i < before.len() && magnitude(#[trigger] before[i]) == held.worst_skew_us;
                assert(observed[i] == before[i]);
            }
        }
    }
}

/// A skew is the difference of the two times, and a drift that of the frame the
/// device's clock is in and the frame it drew, up to a multiple of two to the
/// sixty-fourth.
pub proof fn skew_and_drift_are_differences(now_us: u64, theirs: u64, a: Announcement)
    ensures
        exists|k: int|
            -1 <= k <= 1 && skew_of(now_us, theirs) == now_us - theirs + #[trigger] (k
                * 0x1_0000_0000_0000_0000),
        a.now_us <= i64::MAX ==> exists|k: int|
            -1 <= k <= 1 && drift_of(a) == a.now_us as int / 33_333 - a.index + #[trigger] (k
                * 0x1_0000_0000_0000_0000),
{
    differences_wrap(now_us, theirs, 0, 0);
    if a.now_us <= i64::MAX {
        differences_wrap((a.now_us / 33_333) as u64, a.index, 0, 0);
    }
}

/// There is room until a counter is full.
pub proof fn there_is_room_until_a_counter_is_full(watch: WatchView)
    ensures
        watch.has_room() <==> watch.seen_ticks < 0xFFFF_FFFF && watch.skew_samples
            < 0xFFFF_FFFF_FFFF_FFFF && watch.differ < 0xFFFF_FFFF_FFFF_FFFF && watch.agree_window
            + watch.differ_window < 0xFFFF_FFFF_FFFF_FFFF,
{
}

/// Of two figures the worse is kept: it is no less than either, and is one of them.
pub proof fn the_worse_is_kept(worst: i64, x: i64)
    ensures
        worse(worst, x) >= worst,
        worse(worst, x) >= magnitude(x),
        worse(worst, x) == worst || worse(worst, x) == magnitude(x),
{
}

/// A frame counts once, as agreeing or as differing by its fingerprint alone, and adds
/// its own drift and its own age; nothing that is measured of clocks changes.
pub proof fn a_frame_adds_its_own(watch: WatchView, now_us: u64, a: Announcement, mine: u64)
    ensures
        ({
            let after = watch.matched(now_us, a, mine);
            &&& mine == a.digest ==> after.agree_window == watch.agree_window + 1
                && after.differ_window == watch.differ_window && after.differ == watch.differ
            &&& mine != a.digest ==> after.agree_window == watch.agree_window
                && after.differ_window == watch.differ_window + 1 && after.differ == watch.differ
                + 1
            &&& after.drift_total == watch.drift_total + drift_of(a)
            &&& after.worst_drift >= magnitude(drift_of(a))
            &&& after.worst_drift >= watch.worst_drift
            &&& after.worst_drift == watch.worst_drift || after.worst_drift == magnitude(
                drift_of(a),
            )
            &&& after.worst_stale_us >= magnitude(skew_of(now_us, a.now_us))
            &&& after.worst_stale_us >= watch.worst_stale_us
            &&& after.worst_stale_us == watch.worst_stale_us || after.worst_stale_us == magnitude(
                skew_of(now_us, a.now_us),
            )
            &&& after.skew_samples == watch.skew_samples
            &&& after.skew_total == watch.skew_total
            &&& after.worst_skew_us == watch.worst_skew_us
            &&& after.seen_ticks == watch.seen_ticks
        }),
{
}

/// An identity of a process is no other's: two processes have different ones, and none
/// is that of a device whose address was assigned to its maker, which the second bit
/// of the first byte says.
pub proof fn an_identity_of_a_process_is_its_own(pid: u32, other: u32, mac: Seq<u8>)
    requires
        mac.len() == 6,
        (mac[0] as int / 2) % 2 == 0,
    ensures
        identity_of(pid).len() == 16,
        pid != other ==> identity_of(pid) != identity_of(other),
        identity_of(pid) != crate::device::shell::identity_of(mac),
        le::value(identity_of(pid).subrange(2, 6)) == pid,
{
    le::reaches();
    le::value_of_field(pid as nat, 4);
    le::value_of_field(other as nat, 4);
    assert(identity_of(pid).subrange(2, 6) =~= le::field(pid as nat, 4));
    assert(identity_of(other).subrange(2, 6) =~= le::field(other as nat, 4));
    assert(identity_of(pid)[0] == 0xDE);
    assert(crate::device::shell::identity_of(mac)[0] == mac[0]);
}

/// Whatever a device says its time is, its drift is the frame which that is in, counted
/// from zero either way, less the frame it drew, up to a multiple of two to the
/// sixty-fourth.
pub proof fn a_wild_drift_wraps(a: Announcement)
    ensures
        exists|k: int|
            ({
                let frame = quotient_towards_zero(signed(a.now_us) as int, 33_333);
                drift_of(a) == frame - a.index + #[trigger] (k * 0x1_0000_0000_0000_0000)
            }),
{
    let frame = quotient_towards_zero(signed(a.now_us) as int, 33_333);
    let f = frame as i64;
    assert(f == frame);
    let k = crate::modular::a_difference_wraps(f, signed(a.index));
    let m = crate::modular::a_signed_reading_wraps(a.index);
    assert(drift_of(a) == frame - a.index + (k - m) * 0x1_0000_0000_0000_0000);
}

} // verus!
