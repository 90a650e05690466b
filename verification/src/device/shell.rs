//! What the device's loop decides: when it speaks up, what it counts, when it
//! draws and what it reports.

use vstd::prelude::*;

use crate::device::mesh::sooner;
use crate::device::node::Handled;
use crate::device::node::FRAME_US;
use crate::net::Endpoint;
use crate::net::EVERYONE;

verus! {

/// The port a device listens on.
pub const PORT: u16 = 6354;

/// Which mesh this device belongs to.
pub const MESH_PREFIX: [u8; 2] = [0x4c, 0x4d];

/// The same mesh, as the core names it. Its first two bytes are the prefix.
pub const MESH_UUID: [u8; 16] = [0x4c, 0x4d, 0, 0, 0, 0, 0x40, 0, 0x80, 0, 0, 0, 0, 0, 0, 1];

/// LEDs on the strip.
pub const LEDS: usize = 30;

/// Two bytes: that a device is here, and whether it holds a program.
///
/// A device that reboots comes back with nothing, and a sender that had already
/// sent its program would never send it again.
pub const HELLO: u8 = 0xA5;

pub const HELLO_INTERVAL_US: u64 = 1_000_000;

/// How much less often a device speaks up once it has been given something. It
/// backs off rather than stopping: a device that has gone quiet can never be
/// found by a second sender.
pub const HELLO_BACKOFF: u64 = 5;

pub const REPORT_INTERVAL_US: u64 = 5_000_000;

/// The shortest datagram that says who sent it.
pub const PREFIXED: usize = 10;

/// Capacity, as a static score: instructions per second over a thousand. Never
/// the current load, or the role would flap under it.
pub const CAPACITY_C3: u32 = 1194;

pub const CAPACITY_S3: u32 = 1714;

/// Where a hello goes: to everyone, for a sender that is not known yet.
pub fn hello_to() -> (r: Endpoint)
    ensures
        r == (Endpoint { addr: EVERYONE, port: PORT }),
{
    Endpoint { addr: EVERYONE, port: PORT }
}

/// A device's identity: the address of its radio, and nothing behind it.
pub open spec fn identity_of(mac: Seq<u8>) -> Seq<u8> {
    mac + seq![0u8, 0, 0, 0, 0, 0, 0, 0, 0, 0]
}

/// A device's identity, which is stable across reboots and different on every
/// board.
pub fn identity(mac: [u8; 6]) -> (r: [u8; 16])
    ensures
        r@ == mac@ + seq![0u8, 0, 0, 0, 0, 0, 0, 0, 0, 0],
        r@ == identity_of(mac@),
{
    let r: [u8; 16] = [
        mac[0],
        mac[1],
        mac[2],
        mac[3],
        mac[4],
        mac[5],
        0,
        0,
        0,
        0,
        0,
        0,
        0,
        0,
        0,
        0,
    ];
    assert(r@ =~= mac@ + seq![0u8, 0, 0, 0, 0, 0, 0, 0, 0, 0]);
    r
}

/// Who sent a datagram, if it is long enough to say.
pub fn sender_of(bytes: &[u8]) -> (r: Option<[u8; 4]>)
    ensures
        r is Some <==> bytes@.len() >= PREFIXED,
        r matches Some(prefix) ==> prefix@ == bytes@.subrange(6, 10),
{
    if bytes.len() < PREFIXED {
        return None;
    }
    let prefix: [u8; 4] = [bytes[6], bytes[7], bytes[8], bytes[9]];
    assert(prefix@ =~= bytes@.subrange(6, 10));
    Some(prefix)
}

/// Another device announcing itself, which is not for a device to answer.
pub open spec fn is_hello(bytes: Seq<u8>) -> bool {
    0 < bytes.len() <= 2 && bytes[0] == HELLO
}

/// When a frame is due next, after one drawn at `t` that was due at `due`.
///
/// Absolute, so that a slow frame does not push every later one late.
pub open spec fn next_frame(due: u64, t: u64) -> int {
    if due + FRAME_US < t {
        t + FRAME_US
    } else {
        due + FRAME_US
    }
}

/// A frame is never due before the one just drawn, and a late one leaves the
/// grid only if a whole period was missed.
pub proof fn a_slow_frame_stays_on_the_grid(due: u64, t: u64)
    requires
        due <= t,
    ensures
        t <= next_frame(due, t) <= t + FRAME_US,
        t <= due + FRAME_US ==> next_frame(due, t) == due + FRAME_US,
{
}

/// What the loop keeps. The counters since the last report are separate from
/// those since boot.
pub struct Shell {
    next_hello_us: u64,
    announced: bool,
    mesh_deadline_us: u64,
    /// Nothing is drawn or reported before there is a lease.
    next_frame_us: Option<u64>,
    next_report_us: u64,
    datagrams: u32,
    rx_tick: u32,
    rx_req: u32,
    rx_resp: u32,
    frames: u32,
    spent: u64,
    render_us: u64,
    out_us: u64,
    draw_ua: u32,
    derated: bool,
}

#[verifier::ext_equal]
pub struct ShellView {
    pub next_hello_us: u64,
    pub announced: bool,
    pub mesh_deadline_us: u64,
    pub next_frame_us: Option<u64>,
    pub next_report_us: u64,
    pub datagrams: nat,
    pub rx_tick: nat,
    pub rx_req: nat,
    pub rx_resp: nat,
    pub frames: nat,
    pub spent: nat,
    pub render_us: nat,
    pub out_us: nat,
    pub draw_ua: u32,
    pub derated: bool,
}

impl View for Shell {
    type V = ShellView;

    closed spec fn view(&self) -> ShellView {
        ShellView {
            next_hello_us: self.next_hello_us,
            announced: self.announced,
            mesh_deadline_us: self.mesh_deadline_us,
            next_frame_us: self.next_frame_us,
            next_report_us: self.next_report_us,
            datagrams: self.datagrams as nat,
            rx_tick: self.rx_tick as nat,
            rx_req: self.rx_req as nat,
            rx_resp: self.rx_resp as nat,
            frames: self.frames as nat,
            spent: self.spent as nat,
            render_us: self.render_us as nat,
            out_us: self.out_us as nat,
            draw_ua: self.draw_ua,
            derated: self.derated,
        }
    }
}

/// What one frame took.
#[derive(Clone, Copy, PartialEq, Eq, Debug)]
pub struct Cost {
    /// Units spent rendering it.
    pub spent: u32,
    /// Current drawn, in microamperes.
    pub draw_ua: u32,
    /// Whether the power budget dimmed it.
    pub derated: bool,
    /// Time spent rendering, which is per pixel.
    pub render_us: u64,
    /// Time spent sending, which is a fixed transfer.
    pub out_us: u64,
}

/// What a device says every so often, whether or not there is anything to say:
/// silence is the one output that cannot be diagnosed.
#[derive(Clone, Copy, PartialEq, Eq, Debug)]
pub enum Activity {
    /// Frames, frames per second, units per frame, milliamperes, whether dimmed,
    /// and microseconds per frame spent rendering and sending.
    Drawing {
        frames: u32,
        fps: u32,
        units: u64,
        draw_ma: u32,
        derated: bool,
        render_us: u64,
        out_us: u64,
    },
    Idle,
}

#[derive(Clone, Copy, PartialEq, Eq, Debug)]
pub struct Report {
    pub activity: Activity,
    pub datagrams: u32,
    pub rx_tick: u32,
    pub rx_req: u32,
    pub rx_resp: u32,
}

impl ShellView {
    pub open spec fn fresh() -> ShellView {
        ShellView {
            next_hello_us: 0,
            announced: false,
            mesh_deadline_us: 0,
            next_frame_us: None,
            next_report_us: 0,
            datagrams: 0,
            rx_tick: 0,
            rx_req: 0,
            rx_resp: 0,
            frames: 0,
            spent: 0,
            render_us: 0,
            out_us: 0,
            draw_ua: 0,
            derated: false,
        }
    }

    /// How long after a hello the next one is due.
    pub open spec fn hello_interval(self) -> int {
        if self.announced {
            HELLO_INTERVAL_US * HELLO_BACKOFF
        } else {
            HELLO_INTERVAL_US as int
        }
    }

    /// Whether a frame is due.
    pub open spec fn frame_due(self, t: u64) -> bool {
        self.next_frame_us matches Some(due) && t >= due
    }

    /// After a datagram: counted by type if it is long enough to have one.
    pub open spec fn heard(self, bytes: Seq<u8>) -> ShellView {
        if is_hello(bytes) {
            self
        } else if bytes.len() < PREFIXED {
            ShellView { datagrams: self.datagrams + 1, ..self }
        } else {
            ShellView {
                datagrams: self.datagrams + 1,
                rx_tick: self.rx_tick + if bytes[2] == 0x10 {
                    1nat
                } else {
                    0nat
                },
                rx_req: self.rx_req + if bytes[2] == 0x11 {
                    1nat
                } else {
                    0nat
                },
                rx_resp: self.rx_resp + if bytes[2] == 0x12 {
                    1nat
                } else {
                    0nat
                },
                ..self
            }
        }
    }

    pub open spec fn wf(self) -> bool {
        &&& self.rx_tick <= self.datagrams <= u32::MAX
        &&& self.rx_req <= self.datagrams
        &&& self.rx_resp <= self.datagrams
    }

    /// After the show clock was taken back by `by`: what is due on it is as far
    /// off as it was.
    pub open spec fn taken_back(self, by: int) -> ShellView {
        ShellView {
            mesh_deadline_us: sooner(self.mesh_deadline_us, by),
            next_frame_us: match self.next_frame_us {
                Some(at) => Some(sooner(at, by)),
                None => None,
            },
            next_report_us: sooner(self.next_report_us, by),
            ..self
        }
    }

    /// After a frame.
    pub open spec fn drew(self, cost: Cost) -> ShellView {
        ShellView {
            frames: self.frames + 1,
            spent: self.spent + cost.spent as nat,
            render_us: self.render_us + cost.render_us as nat,
            out_us: self.out_us + cost.out_us as nat,
            draw_ua: cost.draw_ua,
            derated: cost.derated,
            ..self
        }
    }

    pub open spec fn activity(self) -> Activity {
        if self.frames == 0 {
            Activity::Idle
        } else {
            Activity::Drawing {
                frames: self.frames as u32,
                fps: (self.frames / 5) as u32,
                units: (self.spent / self.frames) as u64,
                draw_ma: self.draw_ua / 1000,
                derated: self.derated,
                render_us: (self.render_us / self.frames) as u64,
                out_us: (self.out_us / self.frames) as u64,
            }
        }
    }

    pub open spec fn report(self) -> Report {
        Report {
            activity: self.activity(),
            datagrams: self.datagrams as u32,
            rx_tick: self.rx_tick as u32,
            rx_req: self.rx_req as u32,
            rx_resp: self.rx_resp as u32,
        }
    }

    /// After a report at `t`.
    pub open spec fn reported(self, t: u64) -> ShellView {
        ShellView {
            next_report_us: (t + REPORT_INTERVAL_US) as u64,
            frames: 0,
            spent: 0,
            render_us: 0,
            out_us: 0,
            ..self
        }
    }
}

impl Shell {
    pub fn new() -> (r: Shell)
        ensures
            r@ == ShellView::fresh(),
            r@.wf(),
    {
        Shell {
            next_hello_us: 0,
            announced: false,
            mesh_deadline_us: 0,
            next_frame_us: None,
            next_report_us: 0,
            datagrams: 0,
            rx_tick: 0,
            rx_req: 0,
            rx_resp: 0,
            frames: 0,
            spent: 0,
            render_us: 0,
            out_us: 0,
            draw_ua: 0,
            derated: false,
        }
    }

    /// A lease was granted at `now`.
    pub fn lease(&mut self, now: u64)
        requires
            now + REPORT_INTERVAL_US <= u64::MAX,
        ensures
            final(self)@ == (ShellView {
                next_frame_us: Some(now),
                next_report_us: (now + REPORT_INTERVAL_US) as u64,
                ..old(self)@
            }),
    {
        self.next_frame_us = Some(now);
        self.next_report_us = now + REPORT_INTERVAL_US;
        assert(self@ =~= (ShellView {
            next_frame_us: Some(now),
            next_report_us: (now + REPORT_INTERVAL_US) as u64,
            ..old(self)@
        }));
    }

    /// The hello to send at `t`, if one is due.
    pub fn hello(&mut self, t: u64, has_program: bool) -> (r: Option<[u8; 2]>)
        requires
            t >= old(self)@.next_hello_us ==> t + old(self)@.hello_interval() <= u64::MAX,
        ensures
            r is Some <==> t >= old(self)@.next_hello_us,
            r matches Some(out) ==> out@ == seq![HELLO, if has_program { 1u8 } else { 0u8 }],
            final(self)@ == if t < old(self)@.next_hello_us {
                old(self)@
            } else {
                ShellView {
                    next_hello_us: (t + old(self)@.hello_interval()) as u64,
                    ..old(self)@
                }
            },
    {
        if t < self.next_hello_us {
            return None;
        }
        self.next_hello_us = t + if self.announced {
            HELLO_INTERVAL_US * HELLO_BACKOFF
        } else {
            HELLO_INTERVAL_US
        };
        let out: [u8; 2] = [
            HELLO,
            if has_program {
                1
            } else {
                0
            },
        ];
        assert(out@ =~= seq![HELLO, if has_program { 1u8 } else { 0u8 }]);
        Some(out)
    }

    /// Whether the core wants waking at show time `t`.
    pub fn mesh_due(&self, t: u64) -> (r: bool)
        ensures
            r == (t >= self@.mesh_deadline_us),
    {
        t >= self.mesh_deadline_us
    }

    /// When the core wants waking next.
    pub fn set_mesh_deadline(&mut self, at: u64)
        ensures
            final(self)@ == (ShellView { mesh_deadline_us: at, ..old(self)@ }),
    {
        self.mesh_deadline_us = at;
        assert(self@ =~= (ShellView { mesh_deadline_us: at, ..old(self)@ }));
    }

    /// The show clock was taken back by `by`.
    pub fn take_back(&mut self, by: u64)
        ensures
            final(self)@ == old(self)@.taken_back(by as int),
    {
        self.mesh_deadline_us = self.mesh_deadline_us.saturating_sub(by);
        self.next_frame_us = match self.next_frame_us {
            Some(at) => Some(at.saturating_sub(by)),
            None => None,
        };
        self.next_report_us = self.next_report_us.saturating_sub(by);
        assert(self@ =~= old(self)@.taken_back(by as int));
    }

    /// A datagram arrived. Whether it is for this device: announcements of
    /// others are not.
    pub fn on_datagram(&mut self, bytes: &[u8]) -> (r: bool)
        requires
            old(self)@.wf(),
            !is_hello(bytes@) ==> old(self)@.datagrams < u32::MAX,
        ensures
            r == !is_hello(bytes@),
            final(self)@ == old(self)@.heard(bytes@),
            final(self)@.wf(),
    {
        let n: usize = bytes.len();
        if 0 < n && n <= 2 && bytes[0] == HELLO {
            return false;
        }
        self.datagrams = self.datagrams + 1;
        if n >= PREFIXED {
            let kind: u8 = bytes[2];
            if kind == 0x10 {
                self.rx_tick = self.rx_tick + 1;
            } else if kind == 0x11 {
                self.rx_req = self.rx_req + 1;
            } else if kind == 0x12 {
                self.rx_resp = self.rx_resp + 1;
            }
        }
        assert(self@ =~= old(self)@.heard(bytes@));
        true
    }

    /// Datagrams counted so far.
    pub fn datagrams(&self) -> (r: u32)
        ensures
            r == self@.datagrams,
    {
        self.datagrams
    }

    /// What came of a datagram. A program that begins to arrive means that
    /// somebody has found this device.
    pub fn note(&mut self, handled: Handled)
        ensures
            final(self)@ == (ShellView {
                announced: old(self)@.announced || handled is ProgramStarted,
                ..old(self)@
            }),
    {
        if let Handled::ProgramStarted { .. } = handled {
            self.announced = true;
        }
        assert(self@ =~= (ShellView {
            announced: old(self)@.announced || handled is ProgramStarted,
            ..old(self)@
        }));
    }

    /// Whether a frame is due at show time `t`. If so, the next one is scheduled.
    pub fn frame_due(&mut self, t: u64) -> (r: bool)
        requires
            old(self)@.frame_due(t) ==> next_frame(old(self)@.next_frame_us.unwrap(), t)
                <= u64::MAX,
        ensures
            r == old(self)@.frame_due(t),
            final(self)@ == if r {
                ShellView {
                    next_frame_us: Some(
                        next_frame(old(self)@.next_frame_us.unwrap(), t) as u64,
                    ),
                    ..old(self)@
                }
            } else {
                old(self)@
            },
    {
        let due: u64 = match self.next_frame_us {
            Some(due) => due,
            None => {
                return false;
            },
        };
        if t < due {
            return false;
        }
        self.next_frame_us = Some(
            if due + FRAME_US < t {
                t + FRAME_US
            } else {
                due + FRAME_US
            },
        );
        true
    }

    /// A frame was drawn.
    pub fn drew(&mut self, cost: Cost)
        requires
            old(self)@.frames < u32::MAX,
            old(self)@.spent + cost.spent <= u64::MAX,
            old(self)@.render_us + cost.render_us <= u64::MAX,
            old(self)@.out_us + cost.out_us <= u64::MAX,
        ensures
            final(self)@ == old(self)@.drew(cost),
    {
        self.frames = self.frames + 1;
        self.spent = self.spent + cost.spent as u64;
        self.render_us = self.render_us + cost.render_us;
        self.out_us = self.out_us + cost.out_us;
        self.draw_ua = cost.draw_ua;
        self.derated = cost.derated;
        assert(self@ =~= old(self)@.drew(cost));
    }

    /// What has been counted since the last report: frames, units, and time
    /// spent rendering and sending.
    pub fn counted(&self) -> (r: (u32, u64, u64, u64))
        ensures
            r.0 == self@.frames,
            r.1 == self@.spent,
            r.2 == self@.render_us,
            r.3 == self@.out_us,
    {
        (self.frames, self.spent, self.render_us, self.out_us)
    }

    /// The report at show time `t`, if one is due.
    pub fn report(&mut self, t: u64) -> (r: Option<Report>)
        requires
            t >= old(self)@.next_report_us ==> t + REPORT_INTERVAL_US <= u64::MAX,
        ensures
            r == if t >= old(self)@.next_report_us {
                Some(old(self)@.report())
            } else {
                None
            },
            final(self)@ == if t >= old(self)@.next_report_us {
                old(self)@.reported(t)
            } else {
                old(self)@
            },
    {
        if t < self.next_report_us {
            return None;
        }
        let activity: Activity = if self.frames > 0 {
            proof {
                share_fits(self.spent, self.frames);
                share_fits(self.render_us, self.frames);
                share_fits(self.out_us, self.frames);
            }
            Activity::Drawing {
                frames: self.frames,
                fps: self.frames / 5,
                units: self.spent / self.frames as u64,
                draw_ma: self.draw_ua / 1000,
                derated: self.derated,
                render_us: self.render_us / self.frames as u64,
                out_us: self.out_us / self.frames as u64,
            }
        } else {
            Activity::Idle
        };
        let report = Report {
            activity,
            datagrams: self.datagrams,
            rx_tick: self.rx_tick,
            rx_req: self.rx_req,
            rx_resp: self.rx_resp,
        };
        self.next_report_us = t + REPORT_INTERVAL_US;
        self.frames = 0;
        self.spent = 0;
        self.render_us = 0;
        self.out_us = 0;
        assert(self@ =~= old(self)@.reported(t));
        Some(report)
    }
}

proof fn share_fits(all: u64, n: u32)
    requires
        n > 0,
    ensures
        0 <= all as int / n as int <= all,
{
    assert(0 <= all as int / n as int <= all) by (nonlinear_arith)
        requires
            n > 0,
    ;
}

/// After a run of datagrams.
pub open spec fn after_hearing(shell: ShellView, run: Seq<Seq<u8>>) -> ShellView
    decreases run.len(),
{
    if run.len() == 0 {
        shell
    } else {
        after_hearing(shell, run.drop_last()).heard(run.last())
    }
}

/// Another device making itself known: one byte or two, of which the first says so.
pub open spec fn makes_itself_known(bytes: Seq<u8>) -> bool {
    (bytes.len() == 1 || bytes.len() == 2) && bytes[0] == 0xA5
}

/// How many of a run of datagrams are not announcements of other devices.
pub open spec fn for_this_device(run: Seq<Seq<u8>>) -> nat
    decreases run.len(),
{
    if run.len() == 0 {
        0
    } else {
        for_this_device(run.drop_last()) + if makes_itself_known(run.last()) {
            0nat
        } else {
            1nat
        }
    }
}

/// How many of a run of datagrams are of a type, and long enough to have one.
pub open spec fn of_type(run: Seq<Seq<u8>>, kind: u8) -> nat
    decreases run.len(),
{
    if run.len() == 0 {
        0
    } else {
        of_type(run.drop_last(), kind) + if run.last().len() >= 10 && run.last()[2] == kind {
            1nat
        } else {
            0nat
        }
    }
}

/// Every datagram is counted but for the announcements of other devices, and those
/// of the exchange by their type; and nothing else about a device changes.
pub proof fn every_datagram_is_counted(shell: ShellView, run: Seq<Seq<u8>>)
    ensures
        ({
            let after = after_hearing(shell, run);
            &&& after.datagrams == shell.datagrams + for_this_device(run)
            &&& after.rx_tick == shell.rx_tick + of_type(run, 0x10)
            &&& after.rx_req == shell.rx_req + of_type(run, 0x11)
            &&& after.rx_resp == shell.rx_resp + of_type(run, 0x12)
            &&& after == (ShellView {
                datagrams: after.datagrams,
                rx_tick: after.rx_tick,
                rx_req: after.rx_req,
                rx_resp: after.rx_resp,
                ..shell
            })
        }),
        forall|bytes: Seq<u8>| #[trigger] is_hello(bytes) <==> makes_itself_known(bytes),
    decreases run.len(),
{
    if run.len() > 0 {
        every_datagram_is_counted(shell, run.drop_last());
    }
}

/// After a run of frames.
pub open spec fn after_drawing(shell: ShellView, run: Seq<Cost>) -> ShellView
    decreases run.len(),
{
    if run.len() == 0 {
        shell
    } else {
        after_drawing(shell, run.drop_last()).drew(run.last())
    }
}

/// What a run of frames took: units, and time rendering and sending.
pub open spec fn taken_by(run: Seq<Cost>) -> (nat, nat, nat)
    decreases run.len(),
{
    if run.len() == 0 {
        (0, 0, 0)
    } else {
        let earlier = taken_by(run.drop_last());
        (
            earlier.0 + run.last().spent as nat,
            earlier.1 + run.last().render_us as nat,
            earlier.2 + run.last().out_us as nat,
        )
    }
}

/// A share of a whole, in whole numbers.
pub open spec fn is_share(share: int, whole: nat, n: nat) -> bool {
    share * n <= whole < (share + 1) * n
}

/// What is reported of drawing is of the frames since the last report: how many, how
/// many a second over five, what each took on average, and what the last of them
/// drew and whether it was dimmed. With no frame there is nothing to report.
pub proof fn a_report_is_of_the_frames_since_the_last(shell: ShellView, t: u64, run: Seq<Cost>)
    requires
        run.len() <= u32::MAX,
        taken_by(run).0 <= u64::MAX,
        taken_by(run).1 <= u64::MAX,
        taken_by(run).2 <= u64::MAX,
    ensures
        ({
            let after = after_drawing(shell.reported(t), run);
            &&& run.len() == 0 ==> after.activity() == Activity::Idle
            &&& run.len() > 0 ==> (after.activity() matches Activity::Drawing {
                frames,
                fps,
                units,
                draw_ma,
                derated,
                render_us,
                out_us,
            } && {
                &&& frames == run.len()
                &&& is_share(fps as int, run.len(), 5)
                &&& is_share(units as int, taken_by(run).0, run.len())
                &&& is_share(draw_ma as int, run.last().draw_ua as nat, 1_000)
                &&& derated == run.last().derated
                &&& is_share(render_us as int, taken_by(run).1, run.len())
                &&& is_share(out_us as int, taken_by(run).2, run.len())
            })
            &&& after.datagrams == shell.datagrams
            &&& after.rx_tick == shell.rx_tick
            &&& after.rx_req == shell.rx_req
            &&& after.rx_resp == shell.rx_resp
        }),
{
    frames_add_up(shell.reported(t), run);
    if run.len() > 0 {
        a_quotient_is_a_share(taken_by(run).0, run.len());
        a_quotient_is_a_share(taken_by(run).1, run.len());
        a_quotient_is_a_share(taken_by(run).2, run.len());
    }
}

proof fn a_quotient_is_a_share(whole: nat, n: nat)
    requires
        n > 0,
        whole <= u64::MAX,
    ensures
        is_share((whole / n) as int, whole, n),
        whole / n <= u64::MAX,
{
    let q = (whole / n) as int;
    vstd::arithmetic::div_mod::lemma_fundamental_div_mod(whole as int, n as int);
    vstd::arithmetic::div_mod::lemma_mod_bound(whole as int, n as int);
    assert((q + 1) * n == n * q + n && q * n == n * q) by (nonlinear_arith);
    assert(q <= whole) by (nonlinear_arith)
        requires
            q * n <= whole,
            n >= 1,
            whole >= 0,
    ;
}

proof fn frames_add_up(shell: ShellView, run: Seq<Cost>)
    ensures
        ({
            let after = after_drawing(shell, run);
            &&& after.frames == shell.frames + run.len()
            &&& after.spent == shell.spent + taken_by(run).0
            &&& after.render_us == shell.render_us + taken_by(run).1
            &&& after.out_us == shell.out_us + taken_by(run).2
            &&& run.len() > 0 ==> after.draw_ua == run.last().draw_ua && after.derated
                == run.last().derated
            &&& after.datagrams == shell.datagrams
            &&& after.rx_tick == shell.rx_tick
            &&& after.rx_req == shell.rx_req
            &&& after.rx_resp == shell.rx_resp
        }),
    decreases run.len(),
{
    if run.len() > 0 {
        frames_add_up(shell, run.drop_last());
    }
}

/// A report says what was counted since boot of the datagrams, and the next one is
/// due five seconds after it; what was counted for it of the frames starts again,
/// and nothing else does.
pub proof fn a_report_starts_the_frames_again(shell: ShellView, t: u64)
    requires
        shell.wf(),
        t + 5_000_000 <= u64::MAX,
    ensures
        shell.report().datagrams == shell.datagrams,
        shell.report().rx_tick == shell.rx_tick,
        shell.report().rx_req == shell.rx_req,
        shell.report().rx_resp == shell.rx_resp,
        shell.report().activity == shell.activity(),
        shell.reported(t).next_report_us == t + 5_000_000,
        shell.reported(t).activity() == Activity::Idle,
        shell.reported(t) == (ShellView {
            next_report_us: (t + 5_000_000) as u64,
            frames: 0,
            spent: 0,
            render_us: 0,
            out_us: 0,
            ..shell
        }),
{
}

/// A frame is due thirty times a second, counted from when the last was due; only
/// one that is late by more than that starts the count again.
pub proof fn a_frame_is_due_thirty_times_a_second(due: u64, t: u64)
    ensures
        t <= due + 33_333 ==> next_frame(due, t) == due + 33_333,
        t > due + 33_333 ==> next_frame(due, t) == t + 33_333,
{
}

/// When a frame is due after a run of frames, at times `times`.
pub open spec fn frame_after(start: u64, times: Seq<u64>) -> int
    decreases times.len(),
{
    if times.len() == 0 {
        start as int
    } else {
        next_frame(frame_after(start, times.drop_last()) as u64, times.last())
    }
}

/// As long as no frame is late by more than a period, frames stay on the grid they
/// started on, however late each of them was.
pub proof fn frames_stay_on_the_grid(start: u64, times: Seq<u64>)
    requires
        start + times.len() * 33_333 <= u64::MAX,
        forall|i: int|
            0 <= i < times.len() ==> (#[trigger] times[i]) <= start + (i + 1) * 33_333,
    ensures
        frame_after(start, times) == start + times.len() * 33_333,
    decreases times.len(),
{
    if times.len() > 0 {
        let earlier = times.drop_last();
        let n = earlier.len();
        assert forall|i: int| 0 <= i < earlier.len() implies (#[trigger] earlier[i]) <= start + (i
            + 1) * 33_333 by {
            assert(times[i] <= start + (i + 1) * 33_333);
        }
        frames_stay_on_the_grid(start, earlier);
        assert(times.last() == times[n as int]);
    }
}

/// A device that has been found speaks up every five seconds, and one that has not
/// every second.
pub proof fn a_device_that_was_found_speaks_up_less(shell: ShellView)
    ensures
        shell.announced ==> shell.hello_interval() == 5_000_000,
        !shell.announced ==> shell.hello_interval() == 1_000_000,
{
}

/// Taking the clock back moves what is due on it by as much, and no further than to
/// the start; what is due on the hardware clock, and what was counted, stays.
pub proof fn what_is_due_goes_back_with_the_clock(shell: ShellView, by: u64)
    ensures
        ({
            let after = shell.taken_back(by as int);
            &&& by <= shell.mesh_deadline_us ==> after.mesh_deadline_us + by
                == shell.mesh_deadline_us
            &&& by > shell.mesh_deadline_us ==> after.mesh_deadline_us == 0
            &&& by <= shell.next_report_us ==> after.next_report_us + by == shell.next_report_us
            &&& by > shell.next_report_us ==> after.next_report_us == 0
            &&& after.next_frame_us is Some <==> shell.next_frame_us is Some
            &&& shell.next_frame_us matches Some(at) ==> (after.next_frame_us matches Some(then)
                && then == if by <= at {
                at - by
            } else {
                0
            })
            &&& after == (ShellView {
                mesh_deadline_us: after.mesh_deadline_us,
                next_report_us: after.next_report_us,
                next_frame_us: after.next_frame_us,
                ..shell
            })
        }),
{
}

/// Before a lease no frame is due; with one, from the time it is due on.
pub proof fn a_frame_is_due_from_its_time_on(shell: ShellView, t: u64)
    ensures
        shell.frame_due(t) <==> (shell.next_frame_us matches Some(at) && t >= at),
{
}

/// The mesh of a device is the same by its prefix and by the name the core has for it.
pub proof fn a_mesh_starts_with_its_prefix()
    ensures
        MESH_UUID@.take(2) == MESH_PREFIX@,
{
    assert(MESH_UUID@.take(2) =~= MESH_PREFIX@);
}

/// An identity says which device it is: the address of its radio is the start of it,
/// and two devices with different addresses have different identities.
pub proof fn an_identity_says_which_device_it_is(mac: Seq<u8>, other: Seq<u8>)
    requires
        mac.len() == 6,
        other.len() == 6,
    ensures
        identity_of(mac).len() == 16,
        identity_of(mac).take(6) == mac,
        forall|i: int| 6 <= i < 16 ==> #[trigger] identity_of(mac)[i] == 0,
        mac != other ==> identity_of(mac) != identity_of(other),
{
    assert(identity_of(mac).take(6) =~= mac);
    assert(identity_of(other).take(6) =~= other);
}

} // verus!
