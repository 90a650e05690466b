//! The device's loop, as what it does next.
//!
//! The shell turns the loop: it reads the hardware clock, polls the radio,
//! decodes what arrives, runs the core, the stack and the renderer, and drives
//! the strip. What is to be done, and in which order, is decided here.

use vstd::prelude::*;

use crate::device::clock::ClockView;
use crate::device::clock::ShowClock;
use crate::device::clock::STEP_ABOVE_US;
use crate::device::mesh::a_join_agrees_in_either_order;
use crate::device::mesh::a_peer_is_found_where_it_was_heard;
use crate::device::mesh::address;
use crate::device::mesh::apply_mesh;
use crate::device::mesh::clock_after;
use crate::device::mesh::correcting_drift_moves_nothing;
use crate::device::mesh::distinct;
use crate::device::mesh::fallback;
use crate::device::mesh::only_drifts;
use crate::device::mesh::only_the_oldest_is_forgotten;
use crate::device::mesh::remembered;
use crate::device::mesh::role_after;
use crate::device::mesh::sendings;
use crate::device::mesh::synced_after;
use crate::device::mesh::waking;
use crate::device::mesh::Action;
use crate::device::mesh::Peer;
use crate::device::mesh::PeerTable;
use crate::device::mesh::Sending;
use crate::device::mesh::MAX_PEERS;
use crate::device::node::Decoded;
use crate::device::node::Draw;
use crate::device::node::Handled;
use crate::device::node::Header;
use crate::device::node::Message;
use crate::device::node::Node;
use crate::device::node::NodeView;
use crate::device::node::ProgramInfo;
use crate::device::node::Step;
use crate::device::node::FRAME_US;
use crate::device::node::frame_start;
use crate::device::node::named;
use crate::device::node::push_told;
use crate::device::shell::hello_to;
use crate::device::shell::identity;
use crate::device::shell::is_hello;
use crate::device::shell::next_frame;
use crate::device::shell::sender_of;
use crate::device::shell::Cost;
use crate::device::shell::Report;
use crate::device::shell::Shell;
use crate::device::shell::ShellView;
use crate::device::shell::HELLO;
use crate::device::shell::HELLO_BACKOFF;
use crate::device::shell::HELLO_INTERVAL_US;
use crate::device::shell::LEDS;
use crate::device::shell::MESH_PREFIX;
use crate::device::shell::PORT;
use crate::device::shell::PREFIXED;
use crate::device::shell::REPORT_INTERVAL_US;
use crate::net::Endpoint;
use crate::net::EVERYONE;

verus! {

/// A frame that was drawn: the show time it was drawn for, and its fingerprint.
#[derive(Clone, Copy, PartialEq, Eq, Debug)]
pub struct Rendered {
    pub show_us: u64,
    pub digest: u64,
}

/// The whole of a device but for its input and output. Roles are the core's own.
pub struct Device<R> {
    shell: Shell,
    clock: ShowClock,
    peers: PeerTable,
    node: Node,
    role: R,
    synced: bool,
    program_bytes: usize,
    sources: usize,
    last_render: Option<Rendered>,
}

#[verifier::ext_equal]
pub struct DeviceView<R> {
    pub shell: ShellView,
    pub clock: ClockView,
    pub peers: Seq<Peer>,
    pub node: NodeView,
    pub role: R,
    pub synced: bool,
    /// Bytes of program and sources, when a frame was last due.
    pub program_bytes: nat,
    pub sources: nat,
    pub last_render: Option<Rendered>,
}

/// The start of a turn.
#[derive(Clone, Copy, PartialEq, Eq, Debug)]
pub struct Turn {
    /// The announcement to send and where to, if one is due.
    pub hello: Option<(Endpoint, [u8; 2])>,
    /// The show time of this turn.
    pub show_us: u64,
    /// Whether the core is to be woken.
    pub mesh_due: bool,
}

/// What a device reports.
#[derive(Clone, Copy, PartialEq, Eq, Debug)]
pub struct DeviceReport {
    pub shell: Report,
    pub program_bytes: usize,
    pub sources: usize,
    pub peers: usize,
    pub show_us: u64,
    pub synced: bool,
    pub pending_us: i64,
    /// The last frame drawn, and its place on the grid.
    pub last_render: Option<(u64, Rendered)>,
}

/// What a device says of itself: that it is here, and whether it holds a
/// program.
pub open spec fn hello_message(node: NodeView) -> Seq<u8> {
    seq![HELLO, if node.program_len > 0 { 1u8 } else { 0u8 }]
}

/// What a device sends at hardware time `raw_us` to make itself known, and
/// where to, if it is time for that.
pub open spec fn greeting(shell: ShellView, node: NodeView, raw_us: u64) -> Option<
    (Endpoint, Seq<u8>),
> {
    if raw_us >= shell.next_hello_us {
        Some((Endpoint { addr: EVERYONE, port: PORT }, hello_message(node)))
    } else {
        None
    }
}

/// The shell after a hello was due at `t`, or was not.
pub open spec fn greeted(shell: ShellView, t: u64) -> ShellView {
    if t < shell.next_hello_us {
        shell
    } else {
        ShellView {
            next_hello_us: (t + shell.hello_interval()) as u64,
            ..shell
        }
    }
}

impl<R> DeviceView<R> {
    pub open spec fn wf(self) -> bool {
        &&& self.shell.wf()
        &&& self.clock.wf()
        &&& self.node.wf()
        // There is one show clock, and the node takes its time from that.
        &&& self.node.clock_offset_us == 0
    }

    /// After a lease was granted at hardware time `raw_us`: the first frame is due
    /// at once, on the show clock.
    pub open spec fn leased(self, raw_us: u64) -> DeviceView<R> {
        let clock = self.clock.advanced(raw_us);
        DeviceView {
            clock,
            shell: ShellView {
                next_frame_us: Some(clock.now_us),
                next_report_us: (clock.now_us + REPORT_INTERVAL_US) as u64,
                ..self.shell
            },
            ..self
        }
    }

    /// The time to which the stack is advanced at `show_us`, if a frame is due.
    pub open spec fn advancing(self, show_us: u64) -> Option<u64> {
        if self.shell.frame_due(show_us) {
            Some(show_us)
        } else {
            None
        }
    }

    /// What to draw at `show_us`, if there is anything.
    pub open spec fn drawing(self, show_us: u64, parses: bool) -> Option<Draw> {
        if self.node.program_len == 0 || !parses || self.node.sources == 0 {
            None
        } else {
            Some(Draw { show_us, frame_us: frame_start(show_us) })
        }
    }

    /// After the start of a turn at hardware time `raw_us`.
    pub open spec fn turned(self, raw_us: u64) -> DeviceView<R> {
        DeviceView {
            shell: greeted(self.shell, raw_us),
            clock: self.clock.advanced(raw_us),
            ..self
        }
    }

    /// After the core asked for `actions` at show time `show_us`. If that takes
    /// the show clock back, nothing is due any later for it.
    pub open spec fn asked(self, actions: Seq<Action<R>>, show_us: u64) -> DeviceView<R> {
        DeviceView {
            shell: ShellView {
                mesh_deadline_us: waking(actions, show_us),
                ..self.shell
            }.taken_back(fallback(actions, self.clock)),
            clock: clock_after(actions, self.clock),
            role: role_after(actions, self.role),
            synced: synced_after(actions, self.synced),
            ..self
        }
    }

    /// After a datagram from `addr` arrived: another device's announcement is
    /// nothing, and of anything else the sender is remembered if it is named.
    pub open spec fn arrived(self, bytes: Seq<u8>, addr: [u8; 4]) -> DeviceView<R> {
        if is_hello(bytes) {
            self
        } else {
            DeviceView {
                shell: self.shell.heard(bytes),
                peers: if bytes.len() >= PREFIXED {
                    remembered(
                        self.peers,
                        MAX_PEERS as nat,
                        [bytes[6], bytes[7], bytes[8], bytes[9]],
                        addr,
                    )
                } else {
                    self.peers
                },
                ..self
            }
        }
    }

    /// After a datagram was decoded at show time `show_us`. The show clock does
    /// not come from a tick: it is the core that corrects it.
    pub open spec fn received(self, decoded: Decoded, show_us: u64) -> DeviceView<R> {
        DeviceView {
            node: NodeView { clock_offset_us: 0, ..self.node.after(decoded, show_us) },
            shell: ShellView {
                announced: self.shell.announced || (self.node.step(
                    decoded,
                    show_us,
                ) matches Step::Done(Handled::ProgramStarted { .. })),
                ..self.shell
            },
            ..self
        }
    }

    /// After a frame was due at `show_us`, or was not.
    pub open spec fn scheduled(self, show_us: u64) -> DeviceView<R> {
        if self.shell.frame_due(show_us) {
            DeviceView {
                shell: ShellView {
                    next_frame_us: Some(
                        next_frame(self.shell.next_frame_us.unwrap(), show_us) as u64,
                    ),
                    ..self.shell
                },
                ..self
            }
        } else {
            self
        }
    }

    /// After the stack was advanced, with `active` sources on it.
    pub open spec fn advanced(self, active: usize) -> DeviceView<R> {
        DeviceView {
            node: NodeView { sources: active as nat, rendering: active > 0, ..self.node },
            program_bytes: self.node.program_len,
            sources: active as nat,
            ..self
        }
    }

    pub open spec fn report(self, show_us: u64) -> DeviceReport {
        DeviceReport {
            shell: self.shell.report(),
            program_bytes: self.program_bytes as usize,
            sources: self.sources as usize,
            peers: self.peers.len() as usize,
            show_us,
            synced: self.synced,
            pending_us: self.clock.pending_us,
            last_render: match self.last_render {
                Some(r) => Some((r.show_us / FRAME_US, r)),
                None => None,
            },
        }
    }
}

impl<R> View for Device<R> {
    type V = DeviceView<R>;

    closed spec fn view(&self) -> DeviceView<R> {
        DeviceView {
            shell: self.shell@,
            clock: self.clock@,
            peers: self.peers@,
            node: self.node@,
            role: self.role,
            synced: self.synced,
            program_bytes: self.program_bytes as nat,
            sources: self.sources as nat,
            last_render: self.last_render,
        }
    }
}

impl<R: Copy> Device<R> {
    pub closed spec fn wf(&self) -> bool {
        self@.wf() && self.peers.limit() == MAX_PEERS
    }

    /// A device at hardware time `raw_us`, with nothing heard yet.
    pub fn new(raw_us: u64, mac: [u8; 6], role: R) -> (r: Device<R>)
        ensures
            r.wf(),
            r@.wf(),
            r@.shell == ShellView::fresh(),
            r@.clock == (ClockView { last_raw_us: raw_us, now_us: 0, pending_us: 0, carried: 0 }),
            r@.peers == Seq::<Peer>::empty(),
            exists|id: [u8; 16]|
                id@ == mac@ + seq![0u8, 0, 0, 0, 0, 0, 0, 0, 0, 0] && r@.node
                    == #[trigger] NodeView::fresh(MESH_PREFIX, id, LEDS as u16),
            r@.role == role,
            !r@.synced,
            r@.program_bytes == 0,
            r@.sources == 0,
            r@.last_render is None,
    {
        let id: [u8; 16] = identity(mac);
        let node: Node = Node::new(MESH_PREFIX, id, LEDS as u16);
        assert(node@ == NodeView::fresh(MESH_PREFIX, id, LEDS as u16));
        Device {
            shell: Shell::new(),
            clock: ShowClock::new(raw_us),
            peers: PeerTable::new(MAX_PEERS),
            node,
            role,
            synced: false,
            program_bytes: 0,
            sources: 0,
            last_render: None,
        }
    }

    pub fn node(&self) -> (r: &Node)
        ensures
            r@ == self@.node,
    {
        &self.node
    }

    pub fn clock(&self) -> (r: &ShowClock)
        ensures
            r@ == self@.clock,
    {
        &self.clock
    }

    pub fn shell(&self) -> (r: &Shell)
        ensures
            r@ == self@.shell,
    {
        &self.shell
    }

    pub fn role(&self) -> (r: R)
        ensures
            r == self@.role,
    {
        self.role
    }

    /// A lease was granted at hardware time `raw_us`. The first frame is due at
    /// once and the first report in a while, both on the show clock.
    pub fn lease(&mut self, raw_us: u64)
        requires
            old(self).wf(),
            old(self)@.clock.elapsed(raw_us) <= i64::MAX,
            old(self)@.clock.advanced(raw_us).now_us + REPORT_INTERVAL_US <= u64::MAX,
        ensures
            final(self).wf(),
            final(self)@ == old(self)@.leased(raw_us),
    {
        let show_us: u64 = self.clock.advance_to(raw_us);
        self.shell.lease(show_us);
        assert(self@ =~= old(self)@.leased(raw_us));
    }

    /// A turn begins at hardware time `raw_us`: say where we are, and advance the
    /// show clock, which is what applies any outstanding correction. Once per
    /// turn, before anything reads the time.
    pub fn turn(&mut self, raw_us: u64) -> (r: Turn)
        requires
            old(self).wf(),
            raw_us >= old(self)@.shell.next_hello_us ==> raw_us + old(self)@.shell.hello_interval()
                <= u64::MAX,
            old(self)@.clock.elapsed(raw_us) <= i64::MAX,
        ensures
            final(self).wf(),
            final(self)@ == old(self)@.turned(raw_us),
            r.hello is Some <==> raw_us >= old(self)@.shell.next_hello_us,
            r.hello matches Some((to, out)) ==> greeting(
                old(self)@.shell,
                old(self)@.node,
                raw_us,
            ) == Some((to, out@)),
            r.show_us == final(self)@.clock.now_us,
            r.mesh_due == (r.show_us >= old(self)@.shell.mesh_deadline_us),
    {
        let has_program: bool = self.node.program_bytes() > 0;
        let hello: Option<(Endpoint, [u8; 2])> = match self.shell.hello(raw_us, has_program) {
            Some(out) => Some((hello_to(), out)),
            None => None,
        };
        let show_us: u64 = self.clock.advance_to(raw_us);
        Turn { hello, show_us, mesh_due: self.shell.mesh_due(show_us) }
    }

    /// The core was woken at `show_us` and asked for `actions`. What to send.
    pub fn woken(&mut self, actions: &[Action<R>], show_us: u64) -> (r: Vec<Sending>)
        requires
            old(self).wf(),
        ensures
            final(self).wf(),
            final(self)@ == old(self)@.asked(actions@, show_us),
            r@ == sendings(actions@, old(self)@.peers, PORT),
    {
        let before: u64 = self.clock.now_us();
        let (at, out): (u64, Vec<Sending>) = apply_mesh(
            actions,
            show_us,
            self.peers.peers(),
            PORT,
            &mut self.clock,
            &mut self.role,
            &mut self.synced,
        );
        self.shell.set_mesh_deadline(at);
        self.shell.take_back(before.saturating_sub(self.clock.now_us()));
        assert(self@ =~= old(self)@.asked(actions@, show_us));
        out
    }

    /// The core was told of a datagram at `show_us` and asked for `actions`. If
    /// for nothing, its deadline stands.
    pub fn heard(&mut self, actions: &[Action<R>], show_us: u64) -> (r: Vec<Sending>)
        requires
            old(self).wf(),
        ensures
            final(self).wf(),
            final(self)@ == if actions@.len() > 0 {
                old(self)@.asked(actions@, show_us)
            } else {
                old(self)@
            },
            r@ == sendings(actions@, old(self)@.peers, PORT),
    {
        if actions.len() == 0 {
            return Vec::new();
        }
        self.woken(actions, show_us)
    }

    /// A datagram arrived from `addr`. Whether it is for this device.
    pub fn arrive(&mut self, bytes: &[u8], addr: [u8; 4]) -> (r: bool)
        requires
            old(self).wf(),
            !is_hello(bytes@) ==> old(self)@.shell.datagrams < u32::MAX,
        ensures
            final(self).wf(),
            r == !is_hello(bytes@),
            final(self)@ == old(self)@.arrived(bytes@, addr),
    {
        if !self.shell.on_datagram(bytes) {
            return false;
        }
        if let Some(prefix) = sender_of(bytes) {
            proof {
                let named: [u8; 4] = [bytes@[6], bytes@[7], bytes@[8], bytes@[9]];
                assert(prefix@ =~= named@);
                assert(prefix == named);
            }
            self.peers.remember(prefix, addr);
        }
        true
    }

    /// A datagram was decoded at show time `show_us`. What to do about it, on
    /// that clock.
    pub fn receive<'a>(&mut self, decoded: Decoded<'a>, show_us: u64) -> (r: Step<'a>)
        requires
            old(self).wf(),
        ensures
            final(self).wf(),
            final(self)@ == old(self)@.received(decoded, show_us),
            r == old(self)@.node.step(decoded, show_us),
    {
        let step: Step<'a> = self.node.receive(decoded, show_us);
        self.node.follow_the_clock();
        if let Step::Done(handled) = step {
            self.shell.note(handled);
        }
        assert(self@ =~= old(self)@.received(decoded, show_us));
        step
    }

    /// The program held was parsed, or could not be. The channels to declare.
    pub fn parsed(&mut self, info: Option<ProgramInfo>) -> (r: (Handled, Vec<u16>))
        requires
            old(self).wf(),
        ensures
            final(self).wf(),
            final(self)@ == (DeviceView {
                node: old(self)@.node.after_parse(info is Some),
                ..old(self)@
            }),
            r.0 == match info {
                Some(p) => Handled::ProgramComplete {
                    len: old(self)@.node.program_len as usize,
                    budget: p.budget,
                    channels: p.slots@.len() as usize,
                },
                None => Handled::ProgramRejected,
            },
            r.1@ == match info {
                Some(p) => named(p.slots@),
                None => Seq::<u16>::empty(),
            },
    {
        self.node.parsed(info)
    }

    /// A push was admitted or refused, and `active` sources are on the stack.
    pub fn pushed(&mut self, priority: u8, admitted: bool, active: usize) -> (r: Handled)
        requires
            old(self).wf(),
        ensures
            final(self).wf(),
            final(self)@ == (DeviceView {
                node: NodeView {
                    sources: active as nat,
                    rendering: admitted || old(self)@.node.rendering,
                    ..old(self)@.node
                },
                ..old(self)@
            }),
            r == if admitted {
                Handled::SourcePushed { priority }
            } else {
                Handled::SourceRejected
            },
            r == push_told(priority, admitted),
    {
        self.node.pushed(priority, admitted, active)
    }

    /// A source was popped, and `active` sources are on the stack.
    pub fn popped(&mut self, active: usize) -> (r: Handled)
        requires
            old(self).wf(),
        ensures
            final(self).wf(),
            final(self)@ == (DeviceView {
                node: NodeView { sources: active as nat, ..old(self)@.node },
                ..old(self)@
            }),
            r == Handled::SourcePopped,
    {
        self.node.popped(active)
    }

    /// Whether a frame is due at `show_us`, and if so the time to which the stack
    /// is to be advanced first.
    pub fn frame(&mut self, show_us: u64) -> (r: Option<u64>)
        requires
            old(self).wf(),
            old(self)@.shell.frame_due(show_us) ==> next_frame(
                old(self)@.shell.next_frame_us.unwrap(),
                show_us,
            ) <= u64::MAX,
        ensures
            final(self).wf(),
            final(self)@ == old(self)@.scheduled(show_us),
            r == old(self)@.advancing(show_us),
    {
        if self.shell.frame_due(show_us) {
            Some(show_us)
        } else {
            None
        }
    }

    /// The stack was advanced, and `active` sources are on it.
    pub fn advanced(&mut self, active: usize)
        requires
            old(self).wf(),
        ensures
            final(self).wf(),
            final(self)@ == old(self)@.advanced(active),
    {
        self.node.advanced(active);
        self.program_bytes = self.node.program_bytes();
        self.sources = active;
    }

    /// What to draw, if bytes are held, they parse as a program and there is a
    /// source. Otherwise what the strip shows is left alone.
    pub fn draw(&self, show_us: u64, parses: bool) -> (r: Option<Draw>)
        ensures
            r is None <==> self@.node.program_len == 0 || !parses || self@.node.sources == 0,
            r == self@.drawing(show_us, parses),
    {
        self.node.render_at(show_us, parses)
    }

    /// A frame was drawn.
    pub fn drew(&mut self, cost: Cost, rendered: Rendered)
        requires
            old(self).wf(),
            old(self)@.shell.frames < u32::MAX,
            old(self)@.shell.spent + cost.spent <= u64::MAX,
            old(self)@.shell.render_us + cost.render_us <= u64::MAX,
            old(self)@.shell.out_us + cost.out_us <= u64::MAX,
        ensures
            final(self).wf(),
            final(self)@ == (DeviceView {
                shell: old(self)@.shell.drew(cost),
                last_render: Some(rendered),
                ..old(self)@
            }),
    {
        self.shell.drew(cost);
        self.last_render = Some(rendered);
    }

    /// The report at `show_us`, if one is due.
    pub fn report(&mut self, show_us: u64) -> (r: Option<DeviceReport>)
        requires
            old(self).wf(),
            show_us >= old(self)@.shell.next_report_us ==> show_us + REPORT_INTERVAL_US
                <= u64::MAX,
        ensures
            final(self).wf(),
            r == if show_us >= old(self)@.shell.next_report_us {
                Some(old(self)@.report(show_us))
            } else {
                None
            },
            final(self)@ == if show_us >= old(self)@.shell.next_report_us {
                DeviceView { shell: old(self)@.shell.reported(show_us), ..old(self)@ }
            } else {
                old(self)@
            },
    {
        match self.shell.report(show_us) {
            Some(shell) => {
                let last_render: Option<(u64, Rendered)> = match self.last_render {
                    Some(r) => Some((r.show_us / FRAME_US, r)),
                    None => None,
                };
                Some(
                    DeviceReport {
                        shell,
                        program_bytes: self.program_bytes,
                        sources: self.sources,
                        peers: self.peers.len(),
                        show_us,
                        synced: self.synced,
                        pending_us: self.clock.pending_us(),
                        last_render,
                    },
                )
            },
            None => None,
        }
    }
}

/// While a device only corrects drift, its show clock never goes backwards.
pub proof fn a_device_never_goes_back_in_time<R>(
    device: DeviceView<R>,
    raw_us: u64,
    actions: Seq<Action<R>>,
    show_us: u64,
)
    requires
        device.wf(),
    ensures
        device.turned(raw_us).clock.now_us >= device.clock.now_us,
        only_drifts(actions, device.clock) ==> device.asked(actions, show_us).clock.now_us
            == device.clock.now_us,
{
    if only_drifts(actions, device.clock) {
        correcting_drift_moves_nothing(actions, device.clock);
    }
}

/// Every device of a mesh draws the same frame at the same moment: two show times
/// in one frame of the grid are drawn as the start of that frame, whichever
/// devices read them and whatever else is different about those.
pub proof fn devices_on_one_time_draw_one_frame<R, S>(
    a: DeviceView<R>,
    b: DeviceView<S>,
    t: u64,
    u: u64,
)
    requires
        t / FRAME_US == u / FRAME_US,
        a.drawing(t, true) is Some,
        b.drawing(u, true) is Some,
    ensures
        a.drawing(t, true).unwrap().frame_us == b.drawing(u, true).unwrap().frame_us,
        a.drawing(t, true).unwrap().frame_us == t / FRAME_US * FRAME_US,
{
}

/// What a tick says changes nothing about a device, and so nothing that it draws.
pub proof fn a_tick_changes_nothing<R>(device: DeviceView<R>, header: Header, show_us: u64)
    requires
        device.wf(),
    ensures
        device.received(
            Decoded::Datagram { header, message: Some(Message::Tick) },
            show_us,
        ) == device,
{
    assert(device.received(
        Decoded::Datagram { header, message: Some(Message::Tick) },
        show_us,
    ) =~= device);
}

/// A device that has just joined a show draws the frame that the show is at.
pub proof fn a_device_that_joins_draws_the_frame_of_the_show<R>(
    device: DeviceView<R>,
    other_us: u64,
    offset_us: i64,
    show_us: u64,
)
    requires
        device.clock.pending_us == 0,
        offset_us == other_us - device.clock.now_us,
        offset_us > STEP_ABOVE_US || offset_us < -STEP_ABOVE_US,
        device.drawing(show_us, true) is Some,
    ensures
        ({
            let after = device.asked(seq![Action::<R>::DisciplineClock { offset_us }], show_us);
            &&& after.clock.now_us == other_us
            &&& after.drawing(after.clock.now_us, true) == Some(
                Draw { show_us: other_us, frame_us: frame_start(other_us) },
            )
        }),
{
    a_join_agrees_in_either_order::<R>(device.clock, other_us, offset_us);
}

/// Sources expire at the same instant on every device: at one show time, all that
/// draw then advance their stacks to exactly that time.
pub proof fn sources_expire_at_one_instant<R, S>(a: DeviceView<R>, b: DeviceView<S>, t: u64)
    requires
        a.shell.frame_due(t),
        b.shell.frame_due(t),
    ensures
        a.advancing(t) == Some(t),
        b.advancing(t) == a.advancing(t),
{
}

/// A source expires when its push says, whenever a device heard of it, and is
/// stamped on the show clock.
pub proof fn a_push_is_on_the_show_clock<R>(
    device: DeviceView<R>,
    header: Header,
    source_id: [u8; 16],
    scene_id: [u8; 16],
    priority: u8,
    expires_at: Option<u64>,
    fade_in_ms: u32,
    fade_out_ms: u32,
    show_us: u64,
)
    requires
        device.wf(),
        header.mesh_prefix == device.node.mesh_prefix,
    ensures
        ({
            let push = Message::SrcPush {
                source_id,
                scene_id,
                priority,
                expires_at,
                fade_in_ms,
                fade_out_ms,
            };
            device.node.step(
                Decoded::Datagram { header, message: Some(push) },
                show_us,
            ) matches Step::Push { now_us, source } && {
                &&& now_us == show_us
                &&& source.pushed_at_us == show_us
                &&& source.expires_at_us == expires_at
            }
        }),
{
}

/// A lease makes the first frame due on the show clock at once, whatever the
/// hardware clock reads: a device is never dark for having started late.
pub proof fn the_first_frame_is_due_at_once<R>(device: DeviceView<R>, raw_us: u64, show_us: u64)
    requires
        show_us >= device.clock.advanced(raw_us).now_us,
    ensures
        device.leased(raw_us).shell.frame_due(show_us),
        device.leased(raw_us).advancing(show_us) == Some(show_us),
{
}

/// A device that is taken back in time goes on as before: its next frame, its
/// next report and its core's next waking are no further off than they were.
pub proof fn going_back_in_time_delays_nothing<R>(
    device: DeviceView<R>,
    actions: Seq<Action<R>>,
    show_us: u64,
)
    ensures
        ({
            let after = device.asked(actions, show_us);
            let now = device.clock.now_us;
            &&& after.shell.mesh_deadline_us - after.clock.now_us <= if waking(actions, show_us)
                >= now {
                waking(actions, show_us) - now
            } else {
                0
            }
            &&& after.shell.next_report_us - after.clock.now_us <= if device.shell.next_report_us
                >= now {
                device.shell.next_report_us - now
            } else {
                0
            }
            &&& device.shell.next_frame_us matches Some(at) ==> after.shell.next_frame_us.unwrap()
                - after.clock.now_us <= if at >= now {
                at - now
            } else {
                0
            }
        }),
{
}

/// A device speaks up once a second until it is found, and every five after
/// that; it never goes quiet.
pub proof fn a_device_never_goes_quiet(shell: ShellView, t: u64)
    requires
        t + HELLO_INTERVAL_US * HELLO_BACKOFF <= u64::MAX,
        shell.next_hello_us <= t + HELLO_INTERVAL_US * HELLO_BACKOFF,
    ensures
        greeted(shell, t).next_hello_us <= t + HELLO_INTERVAL_US * HELLO_BACKOFF,
        t >= shell.next_hello_us && !shell.announced ==> greeted(shell, t).next_hello_us == t
            + HELLO_INTERVAL_US,
{
}

/// What can happen to a device.
pub enum Happening<'a, R> {
    Turn { raw_us: u64 },
    Lease { raw_us: u64 },
    Asked { actions: Seq<Action<R>>, show_us: u64 },
    Arrived { bytes: Seq<u8>, addr: [u8; 4] },
    Received { decoded: Decoded<'a>, show_us: u64 },
    Parsed { good: bool },
    Pushed { admitted: bool, active: usize },
    Popped { active: usize },
    Frame { show_us: u64 },
    Advanced { active: usize },
    Drew { cost: Cost, rendered: Rendered },
    Report { show_us: u64 },
}

impl<R> DeviceView<R> {
    pub open spec fn after(self, happening: Happening<R>) -> DeviceView<R> {
        match happening {
            Happening::Turn { raw_us } => self.turned(raw_us),
            Happening::Lease { raw_us } => self.leased(raw_us),
            Happening::Asked { actions, show_us } => self.asked(actions, show_us),
            Happening::Arrived { bytes, addr } => self.arrived(bytes, addr),
            Happening::Received { decoded, show_us } => self.received(decoded, show_us),
            Happening::Parsed { good } => DeviceView { node: self.node.after_parse(good), ..self },
            Happening::Pushed { admitted, active } => DeviceView {
                node: self.node.after_push(admitted, active as nat),
                ..self
            },
            Happening::Popped { active } => DeviceView {
                node: self.node.after_pop(active as nat),
                ..self
            },
            Happening::Frame { show_us } => self.scheduled(show_us),
            Happening::Advanced { active } => self.advanced(active),
            Happening::Drew { cost, rendered } => DeviceView {
                shell: self.shell.drew(cost),
                last_render: Some(rendered),
                ..self
            },
            Happening::Report { show_us } => if show_us >= self.shell.next_report_us {
                DeviceView { shell: self.shell.reported(show_us), ..self }
            } else {
                self
            },
        }
    }

    /// Before happening `k` of a run.
    pub open spec fn before(self, run: Seq<Happening<R>>, k: int) -> DeviceView<R>
        decreases k,
    {
        if k <= 0 {
            self
        } else {
            self.before(run, k - 1).after(run[k - 1])
        }
    }

    /// What happening `k` of a run makes the device say of itself, and to whom.
    pub open spec fn says(self, run: Seq<Happening<R>>, k: int) -> Option<(Endpoint, Seq<u8>)> {
        match run[k] {
            Happening::Turn { raw_us } => greeting(
                self.before(run, k).shell,
                self.before(run, k).node,
                raw_us,
            ),
            _ => None,
        }
    }

    /// Whether happening `k` of a run is a turn at which the device says hello.
    pub open spec fn greets(self, run: Seq<Happening<R>>, k: int) -> bool {
        self.says(run, k) is Some
    }

    /// Whether happening `k` of a run begins a program.
    pub open spec fn is_found(self, run: Seq<Happening<R>>, k: int) -> bool {
        run[k] matches Happening::Received { decoded, show_us } && (self.before(run, k).node.step(
            decoded,
            show_us,
        ) matches Step::Done(Handled::ProgramStarted { .. }))
    }
}

proof fn only_a_hello_schedules_the_next<R>(
    device: DeviceView<R>,
    run: Seq<Happening<R>>,
    from: int,
    to: int,
)
    requires
        0 <= from <= to <= run.len(),
        forall|m: int| from <= m < to ==> !#[trigger] device.greets(run, m),
    ensures
        device.before(run, to).shell.next_hello_us == device.before(run, from).shell.next_hello_us,
    decreases to - from,
{
    if from < to {
        only_a_hello_schedules_the_next(device, run, from, to - 1);
        assert(!device.greets(run, to - 1));
    }
}

proof fn a_device_that_was_found_stays_found<R>(
    device: DeviceView<R>,
    run: Seq<Happening<R>>,
    k: int,
)
    requires
        0 <= k <= run.len(),
    ensures
        device.before(run, k).shell.announced <==> device.shell.announced || exists|m: int|
            0 <= m < k && #[trigger] device.is_found(run, m),
    decreases k,
{
    if k > 0 {
        a_device_that_was_found_stays_found(device, run, k - 1);
        assert(device.before(run, k).shell.announced <==> device.before(run, k - 1).shell.announced
            || device.is_found(run, k - 1));
    }
}

/// The first turn of a device says hello.
pub proof fn the_first_turn_says_hello<R>(device: DeviceView<R>, run: Seq<Happening<R>>, k: int)
    requires
        device.shell.next_hello_us == 0,
        0 <= k < run.len(),
        run[k] is Turn,
        forall|m: int| 0 <= m < k ==> !((#[trigger] run[m]) is Turn),
    ensures
        device.greets(run, k),
{
    assert forall|m: int| 0 <= m < k implies !#[trigger] device.greets(run, m) by {
        assert(!(run[m] is Turn));
    }
    only_a_hello_schedules_the_next(device, run, 0, k);
}

/// Every hello goes to everyone and is two bytes: the mark, and whether the
/// device holds a program at that moment.
pub proof fn a_hello_says_whether_there_is_a_program<R>(
    device: DeviceView<R>,
    run: Seq<Happening<R>>,
    k: int,
)
    requires
        0 <= k < run.len(),
        device.greets(run, k),
    ensures
        device.says(run, k) == Some(
            (
                Endpoint { addr: [255, 255, 255, 255], port: 6354 },
                seq![
                    0xA5u8,
                    if device.before(run, k).node.program_len > 0 { 1u8 } else { 0u8 },
                ],
            ),
        ),
{
}

/// Hellos never stop, whatever else happens: after one at `t`, the next is said
/// at the first turn a second later, or five seconds later if a program had begun
/// to arrive before `t`, and not before.
pub proof fn hellos_never_stop<R>(
    device: DeviceView<R>,
    run: Seq<Happening<R>>,
    k: int,
    t: u64,
    j: int,
    u: u64,
)
    requires
        0 <= k < j < run.len(),
        run[k] matches Happening::Turn { raw_us } && raw_us == t,
        run[j] matches Happening::Turn { raw_us } && raw_us == u,
        device.greets(run, k),
        forall|m: int| k < m < j ==> !#[trigger] device.greets(run, m),
        t + HELLO_INTERVAL_US * HELLO_BACKOFF <= u64::MAX,
    ensures
        device.greets(run, j) <==> u >= t + if device.shell.announced || (exists|m: int|
            0 <= m < k && #[trigger] device.is_found(run, m)) {
            HELLO_INTERVAL_US * HELLO_BACKOFF
        } else {
            HELLO_INTERVAL_US as int
        },
{
    a_device_that_was_found_stays_found(device, run, k);
    only_a_hello_schedules_the_next(device, run, k + 1, j);
    assert(device.before(run, k + 1) == device.before(run, k).turned(t));
}

/// A device remembers who it hears from, by the prefix in the datagram and at the
/// address it came from, and counts it. An announcement is nothing to it, and
/// nothing but the table and the counts changes.
pub proof fn a_device_remembers_who_it_hears_from<R>(
    device: DeviceView<R>,
    bytes: Seq<u8>,
    addr: [u8; 4],
)
    requires
        distinct(device.peers),
    ensures
        ({
            let after = device.arrived(bytes, addr);
            let known = (bytes.len() == 1 || bytes.len() == 2) && bytes[0] == 0xA5;
            &&& known ==> after == device
            &&& !known ==> after.shell.datagrams == device.shell.datagrams + 1
            &&& bytes.len() >= 10 ==> exists|prefix: [u8; 4]|
                prefix@ == bytes.subrange(6, 10) && #[trigger] address(after.peers, prefix) == Some(
                    addr,
                )
            &&& bytes.len() < 10 ==> after.peers == device.peers
            &&& device.peers.len() <= 8 ==> after.peers.len() <= 8
            &&& distinct(after.peers)
            &&& after == (DeviceView { shell: after.shell, peers: after.peers, ..device })
        }),
{
    if bytes.len() >= 10 {
        let prefix: [u8; 4] = [bytes[6], bytes[7], bytes[8], bytes[9]];
        assert(prefix@ =~= bytes.subrange(6, 10));
        a_peer_is_found_where_it_was_heard(device.peers, 8, prefix, addr);
        assert(address(device.arrived(bytes, addr).peers, prefix) == Some(addr));
    }
}

/// What the core asks for reaches the clock, the role and whether the show clock is
/// held, and the waking; a device's program, its sources and its peers do not depend
/// on it.
pub proof fn the_core_governs_the_clock_alone<R>(
    device: DeviceView<R>,
    actions: Seq<Action<R>>,
    show_us: u64,
)
    ensures
        ({
            let after = device.asked(actions, show_us);
            &&& after.clock == clock_after(actions, device.clock)
            &&& after.role == role_after(actions, device.role)
            &&& after.synced == synced_after(actions, device.synced)
            &&& after.clock.now_us >= device.clock.now_us ==> after.shell.mesh_deadline_us
                == waking(actions, show_us) && after.shell.next_frame_us
                == device.shell.next_frame_us && after.shell.next_report_us
                == device.shell.next_report_us
            &&& after == (DeviceView {
                shell: after.shell,
                clock: after.clock,
                role: after.role,
                synced: after.synced,
                ..device
            })
            &&& after.shell == (ShellView {
                mesh_deadline_us: after.shell.mesh_deadline_us,
                next_frame_us: after.shell.next_frame_us,
                next_report_us: after.shell.next_report_us,
                ..device.shell
            })
        }),
{
    let after = device.asked(actions, show_us);
    assert(fallback(actions, device.clock) == 0 ==> after.shell.next_frame_us
        == device.shell.next_frame_us);
}

/// A report says of the device what is so: the program and the sources as the last
/// frame found them, the peers known, the time, whether it is held and what is
/// outstanding, and the last frame drawn with its place on the grid.
pub proof fn a_report_says_what_is_so<R>(device: DeviceView<R>, show_us: u64, active: usize)
    requires
        device.node.program_len <= usize::MAX,
        device.peers.len() <= usize::MAX,
    ensures
        ({
            let after = device.advanced(active);
            let report = after.report(show_us);
            &&& report.program_bytes == device.node.program_len
            &&& report.sources == active
            &&& report.peers == device.peers.len()
            &&& report.show_us == show_us
            &&& report.synced == device.synced
            &&& report.pending_us == device.clock.pending_us
            &&& report.last_render is Some <==> device.last_render is Some
            &&& report.last_render matches Some((index, rendered)) ==> {
                &&& device.last_render == Some(rendered)
                &&& index * 33_333 <= rendered.show_us < (index + 1) * 33_333
            }
            &&& report.shell == device.shell.report()
            &&& after.node.sources == active
            &&& after.node.rendering <==> active > 0
            &&& after.node.held() == device.node.held()
        }),
{
}

/// A lease sets the first frame for now and the first report in five seconds, both
/// on the show clock, and changes nothing else but that clock.
pub proof fn a_lease_sets_the_first_frame_and_report<R>(device: DeviceView<R>, raw_us: u64)
    requires
        device.clock.advanced(raw_us).now_us + 5_000_000 <= u64::MAX,
    ensures
        ({
            let after = device.leased(raw_us);
            let now = after.clock.now_us;
            &&& after.clock == device.clock.advanced(raw_us)
            &&& after.shell.next_frame_us == Some(now)
            &&& after.shell.next_report_us == now + 5_000_000
            &&& after == (DeviceView { shell: after.shell, clock: after.clock, ..device })
            &&& after.shell == (ShellView {
                next_frame_us: after.shell.next_frame_us,
                next_report_us: after.shell.next_report_us,
                ..device.shell
            })
        }),
{
}

/// A device has something to draw exactly if it holds a program that parses and has
/// a source: the time asked about, and the frame of the grid that it falls in. A
/// frame that is due schedules the next, and one that is not changes nothing.
pub proof fn a_device_draws_on_the_grid<R>(device: DeviceView<R>, show_us: u64, parses: bool)
    ensures
        device.drawing(show_us, parses) is Some <==> device.node.program_len > 0 && parses
            && device.node.sources > 0,
        device.drawing(show_us, parses) matches Some(draw) ==> {
            &&& draw.show_us == show_us
            &&& draw.frame_us <= show_us < draw.frame_us + 33_333
            &&& draw.frame_us as int % 33_333 == 0
        },
        device.advancing(show_us) is Some <==> (device.shell.next_frame_us matches Some(at)
            && show_us >= at),
        device.advancing(show_us) is None ==> device.scheduled(show_us) == device,
        device.advancing(show_us) is Some ==> {
            let at = device.shell.next_frame_us.unwrap();
            let next = if show_us > at + 33_333 {
                show_us + 33_333
            } else {
                at + 33_333
            };
            &&& next <= u64::MAX ==> device.scheduled(show_us).shell.next_frame_us == Some(
                next as u64,
            )
            &&& device.scheduled(show_us) == (DeviceView {
                shell: ShellView {
                    next_frame_us: device.scheduled(show_us).shell.next_frame_us,
                    ..device.shell
                },
                ..device
            })
        },
{
}

/// The start of a turn advances the show clock, and schedules the next hello if one
/// was due; nothing else changes.
pub proof fn a_turn_advances_the_clock<R>(device: DeviceView<R>, raw_us: u64)
    requires
        raw_us + 5_000_000 <= u64::MAX,
    ensures
        ({
            let after = device.turned(raw_us);
            &&& after.clock == device.clock.advanced(raw_us)
            &&& raw_us < device.shell.next_hello_us ==> after.shell == device.shell
            &&& raw_us >= device.shell.next_hello_us ==> after.shell == (ShellView {
                next_hello_us: (raw_us + if device.shell.announced {
                    5_000_000int
                } else {
                    1_000_000int
                }) as u64,
                ..device.shell
            })
            &&& after == (DeviceView { shell: after.shell, clock: after.clock, ..device })
        }),
{
}

/// A device takes a datagram as its node does, except that its clock is its own; it
/// has been found once a program begins to arrive.
pub proof fn a_device_takes_what_its_node_takes<R>(
    device: DeviceView<R>,
    decoded: Decoded,
    show_us: u64,
)
    requires
        device.wf(),
    ensures
        ({
            let after = device.received(decoded, show_us);
            let node = device.node.after(decoded, show_us);
            &&& after.node.held() == node.held()
            &&& after.node.receiving == node.receiving
            &&& after.node.expected_len == node.expected_len
            &&& after.node.present == node.present
            &&& after.node.clock_offset_us == 0
            &&& after.node.sources == device.node.sources
            &&& after.shell.announced <==> device.shell.announced || (decoded matches Decoded::Datagram {
                header,
                message: Some(Message::ProgBegin { total_len }),
            } && header.mesh_prefix == device.node.mesh_prefix && total_len <= 4_096)
            &&& after.shell == (ShellView { announced: after.shell.announced, ..device.shell })
            &&& after == (DeviceView { shell: after.shell, node: after.node, ..device })
        }),
{
}

/// A device knows where eight peers live before it forgets any, and then forgets the
/// one it has known longest, and no other, for one it did not know.
pub proof fn a_device_knows_eight_peers_before_it_forgets_one<R>(
    device: DeviceView<R>,
    bytes: Seq<u8>,
    addr: [u8; 4],
    other: [u8; 4],
)
    requires
        distinct(device.peers),
        address(device.peers, other) is Some,
        bytes.len() >= 10 ==> bytes.subrange(6, 10) != other@,
    ensures
        ({
            let after = device.arrived(bytes, addr);
            &&& device.peers.len() < 8 ==> address(after.peers, other) == address(
                device.peers,
                other,
            )
            &&& device.peers[0].prefix != other ==> address(after.peers, other) == address(
                device.peers,
                other,
            )
        }),
{
    if bytes.len() >= 10 {
        let prefix: [u8; 4] = [bytes[6], bytes[7], bytes[8], bytes[9]];
        assert(prefix@ =~= bytes.subrange(6, 10));
        only_the_oldest_is_forgotten(device.peers, 8, prefix, addr, other);
    }
}

} // verus!
