use lumen_dev::device::clock::ShowClock;
use lumen_dev::device::device_loop::Device;
use lumen_dev::device::device_loop::Rendered;
use lumen_dev::device::mesh::apply_mesh;
use lumen_dev::device::mesh::Action;
use lumen_dev::device::mesh::Destination;
use lumen_dev::device::mesh::Peer;
use lumen_dev::device::mesh::PeerTable;
use lumen_dev::device::mesh::MAX_PEERS;
use lumen_dev::device::node::Decoded;
use lumen_dev::device::node::Handled;
use lumen_dev::device::node::Header;
use lumen_dev::device::node::Message;
use lumen_dev::device::node::ProgramInfo;
use lumen_dev::device::node::Step;
use lumen_dev::device::shell::hello_to;
use lumen_dev::device::shell::identity;
use lumen_dev::device::shell::sender_of;
use lumen_dev::device::shell::Activity;
use lumen_dev::device::shell::Cost;
use lumen_dev::device::shell::Shell;
use lumen_dev::net::Endpoint;

#[derive(Clone, Copy, PartialEq, Eq, Debug)]
enum Role {
    Follower,
    Leader,
}

fn wake(actions: &[Action<Role>], now: u64) -> u64 {
    let mut clock = ShowClock::new(0);
    let mut role = Role::Follower;
    let mut synced = false;
    apply_mesh(actions, now, &[], 6354, &mut clock, &mut role, &mut synced).0
}

#[test]
fn the_earliest_timer_counts_and_never_spins() {
    assert_eq!(
        wake(&[Action::SetTimer { in_us: 10_000 }, Action::SetTimer { in_us: 1_000_000 }], 5),
        10_005
    );
    assert_eq!(wake(&[Action::SetTimer { in_us: 0 }], 5), 1_005);
    assert_eq!(wake(&[], 5), 1_005);
    assert_eq!(wake(&[Action::SetTimer { in_us: u64::MAX }], 5), 1_005);
    assert_eq!(wake(&[], u64::MAX), u64::MAX);
}

#[test]
fn actions_are_carried_out_in_order() {
    let peers = [
        Peer { prefix: [1; 4], addr: [10, 0, 0, 1] },
        Peer { prefix: [2; 4], addr: [10, 0, 0, 2] },
    ];
    let mut clock = ShowClock::new(0);
    let mut role = Role::Follower;
    let mut synced = true;
    let (_, sends) = apply_mesh(
        &[
            Action::Send { to: Destination::Peer([2; 4]) },
            Action::RoleChanged { role: Role::Leader },
            Action::Send { to: Destination::Mesh },
            Action::SyncLost,
            Action::DisciplineClock { offset_us: 250 },
            Action::Send { to: Destination::Peer([3; 4]) },
            Action::SyncAcquired,
            Action::SyncLost,
        ],
        0,
        &peers,
        6354,
        &mut clock,
        &mut role,
        &mut synced,
    );
    let to: Vec<(usize, [u8; 4])> = sends.iter().map(|s| (s.action, s.to.addr)).collect();
    assert_eq!(
        to,
        vec![
            (0, [10, 0, 0, 2]),
            (2, [255; 4]),
            (2, [10, 0, 0, 1]),
            (2, [10, 0, 0, 2])
        ]
    );
    assert!(sends.iter().all(|s| s.to.port == 6354));
    assert_eq!(role, Role::Leader);
    assert!(!synced);
    assert_eq!(clock.pending_us(), 250);
}

#[test]
fn a_join_offset_is_applied_at_once() {
    let mut clock = ShowClock::new(0);
    let mut role = Role::Follower;
    let mut synced = false;
    let join = [Action::DisciplineClock { offset_us: 4_565_361 }];
    apply_mesh(&join, 0, &[], 6354, &mut clock, &mut role, &mut synced);
    assert_eq!(clock.now_us(), 4_565_361);
    assert_eq!(clock.pending_us(), 0);
}

#[test]
fn a_device_that_was_on_first_takes_the_time_of_the_one_it_follows() {
    let mut clock = ShowClock::new(0);
    clock.advance_to(5_000_000);
    let mut role = Role::Follower;
    let mut synced = false;
    let join = [Action::DisciplineClock { offset_us: -4_000_000 }, Action::SyncAcquired];
    apply_mesh(&join, 5_000_000, &[], 6354, &mut clock, &mut role, &mut synced);
    assert_eq!(clock.now_us(), 1_000_000);
    assert_eq!(clock.pending_us(), 0);
    assert!(synced);
}

/// A device with a program and a source, at show time ten seconds.
fn drawing(started: u64) -> Device<Role> {
    let mut d = Device::new(started, [9; 6], Role::Follower);
    d.lease(started);
    d.receive(said(Message::ProgBegin { total_len: 2 }), 0);
    d.receive(said(Message::ProgChunk { offset: 0, data: &[5, 6] }), 0);
    assert_eq!(d.receive(said(Message::ProgEnd), 0), Step::Parse);
    d.parsed(Some(ProgramInfo { budget: 1, slots: vec![] }));
    d.pushed(100, true, 1);
    assert_eq!(d.turn(started + 10_000_000).show_us, 10_000_000);
    d
}

#[test]
fn every_device_draws_the_same_frame_whatever_it_heard() {
    let mut a = drawing(15_000_000);
    let b = drawing(3);
    let before = a.draw(10_000_000, true).unwrap();
    assert_eq!(before.frame_us, 9_999_900);
    let tick = Decoded::Datagram {
        header: Header { show_time_us: 10_000_000, ..header() },
        message: Some(Message::Tick),
    };
    a.receive(tick, 10_000_000);
    let wild = Decoded::Datagram {
        header: Header { show_time_us: 77_000_000, ..header() },
        message: Some(Message::Tick),
    };
    a.receive(wild, 10_000_000);
    assert_eq!(a.draw(10_000_000, true), Some(before));
    // Elsewhere in the same frame, on another device.
    assert_eq!(b.draw(10_020_000, true).unwrap().frame_us, before.frame_us);
    // The stack is advanced to the show time, and a push is stamped with it.
    assert_eq!(a.frame(10_000_000), Some(10_000_000));
    let push = Message::SrcPush {
        source_id: [7; 16],
        scene_id: [8; 16],
        priority: 100,
        expires_at: Some(99),
        fade_in_ms: 500,
        fade_out_ms: 400,
    };
    let Step::Push { now_us, source } = a.receive(said(push), 10_000_000) else {
        panic!("a push is carried out");
    };
    assert_eq!((now_us, source.pushed_at_us), (10_000_000, 10_000_000));
    assert_eq!(source.expires_at_us, Some(99));
}

#[test]
fn a_device_leased_late_is_not_dark() {
    let mut d = Device::new(15_000_000, [9; 6], Role::Follower);
    d.lease(15_000_000);
    assert_eq!(d.frame(33_333), Some(33_333));
    let mut d = Device::new(0, [9; 6], Role::Follower);
    d.lease(15_000_000);
    let t = d.turn(15_000_010);
    assert_eq!(d.frame(t.show_us), Some(15_000_010));
    let t = d.turn(19_999_999);
    assert!(d.report(t.show_us).is_none());
    let t = d.turn(20_000_000);
    assert!(d.report(t.show_us).is_some());
}

#[test]
fn going_back_in_time_delays_nothing() {
    let mut d = Device::new(0, [9; 6], Role::Follower);
    d.lease(60_000_000);
    let t = d.turn(60_000_000);
    assert_eq!(d.frame(t.show_us), Some(60_000_000));
    let back = [
        Action::DisciplineClock { offset_us: -50_000_000 },
        Action::SetTimer { in_us: 20_000 },
    ];
    d.woken(&back, t.show_us);
    assert_eq!(d.clock().now_us(), 10_000_000);
    // The core, the frame and the report are as far off as they were.
    let t = d.turn(60_019_999);
    assert_eq!(t.show_us, 10_019_999);
    assert!(!t.mesh_due);
    let t = d.turn(60_020_000);
    assert!(t.mesh_due);
    let t = d.turn(60_033_332);
    assert_eq!(d.frame(t.show_us), None);
    let t = d.turn(60_033_333);
    assert_eq!(d.frame(t.show_us), Some(10_033_333));
    let t = d.turn(64_999_999);
    assert!(d.report(t.show_us).is_none());
    let t = d.turn(65_000_000);
    assert!(d.report(t.show_us).is_some());
}

#[test]
fn peers_move_and_the_oldest_is_forgotten() {
    let mut t = PeerTable::new(MAX_PEERS);
    for i in 0..8u8 {
        t.remember([i; 4], [10, 0, 0, i]);
    }
    t.remember([3; 4], [10, 0, 1, 3]);
    assert_eq!(t.len(), 8);
    assert_eq!(t.address([3; 4]), Some([10, 0, 1, 3]));
    t.remember([8; 4], [10, 0, 0, 8]);
    assert_eq!(t.len(), 8);
    assert_eq!(t.address([0; 4]), None);
    assert_eq!(t.address([1; 4]), Some([10, 0, 0, 1]));
    t.remember([9; 4], [10, 0, 0, 9]);
    assert_eq!(t.address([1; 4]), None);
    assert_eq!(t.address([2; 4]), Some([10, 0, 0, 2]));
    assert_eq!(t.address([8; 4]), Some([10, 0, 0, 8]));
    assert_eq!(t.peers()[7], Peer { prefix: [9; 4], addr: [10, 0, 0, 9] });
    let mut any = PeerTable::new(0);
    for i in 0..20u8 {
        any.remember([i; 4], [10, 0, 0, i]);
    }
    assert_eq!(any.len(), 20);
}

#[test]
fn an_identity_is_the_mac() {
    let id = identity([1, 2, 3, 4, 5, 6]);
    assert_eq!(id, [1, 2, 3, 4, 5, 6, 0, 0, 0, 0, 0, 0, 0, 0, 0, 0]);
    assert_eq!(sender_of(&[0; 9]), None);
    assert_eq!(sender_of(&[0, 1, 2, 3, 4, 5, 6, 7, 8, 9]), Some([6, 7, 8, 9]));
}

#[test]
fn a_shell_backs_off_and_never_stops() {
    let mut s = Shell::new();
    assert_eq!(s.hello(0, false), Some([0xA5, 0]));
    assert_eq!(s.hello(999_999, false), None);
    assert_eq!(s.hello(1_000_000, true), Some([0xA5, 1]));
    s.note(Handled::Ignored);
    s.note(Handled::ProgramStarted { len: 3 });
    assert_eq!(s.hello(2_000_000, true), Some([0xA5, 1]));
    assert_eq!(s.hello(6_999_999, true), None);
    assert!(s.hello(7_000_000, true).is_some());
}

#[test]
fn a_shell_counts_what_arrives() {
    let mut s = Shell::new();
    s.lease(0);
    assert!(!s.on_datagram(&[0xA5]));
    assert!(!s.on_datagram(&[0xA5, 1]));
    assert!(s.on_datagram(&[0xA5, 1, 2]));
    assert!(s.on_datagram(&[]));
    for kind in [0x10, 0x10, 0x11, 0x12, 0x13] {
        assert!(s.on_datagram(&[0, 0, kind, 0, 0, 0, 0, 0, 0, 0]));
    }
    // Too short to have a type.
    assert!(s.on_datagram(&[0, 0, 0x10, 0, 0, 0, 0, 0, 0]));
    assert_eq!(s.datagrams(), 8);
    assert!(s.report(4_999_999).is_none());
    let r = s.report(5_000_000).unwrap();
    assert_eq!(r.activity, Activity::Idle);
    assert_eq!((r.datagrams, r.rx_tick, r.rx_req, r.rx_resp), (8, 2, 1, 1));
}

#[test]
fn a_slow_frame_does_not_push_the_next() {
    let mut s = Shell::new();
    assert!(!s.frame_due(0));
    s.lease(1_000);
    assert!(!s.frame_due(999));
    assert!(s.frame_due(20_000));
    assert!(!s.frame_due(34_332));
    assert!(s.frame_due(34_333));
    // A whole period missed.
    assert!(s.frame_due(200_000));
    assert!(!s.frame_due(233_332));
    assert!(s.frame_due(233_333));
    let cost = Cost { spent: 13_165, draw_ua: 450_700, derated: true, render_us: 900, out_us: 1_200 };
    s.drew(cost);
    s.drew(Cost { spent: 13_167, render_us: 1_000, ..cost });
    assert_eq!(s.counted(), (2, 26_332, 1_900, 2_400));
    for _ in 0..148 {
        s.drew(cost);
    }
    let r = s.report(6_000_000).unwrap();
    assert_eq!(
        r.activity,
        Activity::Drawing {
            frames: 150,
            fps: 30,
            units: 13_165,
            draw_ma: 450,
            derated: true,
            render_us: 900,
            out_us: 1_200
        }
    );
    assert_eq!(s.counted(), (0, 0, 0, 0));
    s.set_mesh_deadline(9);
    assert!(!s.mesh_due(8));
    assert!(s.mesh_due(9));
}

fn header() -> Header {
    Header { mesh_prefix: [0x4c, 0x4d], sender_prefix: [6, 7, 8, 9], show_time_us: 0 }
}

fn said(message: Message<'_>) -> Decoded<'_> {
    Decoded::Datagram { header: header(), message: Some(message) }
}

#[test]
fn a_device_turns() {
    let mut d = Device::new(1_000, [9; 6], Role::Follower);
    d.lease(1_000);
    let t = d.turn(1_500);
    let everyone = Endpoint { addr: [255; 4], port: 6354 };
    assert_eq!(hello_to(), everyone);
    assert_eq!(t.hello, Some((everyone, [0xA5, 0])));
    assert_eq!(t.show_us, 500);
    assert!(t.mesh_due);
    assert!(d.woken(&[Action::SetTimer { in_us: 10_000 }], t.show_us).is_empty());
    assert!(!d.turn(11_000).mesh_due);
    assert!(d.turn(11_500).mesh_due);

    // Another device's announcement is nothing.
    assert!(!d.arrive(&[0xA5, 0], [10, 0, 0, 3]));
    assert!(d.arrive(&[0, 0, 0x10, 0, 0, 0, 6, 7, 8, 9], [10, 0, 0, 4]));
    // Nothing asked for leaves the deadline.
    assert!(d.heard(&[], 10_600).is_empty());
    let sends = d.heard(&[Action::Send { to: Destination::Peer([6, 7, 8, 9]) }], 10_600);
    assert_eq!(sends[0].to.addr, [10, 0, 0, 4]);
    assert_eq!(sends[0].to.port, 6354);

    assert_eq!(
        d.receive(said(Message::ProgBegin { total_len: 2 }), 11_600),
        Step::Done(Handled::ProgramStarted { len: 2 })
    );
    d.receive(said(Message::ProgChunk { offset: 0, data: &[5, 6] }), 11_700);
    assert_eq!(d.receive(said(Message::ProgEnd), 11_800), Step::Parse);
    assert_eq!(d.node().program(), &[5, 6]);
    let (handled, _) = d.parsed(Some(ProgramInfo { budget: 1, slots: vec![] }));
    assert_eq!(handled, Handled::ProgramComplete { len: 2, budget: 1, channels: 0 });
    assert_eq!(d.pushed(100, true, 1), Handled::SourcePushed { priority: 100 });

    // Found: it says so, and speaks up less often.
    assert_eq!(d.turn(1_001_500).hello, Some((everyone, [0xA5, 1])));
    assert_eq!(d.turn(6_001_499).hello, None);
    let t = d.turn(6_001_500);
    assert!(t.hello.is_some());

    assert_eq!(d.frame(t.show_us), Some(6_000_500));
    d.advanced(0);
    assert_eq!(d.draw(t.show_us, true), None);
    d.advanced(1);
    assert_eq!(d.draw(t.show_us, false), None);
    let draw = d.draw(t.show_us, true).unwrap();
    assert_eq!(draw.show_us, 6_000_500);
    assert_eq!(draw.frame_us, 180 * 33_333);
    let cost = Cost { spent: 10, draw_ua: 2_000, derated: false, render_us: 3, out_us: 4 };
    d.drew(cost, Rendered { show_us: draw.frame_us, digest: 77 });
    assert_eq!(d.frame(t.show_us), None);
    let r = d.report(t.show_us).unwrap();
    assert_eq!(r.program_bytes, 2);
    assert_eq!(r.sources, 1);
    assert_eq!(r.peers, 1);
    assert_eq!(r.show_us, 6_000_500);
    assert!(!r.synced);
    assert_eq!(r.pending_us, 0);
    assert_eq!(r.last_render, Some((180, Rendered { show_us: 5_999_940, digest: 77 })));
    assert_eq!(d.popped(0), Handled::SourcePopped);
    assert!(d.report(t.show_us + 4_999_999).is_none());
    assert_eq!(d.role(), Role::Follower);
    assert_eq!(d.shell().datagrams(), 1);
    assert_eq!(d.clock().now_us(), 6_000_500);
}
