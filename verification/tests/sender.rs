use lumen_dev::device::mesh::Action;
use lumen_dev::device::mesh::Destination;
use lumen_dev::sender::args::arg_value;
use lumen_dev::sender::args::command;
use lumen_dev::sender::args::Command;
use lumen_dev::sender::args::Mode;
use lumen_dev::sender::desk::Desk;
use lumen_dev::sender::desk::Has;
use lumen_dev::sender::http::Request;
use lumen_dev::sender::peer::announcement;
use lumen_dev::sender::peer::identity;
use lumen_dev::sender::peer::is_announcement;
use lumen_dev::sender::peer::next_frame;
use lumen_dev::sender::peer::AlertTimer;
use lumen_dev::sender::peer::Announcement;
use lumen_dev::sender::peer::Carried;
use lumen_dev::sender::peer::Watch;
use lumen_dev::sender::provision::expiry;
use lumen_dev::sender::provision::lost_program;
use lumen_dev::sender::provision::needs_program;
use lumen_dev::sender::provision::pieces;
use lumen_dev::sender::provision::simulated;
use lumen_dev::sender::provision::Beat;
use lumen_dev::sender::provision::Piece;

fn args(list: &[&str]) -> Vec<String> {
    list.iter().map(|a| a.to_string()).collect()
}

#[test]
fn values_behind_their_names() {
    let a = args(&["x.lfx", "--leds", "60", "--fps", "no", "--frames"]);
    assert_eq!(arg_value(&a, "--leds"), Some(60));
    assert_eq!(arg_value(&a, "--fps"), None);
    assert_eq!(arg_value(&a, "--frames"), None);
    assert_eq!(arg_value(&a, "--other"), None);
    // The first one counts.
    let b = args(&["--leds", "x", "--leds", "5"]);
    assert_eq!(arg_value(&b, "--leds"), None);
}

#[test]
fn the_command_line() {
    assert_eq!(command(&[]), Command::Help);
    assert_eq!(command(&args(&["--help"])), Command::Help);
    assert_eq!(command(&args(&["--peer"])), Command::Peer { capacity: 2_000 });
    assert_eq!(
        command(&args(&["x.lfx", "--peer", "--capacity", "5000"])),
        Command::Peer { capacity: 5_000 }
    );
    assert_eq!(
        command(&args(&["x.lfx"])),
        Command::Effect { compiled: false, mode: Mode::Send { priority: 100, seconds: 600 } }
    );
    assert_eq!(
        command(&args(&["x.lfxb", "--priority", "300", "--seconds", "7"])),
        Command::Effect { compiled: true, mode: Mode::Send { priority: 44, seconds: 7 } }
    );
    assert_eq!(
        command(&args(&["x.lfx", "--simulate", "--fps", "60"])),
        Command::Effect {
            compiled: false,
            mode: Mode::Simulate { leds: 30, fps: 60, frames: 90 }
        }
    );
    assert_eq!(
        command(&args(&["x.lfx", "--simulate", "--verify", "123", "--leds", "65537"])),
        Command::Effect { compiled: false, mode: Mode::Verify { leds: 1, show_us: 123 } }
    );
}

#[test]
fn who_needs_a_program() {
    assert!(needs_program(&[0xA5]));
    assert!(needs_program(&[0xA5, 0]));
    assert!(!needs_program(&[0xA5, 1]));
    assert!(needs_program(&[0xA5, 2, 9]));
    assert!(!needs_program(&[]));
    assert!(!needs_program(&[0xA4, 0]));
    assert!(lost_program(&[0xA5, 0]));
    assert!(!lost_program(&[0xA5]));
    assert!(!lost_program(&[0xA5, 1]));
}

#[test]
fn a_program_is_cut_into_pieces() {
    assert_eq!(pieces(0), vec![]);
    assert_eq!(pieces(1_024), vec![Piece { offset: 0, len: 1_024 }]);
    assert_eq!(
        pieces(2_050),
        vec![
            Piece { offset: 0, len: 1_024 },
            Piece { offset: 1_024, len: 1_024 },
            Piece { offset: 2_048, len: 2 }
        ]
    );
    assert_eq!(expiry(5, 600), 600_000_005);
}

#[test]
fn the_beat_keeps_its_grids() {
    let mut b = Beat::new(1_000);
    assert_eq!(b.drive(1_000, 0), None);
    assert_eq!(b.drive(999, 2), None);
    assert_eq!(b.drive(1_000, 2), Some(1));
    assert_eq!(b.drive(34_332, 2), None);
    // Late, and the next is where it would have been.
    assert_eq!(b.drive(60_000, 2), Some(2));
    assert_eq!(b.drive(67_666, 2), Some(3));
    assert!(b.tick(1_000));
    assert!(!b.tick(1_000_999));
    assert!(b.tick(1_500_000));
    assert!(b.tick(2_001_000));
}

#[test]
fn a_simulation_prints_its_last_frames() {
    assert_eq!(simulated(0, 30, 90), (0, false));
    assert_eq!(simulated(83, 30, 90), (2_766_666, false));
    assert_eq!(simulated(84, 30, 90), (2_800_000, true));
    assert_eq!(simulated(0, 30, 6), (0, true));
}

fn announce(index: u64, digest: u64, now: u64) -> Vec<u8> {
    let mut v = vec![0xA5, 1];
    v.extend_from_slice(&index.to_le_bytes());
    v.extend_from_slice(&digest.to_le_bytes());
    v.extend_from_slice(&now.to_le_bytes());
    v.resize(36, 0);
    v
}

#[test]
fn announcements_say_what_was_drawn() {
    let a = announce(7, 0xABCD, 240_000);
    assert_eq!(
        announcement(&a),
        Some(Announcement { index: 7, digest: 0xABCD, now_us: 240_000 })
    );
    assert_eq!(announcement(&a[..35]), None);
    assert_eq!(announcement(&announce(0, 1, 1)), None);
    assert!(is_announcement(&a));
    assert!(is_announcement(&[0xA5, 9]));
    assert!(!is_announcement(&[0xA5]));
    assert_eq!(next_frame(None, 100_000), Some((3, 99_999)));
    assert_eq!(next_frame(Some(3), 100_000), None);
    assert_eq!(next_frame(Some(2), 100_000), Some((3, 99_999)));
}

#[test]
fn an_identity_of_this_process() {
    let id = identity(0x0403_0201);
    assert_eq!(id, [0xDE, 0x5C, 1, 2, 3, 4, 0, 0, 0, 0, 0, 0, 0, 0, 0, 0]);
}

fn timed(prefix: u8, kind: u8, now: u64) -> Vec<u8> {
    let mut v = vec![0u8; 24];
    v[2] = kind;
    v[6] = prefix;
    v[14..22].copy_from_slice(&now.to_le_bytes());
    v
}

#[test]
fn the_skew_of_a_window() {
    let own = [1, 0, 0, 0];
    let mut w = Watch::new();
    assert!(w.has_room());
    assert!(w.observe(1_000, &timed(2, 0x11, 900), own));
    assert!(w.observe(1_000, &timed(2, 0x11, 1_301), own));
    // Our own, looped back, and one too short to say.
    w.observe(1_000, &timed(1, 0x11, 0), own);
    w.observe(1_000, &timed(2, 0x11, 0)[..23], own);
    let s = w.report().skew.unwrap();
    assert_eq!(s.samples, 2);
    // (100 - 301) / 2, towards zero.
    assert_eq!(s.mean_us, -100);
    assert_eq!(s.worst_us, 301);
    assert_eq!(w.report().skew, None);
}

#[test]
fn ticks_are_told_three_times() {
    let mut w = Watch::new();
    for i in 0..6 {
        assert_eq!(w.observe(0, &timed(2, 0x10, 0), [0; 4]), i < 3);
    }
    assert!(!w.observe(0, &[0; 9], [0; 4]));
    w.report();
    assert!(!w.observe(0, &timed(2, 0x10, 0), [0; 4]));
}

#[test]
fn pictures_are_compared_frame_by_frame() {
    let mut w = Watch::new();
    let a = Announcement { index: 7, digest: 5, now_us: 7 * 33_333 + 10 };
    assert!(!w.compare(a.now_us + 400, a, 5));
    let behind = Announcement { index: 4, ..a };
    assert!(w.compare(a.now_us - 900, behind, 6));
    let f = w.report().frames.unwrap();
    assert_eq!((f.agree, f.differ), (1, 1));
    assert_eq!(f.mean_drift, 1);
    assert_eq!(f.worst_drift, 3);
    assert_eq!(f.worst_stale_us, 900);
    // Only the first few differences are told one by one.
    assert!(w.compare(0, a, 6));
    assert!(w.compare(0, a, 6));
    assert!(!w.compare(0, a, 6));
    assert_eq!(w.report().frames.unwrap().differ, 3);
}

#[test]
fn alerts_come_round() {
    let mut t = AlertTimer::new(10, 100);
    assert!(!t.due(109, true));
    assert!(!t.due(500, false));
    assert!(t.due(500, true));
    assert!(!t.due(599, true));
    assert!(t.due(600, true));
}

#[derive(Clone, Copy, PartialEq, Eq, Debug)]
enum Role {
    Follower,
    Leader,
}

#[test]
fn a_desk_turns() {
    let has = Has { live: true, play: true, alert: true };
    let mut d = Desk::new([0xDE, 0x5C, 1, 0], 6354, has, 1_000_000, Role::Follower);
    assert_eq!(d.turn(5_000), (5_000, true));
    assert!(d.woken(&[Action::SetTimer { in_us: 50_000 }], 5_000).is_empty());
    assert_eq!(d.turn(54_999), (54_999, false));
    assert_eq!(d.last_raw_us(), 54_999);

    // Nobody to tell yet.
    assert_eq!(d.request(Request::Alert(5)), Carried::Missing);
    assert_eq!(d.request(Request::Off), Carried::Nothing);
    assert!(!d.alert_due(2_000_000));

    let a = d.arrive(55_000, &[0xA5, 0], Some([10, 0, 0, 9]));
    assert_eq!(a.give, Some([10, 0, 0, 9]));
    assert!(!a.to_mesh);
    assert!(!a.tell);
    assert_eq!(d.device(), Some([10, 0, 0, 9]));

    let a = d.arrive(55_000, &announce(1, 3, 34_000), Some([10, 0, 0, 9]));
    assert_eq!(a.give, None);
    assert!(a.to_mesh);
    let (what, frame_us) = a.compare.unwrap();
    assert_eq!(frame_us, 33_333);
    assert!(d.compared(55_000, what, 4));
    assert_eq!(d.request(Request::Alert(5)), Carried::Alert { lasts_us: 5_000_000 });
    assert_eq!(d.request(Request::Off), Carried::Off);
    assert!(d.alert_due(2_000_000));
    assert!(!d.alert_due(2_999_999));

    let mut from_peer = timed(7, 0x11, 0);
    from_peer[7] = 7;
    d.arrive(55_000, &from_peer, Some([10, 0, 0, 7]));
    let sends = d.heard(
        &[
            Action::RoleChanged { role: Role::Leader },
            Action::Send { to: Destination::Peer([7, 7, 0, 0]) },
            Action::SyncAcquired,
        ],
        55_000,
    );
    assert_eq!(sends.len(), 1);
    assert_eq!(sends[0].action, 1);
    assert_eq!(sends[0].to.addr, [10, 0, 0, 7]);
    assert_eq!(d.role(), Role::Leader);
    assert!(d.heard(&[], 0).is_empty());

    assert_eq!(d.frame(70_000), Some((2, 66_666)));
    assert_eq!(d.frame(80_000), None);
    assert!(d.report(4_999_999).is_none());
    let r = d.report(5_000_000).unwrap();
    assert!(r.synced);
    assert_eq!(r.peers, 2);
    assert_eq!(r.window.frames.unwrap().differ, 1);
    assert!(d.watch().has_room());
    assert!(d.report(9_999_999).is_none());
}

#[test]
fn a_desk_without_pictures_compares_nothing() {
    let has = Has { live: false, play: false, alert: false };
    let mut d = Desk::new([1; 4], 6354, has, 1, Role::Follower);
    let a = d.arrive(0, &announce(1, 3, 34_000), None);
    assert_eq!(a.compare, None);
    assert_eq!(d.device(), None);
    assert_eq!(d.arrive(0, &[0xA5, 0], Some([1; 4])).give, None);
    assert_eq!(d.frame(70_000), None);
}

#[test]
fn a_desk_taken_back_in_time_wakes_its_core_as_soon() {
    let has = Has { live: false, play: false, alert: false };
    let mut d = Desk::new([1; 4], 6354, has, 1, Role::Follower);
    let (now, _) = d.turn(10_000_000);
    d.woken(
        &[
            Action::SetTimer { in_us: 1_000_000 },
            Action::DisciplineClock { offset_us: -5_000_000 },
        ],
        now,
    );
    assert_eq!(d.now_us(), 5_000_000);
    assert_eq!(d.turn(10_999_999), (5_999_999, false));
    assert_eq!(d.turn(11_000_000), (6_000_000, true));
}
