use std::ops::Deref;

use lumen_dev::net::Endpoint;
use lumen_dev::time_sync::stats::bucket_of;
use lumen_dev::time_sync::stats::bump;
use lumen_dev::time_sync::stats::edge_of;
use lumen_dev::time_sync::stats::percentile;
use lumen_dev::time_sync::stats::Burst;
use lumen_dev::time_sync::stats::Samples;
use lumen_dev::time_sync::stats::BUCKETS;
use lumen_dev::time_sync::sync::broadcast;
use lumen_dev::time_sync::sync::offset;
use lumen_dev::time_sync::sync::rtt;
use lumen_dev::time_sync::sync::Datagram;
use lumen_dev::time_sync::sync::Note;
use lumen_dev::time_sync::sync::Session;
use lumen_dev::time_sync::sync::State;
use lumen_dev::time_sync::sync::PORT;

const FOLLOWER_AT: Endpoint = Endpoint {
    addr: [10, 0, 0, 2],
    port: 40_000,
};
const MASTER_AT: Endpoint = Endpoint {
    addr: [10, 0, 0, 1],
    port: 40_001,
};

#[test]
fn values_fall_in_their_buckets() {
    assert_eq!(bucket_of(-5), 0);
    assert_eq!(bucket_of(0), 0);
    assert_eq!(bucket_of(24), 0);
    assert_eq!(bucket_of(25), 1);
    assert_eq!(bucket_of(1_999), 79);
    assert_eq!(bucket_of(2_000), 80);
    assert_eq!(bucket_of(2_499), 80);
    assert_eq!(bucket_of(2_500), 81);
    assert_eq!(bucket_of(59_999), 195);
    assert_eq!(bucket_of(60_000), 195);
    assert_eq!(bucket_of(i64::MAX), 195);
    assert_eq!(edge_of(0), 25);
    assert_eq!(edge_of(79), 2_000);
    assert_eq!(edge_of(80), 2_500);
    assert_eq!(edge_of(195), 60_000);
}

#[test]
fn a_percentile_is_the_edge_of_its_bucket() {
    let mut h = [0u32; BUCKETS];
    assert_eq!(percentile(&h, 50), -1);
    for _ in 0..94 {
        bump(&mut h, 10);
    }
    for _ in 0..6 {
        bump(&mut h, 300);
    }
    // The 95th of a hundred, and not the 94th.
    assert_eq!(percentile(&h, 94), 25);
    assert_eq!(percentile(&h, 95), 325);
    assert_eq!(percentile(&h, 100), 325);
    h[3] = u32::MAX;
    bump(&mut h, 80);
    assert_eq!(h[3], u32::MAX);
}

#[test]
fn a_window_keeps_its_quickest_and_its_median() {
    let mut b = Burst::new();
    let offsets = [40, 10, 30, 20];
    let trips = [9, 3, 3, 8];
    for i in 0..4 {
        b.add(1_000 + i as u64, 4, trips[i], offsets[i]);
    }
    // Quickest 10 (the first of two equally quick), median (20 + 30) / 2.
    for i in 0..4 {
        b.add(2_000 + i as u64, 4, 5, 100 + i as i64);
    }
    let r = b.report(4);
    assert_eq!(r.length, 4);
    assert_eq!(r.windows, 2);
    // From 10 to 100, and from 25 to 101.
    assert_eq!(r.worst, 90);
    assert_eq!(r.worst_median, 76);
    assert_eq!(r.best.p50, 100);
    assert_eq!(r.median.p50, 100);
    assert_eq!(r.residual.p50, -1);
    for i in 0..4 {
        b.add(3_000 + i as u64, 4, 5, 195);
    }
    // A constant rate would have given 190.
    assert_eq!(b.report(4).worst_residual, 5);
    assert_eq!(b.report(4).residual.p50, 25);
}

#[test]
fn slow_samples_are_filtered_out() {
    let mut s = Samples::new();
    s.add(0, 100, 0);
    s.add(1, 150, 10);
    s.add(2, 151, 500);
    s.add(3, 90, 30);
    s.add(4, 136, 40);
    assert_eq!(s.total(), 5);
    let r = s.report(10);
    assert_eq!(r.total, 5);
    assert_eq!(r.kept, 3);
    assert_eq!(r.kept_percent, 60);
    assert_eq!(r.min_rtt, 90);
    assert_eq!(r.worst_all, 490);
    assert_eq!(r.worst_kept, 20);
    assert_eq!(r.bursts[0].windows, 0);
    assert_eq!(r.p95, -1);
    assert!(!r.within);
    assert_eq!(r.drift_us, 0);
    assert_eq!(r.ppm, 0);
}

#[test]
fn a_report_says_the_drift_of_the_longest_window() {
    let mut s = Samples::new();
    for i in 0..256u64 {
        s.add(i * 200_000, 1_000, i as i64 * 6);
    }
    let r = s.report(255 * 200_000);
    assert_eq!(r.bursts[2].windows, 2);
    // The first of each window is the quickest.
    assert_eq!(r.drift_us, 128 * 6);
    assert_eq!(r.seconds, 25);
    assert_eq!(r.ppm, 768 / 25);
    assert_eq!(r.bursts[0].windows, 32);
    // Eight samples apart, six microseconds each.
    assert_eq!(r.bursts[0].worst, 48);
    assert_eq!(r.p95, 50);
    assert!(r.within);
    assert_eq!(r.bursts[0].worst_residual, 0);
}

#[test]
fn an_empty_report_divides_by_nothing() {
    let r = Samples::new().report(5);
    assert_eq!(r.kept_percent, 0);
    assert_eq!(r.min_rtt, i64::MAX);
    assert_eq!(r.seconds, 0);
}

#[test]
fn the_offset_and_the_round_trip() {
    // Ahead by 1000, 300 out, 50 held, 100 back.
    assert_eq!(offset(10_000, 11_300, 11_350, 10_450), 1_100);
    assert_eq!(rtt(10_000, 11_300, 11_350, 10_450), 400);
    // Rounded towards zero on both sides.
    assert_eq!(offset(0, 1, 1, 0), 1);
    assert_eq!(offset(0, 1, 0, 0), 0);
    assert_eq!(offset(1, 0, 0, 0), 0);
    assert_eq!(offset(3, 0, 0, 0), -1);
    // A wild timestamp is a wild figure and not a fault.
    assert_eq!(rtt(u64::MAX, 0, 0, 0), 1);
}

#[test]
fn a_datagram_holds_no_more_than_it_can() {
    let mut d = Datagram::new();
    assert_eq!(d.deref(), &[] as &[u8]);
    d.push(7);
    d.push_u64(0x0807_0605_0403_0201);
    assert_eq!(d.deref(), &[7, 1, 2, 3, 4, 5, 6, 7, 8]);
    d.push_u64(1);
    d.push_u64(2);
    d.push_u64(3);
    d.push(9);
    assert_eq!(d.deref().len(), 25);
    assert_eq!(d.deref()[17..], [2, 0, 0, 0, 0, 0, 0, 0]);
}

#[test]
fn an_exchange_gives_a_sample() {
    let mut master = State::new("master");
    let mut follower = State::new("follower");
    assert_eq!(master.interval_us(), 1_000_000);
    assert_eq!(follower.interval_us(), 200_000);

    // A follower that knows no master says nothing.
    assert!(follower.on_tick(0, 0).send.is_none());

    let tick = master.on_tick(5, 5);
    assert_eq!(tick.note, Note::Ticked { answered: 0 });
    let (to, bytes) = tick.send.unwrap();
    assert_eq!(to, broadcast());
    assert_eq!(to.addr, [255, 255, 255, 255]);
    assert_eq!(to.port, 6353);
    assert_eq!(bytes.deref(), &[0x10]);
    assert!(matches!(master, State::Master { next_tick_us: 1_000_005, answered: 0 }));

    let found = follower.on_datagram(10, &[0x10], MASTER_AT, 10);
    assert!(found.send.is_none());
    assert_eq!(found.note, Note::Found { addr: [10, 0, 0, 1] });
    assert_eq!(follower.on_datagram(11, &[0x10], FOLLOWER_AT, 11).note, Note::Quiet);

    let (to, request) = follower.on_tick(100, 120).send.unwrap();
    assert_eq!(to, Endpoint { addr: [10, 0, 0, 1], port: PORT });
    assert_eq!(request.deref(), &[0x11, 120, 0, 0, 0, 0, 0, 0, 0]);

    let (to, answer) = master.on_datagram(1_300, request.deref(), FOLLOWER_AT, 1_310).send.unwrap();
    assert_eq!(to, Endpoint { addr: [10, 0, 0, 2], port: PORT });
    assert_eq!(answer.deref().len(), 25);
    assert_eq!(answer.deref()[0], 0x12);
    assert!(matches!(master, State::Master { answered: 1, .. }));

    assert_eq!(follower.on_datagram(400, answer.deref(), MASTER_AT, 0).note, Note::Quiet);
    match &follower {
        State::Follower { samples, first_offset, sent, heard, .. } => {
            assert_eq!(samples.total(), 1);
            // ((1300 - 120) + (1310 - 400)) / 2
            assert_eq!(*first_offset, Some((400, 1_045)));
            assert_eq!(*sent, 1);
            assert_eq!(*heard, 1);
            assert_eq!(samples.report(400).min_rtt, 270);
        }
        State::Master { .. } => panic!("a follower stays one"),
    }
}

#[test]
fn a_negative_round_trip_is_never_a_sample() {
    let mut follower = State::new("anything else");
    let mut d = Datagram::new();
    d.push(0x12);
    d.push_u64(1_000);
    d.push_u64(5_000);
    d.push_u64(6_000);
    follower.on_datagram(1_500, d.deref(), MASTER_AT, 0);
    match &follower {
        State::Follower { samples, heard, first_offset, .. } => {
            assert_eq!(samples.total(), 0);
            assert_eq!(*heard, 1);
            assert_eq!(*first_offset, None);
        }
        State::Master { .. } => panic!("a follower stays one"),
    }
}

#[test]
fn what_is_not_for_a_role_is_ignored() {
    let mut master = State::new("master");
    assert!(master.on_datagram(0, &[], FOLLOWER_AT, 0).send.is_none());
    assert!(master.on_datagram(0, &[0x10], FOLLOWER_AT, 0).send.is_none());
    assert!(master.on_datagram(0, &[0x11; 8], FOLLOWER_AT, 0).send.is_none());
    assert!(master.on_datagram(0, &[0x12; 25], FOLLOWER_AT, 0).send.is_none());
    assert!(matches!(master, State::Master { answered: 0, .. }));
    let mut follower = State::new("");
    assert!(follower.on_datagram(0, &[0x11; 9], MASTER_AT, 0).send.is_none());
    assert!(follower.on_datagram(0, &[0x12; 24], MASTER_AT, 0).send.is_none());
    assert!(matches!(follower, State::Follower { heard: 0, master: None, .. }));
}

#[test]
fn progress_is_told_every_so_often() {
    let mut follower = State::new("follower");
    follower.on_datagram(0, &[0x10], MASTER_AT, 0);
    for i in 1..=50u64 {
        let note = follower.on_tick(i, i).note;
        if i % 25 == 0 {
            assert_eq!(note, Note::Asked { sent: i as u32, heard: 0 });
        } else {
            assert_eq!(note, Note::Quiet);
        }
    }
    let mut reports = 0;
    for i in 0..200u64 {
        let mut d = Datagram::new();
        d.push(0x12);
        d.push_u64(i);
        d.push_u64(i + 10);
        d.push_u64(i + 10);
        if follower.on_datagram(i + 20, d.deref(), MASTER_AT, 0).note == Note::Report {
            reports += 1;
            assert!(i == 99 || i == 199);
        }
    }
    assert_eq!(reports, 2);
}

#[test]
fn a_session_waits_for_a_lease() {
    let mut s = Session::new("master");
    assert!(s.tick(0, 0).is_none());
    assert!(s.tick(u64::MAX, 0).is_none());
    s.lease(500);
    assert!(s.tick(499, 499).is_none());
    assert!(s.tick(510, 510).is_some());
    assert!(s.tick(1_000_509, 0).is_none());
    assert!(s.tick(1_000_510, 0).is_some());
    assert!(matches!(s.borrow_state(), State::Master { .. }));
    let mut f = Session::new("follower");
    f.lease(0);
    f.on_datagram(1, &[0x10], MASTER_AT, 1);
    assert!(f.tick(1, 1).unwrap().send.is_some());
    assert!(f.tick(200_000, 1).is_none());
    assert!(f.tick(200_001, 1).is_some());
}
