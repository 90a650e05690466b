use lumen_dev::multicast::chan::decode;
use lumen_dev::multicast::chan::encode;
use lumen_dev::multicast::chan::Sink;
use lumen_dev::multicast::flood::Flood;
use lumen_dev::multicast::flood::Heard;
use lumen_dev::multicast::flood::Listener;
use lumen_dev::multicast::flood::Sinks;
use lumen_dev::multicast::flood::Source;
use lumen_dev::multicast::stats::Histogram;
use lumen_dev::net::Endpoint;

#[test]
fn the_wire_layout() {
    let m = encode(0x0201, 0x0605_0403, 0x0e0d_0c0b_0a09_0807);
    assert_eq!(m, [0x21, 1, 2, 3, 4, 5, 6, 7, 8, 9, 10, 11, 12, 13, 14]);
}

#[test]
fn decoding_gives_back_what_was_encoded() {
    let m = encode(513, u32::MAX, 123_456_789_012);
    assert_eq!(decode(&m), Some((513, u32::MAX, 123_456_789_012)));
    let mut long = m.to_vec();
    long.push(99);
    assert_eq!(decode(&long), Some((513, u32::MAX, 123_456_789_012)));
    assert_eq!(decode(&m[..14]), None);
    let mut other = m;
    other[0] = 0x22;
    assert_eq!(decode(&other), None);
    assert_eq!(decode(&[]), None);
}

#[test]
fn gaps_are_loss_and_late_arrivals_are_not() {
    let mut s = Sink::default();
    assert_eq!(s.report(), None);
    // Joined late: what came before the first was never missed.
    for (i, seq) in [10u32, 11, 14, 12, 15].iter().enumerate() {
        s.on_datagram(1_000 * i as u64, &encode(1, *seq, 0));
    }
    s.on_datagram(9_000, &[0x21, 1]);
    assert_eq!(s.received(), 5);
    // 10 to 15, of which 13 has not come.
    assert_eq!(s.expected(), 6);
    let r = s.report().unwrap();
    assert_eq!(r.received, 5);
    assert_eq!(r.missing, 1);
    assert_eq!(r.reordered, 1);
    assert_eq!(r.loss, 1_666);
    assert!(!r.within);
    assert_eq!(r.worst_gap_us, 1_000);
    assert_eq!(r.p50, 1_250);
    assert_eq!(r.over_two_frames, 0);
}

#[test]
fn a_window_keeps_the_sequence_position() {
    let mut s = Sink::new();
    s.on_datagram(0, &encode(1, 5, 0));
    s.begin_window();
    assert_eq!(s.received(), 0);
    assert_eq!(s.report(), None);
    s.on_datagram(40_000, &encode(1, 8, 0));
    let r = s.report().unwrap();
    assert_eq!(r.missing, 2);
    assert_eq!(r.received, 1);
    assert_eq!(r.worst_gap_us, 40_000);
    assert_eq!(r.over_two_frames, 1);
}

#[test]
fn a_clean_window_is_within_one_percent() {
    let mut s = Sink::new();
    for i in 0..200u64 {
        s.on_datagram(i * 16_667, &encode(1, i as u32, 0));
    }
    let r = s.report().unwrap();
    assert_eq!(r.loss, 0);
    assert!(r.within);
    assert_eq!(r.p50, 16_750);
    assert_eq!(r.p99, 16_750);
    // One skipped: one lost of two hundred and two.
    s.on_datagram(0, &encode(1, 201, 0));
    let r = s.report().unwrap();
    assert_eq!(r.loss, 10_000 / 202);
    assert!(r.within);
    // Hardware that goes back counts as no gap at all.
    assert_eq!(r.worst_gap_us, 16_667);
}

#[test]
fn the_histogram_has_two_resolutions() {
    assert_eq!(Histogram::bucket_of(-1), 0);
    assert_eq!(Histogram::bucket_of(249), 0);
    assert_eq!(Histogram::bucket_of(250), 1);
    assert_eq!(Histogram::bucket_of(39_999), 159);
    assert_eq!(Histogram::bucket_of(40_000), 160);
    assert_eq!(Histogram::bucket_of(49_999), 160);
    assert_eq!(Histogram::bucket_of(999_999), 255);
    assert_eq!(Histogram::bucket_of(i64::MAX), 255);
    assert_eq!(Histogram::edge_of(0), 250);
    assert_eq!(Histogram::edge_of(159), 40_000);
    assert_eq!(Histogram::edge_of(160), 50_000);
    assert_eq!(Histogram::edge_of(255), 1_000_000);
}

#[test]
fn counting_above_a_threshold() {
    let mut h = Histogram::default();
    assert_eq!(h.percentile(50), -1);
    for v in [100, 5_000, 20_000, 20_100, 50_000, 2_000_000] {
        h.add(v);
    }
    assert_eq!(h.samples(), 6);
    assert_eq!(h.count_above(0), 6);
    // A threshold that starts a bucket is exact.
    assert_eq!(h.count_above(20_000), 4);
    assert_eq!(h.count_above(20_250), 2);
    assert_eq!(h.count_above(i64::MAX), 1);
    assert_eq!(h.percentile(50), 20_250);
    assert_eq!(h.percentile(100), 1_000_000);
}

#[test]
fn two_frames_are_counted_exactly() {
    let mut h = Histogram::new();
    // One bucket holds them all.
    h.add(33_300);
    assert_eq!(h.count_above(33_334), 0);
    h.add(33_333);
    assert_eq!(h.count_above(33_334), 0);
    h.add(33_334);
    h.add(33_499);
    assert_eq!(h.count_above(33_334), 2);
    h.add(33_500);
    h.add(900_000);
    assert_eq!(h.count_above(33_334), 4);
    assert_eq!(h.count_above(33_250), 6);
    assert_eq!(h.count_above(33_500), 2);
    assert_eq!(h.percentile(50), 33_500);

    let mut s = Sink::new();
    let mut t = 0;
    s.on_datagram(t, &encode(1, 0, 0));
    for (i, gap) in [33_300u64, 33_333, 33_334, 40_000, 16_667].iter().enumerate() {
        t += gap;
        s.on_datagram(t, &encode(1, i as u32 + 1, 0));
    }
    assert_eq!(s.report().unwrap().over_two_frames, 2);
    // No silence is too long to be one.
    s.on_datagram(u64::MAX, &encode(1, 6, 0));
    let r = s.report().unwrap();
    assert_eq!(r.over_two_frames, 3);
    assert_eq!(r.worst_gap_us, u64::MAX - t);
    assert_eq!(r.p99, 1_000_000);
}

#[test]
fn a_repeat_of_the_newest_is_neither_late_nor_lost() {
    let mut s = Sink::new();
    s.on_datagram(0, &encode(1, 0, 0));
    s.on_datagram(10, &encode(1, 5, 0));
    assert_eq!(s.expected(), 6);
    s.on_datagram(20, &encode(1, 5, 0));
    assert_eq!(s.received(), 3);
    assert_eq!(s.expected(), 6);
    let r = s.report().unwrap();
    assert_eq!((r.received, r.missing, r.reordered), (3, 4, 0));
    // An older one is late.
    s.on_datagram(30, &encode(1, 2, 0));
    let r = s.report().unwrap();
    assert_eq!((r.received, r.missing, r.reordered), (4, 3, 1));
    assert_eq!(s.expected(), 6);
    let mut s = Sink::new();
    for seq in [1, 3, 3] {
        s.on_datagram(0, &encode(1, seq, 0));
    }
    assert_eq!(s.expected(), 3);
    assert_eq!(s.report().unwrap().loss, 3_333);
    // The first arrival of a window is one of its messages.
    s.begin_window();
    s.on_datagram(0, &encode(1, 3, 0));
    assert_eq!((s.received(), s.expected()), (1, 1));
    s.on_datagram(0, &encode(1, 3, 0));
    assert_eq!((s.received(), s.expected()), (2, 1));
}

#[test]
fn a_percentile_is_above_its_share() {
    let mut h = Histogram::new();
    for v in 1..=100i64 {
        h.add(v * 100);
    }
    assert_eq!(h.percentile(50), 5_250);
    assert_eq!(h.percentile(95), 9_750);
}

#[test]
fn a_source_remembers_its_sinks_once() {
    let mut sinks = Sinks::new();
    assert!(!sinks.hello(&[0xA5, 0], [1, 1, 1, 1]));
    assert!(!sinks.hello(&[0xA4], [1, 1, 1, 1]));
    assert!(sinks.hello(&[0xA5], [1, 1, 1, 1]));
    assert!(!sinks.hello(&[0xA5], [1, 1, 1, 1]));
    for i in 2..=8u8 {
        assert!(sinks.hello(&[0xA5], [1, 1, 1, i]));
    }
    assert!(!sinks.hello(&[0xA5], [1, 1, 1, 9]));
    assert_eq!(sinks.len(), 8);
    assert_eq!(sinks.get(7), [1, 1, 1, 8]);
}

#[test]
fn a_late_send_keeps_the_grid() {
    let mut s = Source::new();
    assert!(s.due(1_000).is_none());
    s.lease(1_000);
    assert_eq!(s.due(1_000), Some(encode(1, 0, 1_000)));
    assert!(s.sent(1_500, 1, 0).is_none());
    // Due from the deadline and not from the send.
    assert!(s.due(17_666).is_none());
    assert_eq!(s.due(17_667), Some(encode(1, 1, 17_667)));
    // A whole interval missed: start again from now.
    s.sent(100_000, 1, 1);
    assert!(s.due(116_666).is_none());
    assert!(s.due(116_667).is_some());
    assert_eq!(s.tally(), (2, 1));
}

#[test]
fn a_source_tells_every_six_hundred() {
    let mut s = Source::new();
    s.lease(0);
    let mut told = 0;
    for i in 0..1_200u64 {
        let t = i * 16_667;
        assert!(s.due(t).is_some());
        if let Some(p) = s.sent(t, 1, 0) {
            told += 1;
            assert_eq!(p.seq, told * 600);
            assert_eq!(p.sent, told * 600);
            assert_eq!(p.refused, 0);
            assert_eq!(p.p50, 250);
        }
    }
    assert_eq!(told, 2);
}

#[test]
fn the_first_window_is_startup() {
    let mut l = Listener::new();
    let mut closed = Vec::new();
    for i in 0..1_200u32 {
        if let Some(w) = l.on_datagram(i as u64 * 16_667, &encode(1, i, 0)) {
            closed.push(w);
        }
    }
    assert_eq!(closed.len(), 2);
    assert!(closed[0].startup);
    assert_eq!(closed[0].number, 1);
    assert!(!closed[1].startup);
    assert_eq!(closed[1].number, 2);
    assert_eq!(closed[1].report.unwrap().received, 600);
    assert_eq!(l.windows(), 2);
    let (to, out) = l.hello(5).unwrap();
    assert_eq!(to, Endpoint { addr: [255; 4], port: 6354 });
    assert_eq!(out, [0xA5]);
    assert!(l.hello(1_000_004).is_none());
    assert!(l.hello(1_000_005).is_some());
}

#[test]
fn a_multicast_sink_joins_and_a_unicast_one_says_hello() {
    let mut m = Flood::new("sink", "multicast");
    assert!(!m.wants_group());
    m.lease(0);
    assert!(m.wants_group());
    assert!(m.hello(0).is_none());
    m.joined_group();
    assert!(!m.wants_group());
    assert!(m.send(0).is_none());

    let mut u = Flood::new("sink", "unicast");
    assert!(u.hello(0).is_none());
    u.lease(0);
    assert!(!u.wants_group());
    assert!(u.hello(0).is_some());
    assert_eq!(u.on_datagram(0, &encode(1, 0, 0), [9; 4]), Heard::Nothing);
    assert_eq!(u.windows(), 0);
}

#[test]
fn a_unicast_source_sends_to_each_sink() {
    let mut s = Flood::new("source", "unicast");
    s.lease(100);
    assert_eq!(s.on_datagram(0, &[0xA5], [10, 0, 0, 7]), Heard::Sink { count: 1 });
    assert_eq!(s.on_datagram(0, &[0xA5], [10, 0, 0, 7]), Heard::Nothing);
    assert_eq!(s.on_datagram(0, &[0xA5], [10, 0, 0, 8]), Heard::Sink { count: 2 });
    let (out, to) = s.send(100).unwrap();
    assert_eq!(out, encode(1, 0, 100));
    assert_eq!(
        to,
        vec![
            Endpoint { addr: [10, 0, 0, 7], port: 6354 },
            Endpoint { addr: [10, 0, 0, 8], port: 6354 }
        ]
    );
    assert!(s.sent(100, 2, 0).is_none());
    assert_eq!(s.tally(), (2, 0));

    let mut g = Flood::new("source", "multicast");
    assert!(g.send(0).is_none());
    g.lease(0);
    assert_eq!(
        g.send(0).unwrap().1,
        vec![Endpoint { addr: [239, 12, 34, 56], port: 6354 }]
    );
}
