use lumen_dev::device::node::channel_ids;
use lumen_dev::device::node::frame_time;
use lumen_dev::device::node::settle;
use lumen_dev::device::node::stage;
use lumen_dev::device::node::ChannelRequest;
use lumen_dev::device::node::ChannelWrite;
use lumen_dev::device::node::Decoded;
use lumen_dev::device::node::Draw;
use lumen_dev::device::node::Handled;
use lumen_dev::device::node::Header;
use lumen_dev::device::node::Message;
use lumen_dev::device::node::Node;
use lumen_dev::device::node::ProgramInfo;
use lumen_dev::device::node::Rgb;
use lumen_dev::device::node::Step;
use lumen_dev::device::node::MAX_PROGRAM;
use lumen_dev::sender::provision::pieces;

const MESH: [u8; 2] = [0x4c, 0x4d];

fn header() -> Header {
    Header {
        mesh_prefix: MESH,
        sender_prefix: [1, 2, 3, 4],
        show_time_us: 5_000_000,
    }
}

fn said(message: Message<'_>) -> Decoded<'_> {
    Decoded::Datagram {
        header: header(),
        message: Some(message),
    }
}

fn node() -> Node {
    Node::new(MESH, [1; 16], 30)
}

#[test]
fn what_cannot_be_read_changes_nothing() {
    let mut n = node();
    assert_eq!(n.led_count(), 30);
    assert_eq!(n.receive(Decoded::Garbage, 0), Step::Done(Handled::Undecodable));
    let unread = Decoded::Datagram { header: header(), message: None };
    assert_eq!(n.receive(unread, 0), Step::Done(Handled::Undecodable));
    // Somebody else's mesh is dropped before its payload is looked at.
    let mut other = header();
    other.mesh_prefix = [0x4c, 0x4e];
    let foreign = Decoded::Datagram { header: other, message: None };
    assert_eq!(n.receive(foreign, 0), Step::Done(Handled::NotForThisMesh));
    assert_eq!(n.receive(said(Message::Other), 0), Step::Done(Handled::Ignored));
    assert_eq!(n.show_time(77), 77);
}

#[test]
fn a_tick_sets_the_show_time() {
    let mut n = node();
    assert_eq!(
        n.receive(said(Message::Tick), 7_000_000),
        Step::Done(Handled::ClockSet { offset_us: -2_000_000 })
    );
    assert_eq!(n.show_time(7_000_000), 5_000_000);
    // Never before zero.
    assert_eq!(n.show_time(1), 0);
    n.receive(said(Message::Tick), 1);
    assert_eq!(n.show_time(u64::MAX), u64::MAX);
}

#[test]
fn a_program_crosses_in_pieces() {
    let mut n = node();
    let bytes: Vec<u8> = (0..3_000u32).map(|i| (i % 251) as u8).collect();
    assert_eq!(
        n.receive(said(Message::ProgBegin { total_len: 3_000 }), 0),
        Step::Done(Handled::ProgramStarted { len: 3_000 })
    );
    let mut cut = pieces(3_000);
    assert_eq!(cut.len(), 3);
    // In any order, and with one twice.
    cut.reverse();
    cut.push(cut[1]);
    for p in &cut {
        let at = p.offset as usize;
        let data = &bytes[at..at + p.len];
        assert_eq!(
            n.receive(said(Message::ProgChunk { offset: p.offset, data }), 0),
            Step::Done(Handled::ProgramChunk { at: p.offset, len: p.len })
        );
    }
    assert_eq!(n.receive(said(Message::ProgEnd), 0), Step::Parse);
    assert_eq!(n.program(), &bytes[..]);
    let info = ProgramInfo { budget: 435, slots: vec![Some(3), None, Some(9)] };
    let (handled, declare) = n.parsed(Some(info));
    assert_eq!(
        handled,
        Handled::ProgramComplete { len: 3_000, budget: 435, channels: 3 }
    );
    assert_eq!(declare, vec![3, 9]);
    assert_eq!(n.program_bytes(), 3_000);
    // A second end has nothing to end.
    assert_eq!(n.receive(said(Message::ProgEnd), 0), Step::Done(Handled::ProgramRejected));
}

#[test]
fn a_program_that_does_not_parse_is_dropped() {
    let mut n = node();
    n.receive(said(Message::ProgBegin { total_len: 1 }), 0);
    n.receive(said(Message::ProgChunk { offset: 0, data: &[1] }), 0);
    assert_eq!(n.receive(said(Message::ProgEnd), 0), Step::Parse);
    assert_eq!(n.parsed(None), (Handled::ProgramRejected, vec![]));
    assert_eq!(n.program_bytes(), 0);
    assert_eq!(n.render(0, true), None);
}

#[test]
fn a_transfer_that_lost_its_end_is_rejected() {
    let mut n = node();
    n.receive(said(Message::ProgBegin { total_len: 4 }), 0);
    n.receive(said(Message::ProgChunk { offset: 0, data: &[1, 2, 3] }), 0);
    assert_eq!(n.receive(said(Message::ProgEnd), 0), Step::Done(Handled::ProgramRejected));
    // And then chunks are nobody's.
    assert_eq!(
        n.receive(said(Message::ProgChunk { offset: 3, data: &[4] }), 0),
        Step::Done(Handled::Ignored)
    );
}

#[test]
fn a_transfer_that_lost_any_chunk_is_rejected() {
    for lost in 0..3 {
        let mut n = node();
        n.pushed(100, true, 1);
        // Another program was there before.
        n.receive(said(Message::ProgBegin { total_len: 12 }), 0);
        n.receive(said(Message::ProgChunk { offset: 0, data: &[9; 12] }), 0);
        assert_eq!(n.receive(said(Message::ProgEnd), 0), Step::Parse);
        n.receive(said(Message::ProgBegin { total_len: 12 }), 0);
        for k in (0..3u32).filter(|k| *k != lost) {
            let chunk = Message::ProgChunk { offset: k * 4, data: &[1, 2, 3, 4] };
            assert_eq!(
                n.receive(said(chunk), 0),
                Step::Done(Handled::ProgramChunk { at: k * 4, len: 4 })
            );
        }
        // Nor does one that cannot be held start another.
        n.receive(said(Message::ProgBegin { total_len: 5_000 }), 0);
        n.receive(said(Message::Tick), 0);
        assert_eq!(n.receive(said(Message::ProgEnd), 0), Step::Done(Handled::ProgramRejected));
        assert_eq!(n.program_bytes(), 0);
        assert_eq!(n.render(0, true), None);
    }
    let mut n = node();
    n.receive(said(Message::ProgBegin { total_len: 8 }), 0);
    n.receive(said(Message::ProgChunk { offset: 4, data: &[1, 2, 3, 4] }), 0);
    assert_eq!(n.program_bytes(), 8);
    assert_eq!(n.receive(said(Message::ProgEnd), 0), Step::Done(Handled::ProgramRejected));
    assert_eq!(n.program_bytes(), 0);
}

#[test]
fn a_chunk_that_was_refused_brings_nothing() {
    let mut n = node();
    n.receive(said(Message::ProgBegin { total_len: 4 }), 0);
    n.receive(said(Message::ProgChunk { offset: 0, data: &[1, 2, 3] }), 0);
    // It carries the last byte, and reaches past the end.
    n.receive(said(Message::ProgChunk { offset: 3, data: &[4, 5] }), 0);
    n.receive(said(Message::ProgChunk { offset: 3, data: &[4] }), 0);
    assert_eq!(n.receive(said(Message::ProgEnd), 0), Step::Done(Handled::ProgramRejected));
    assert_eq!(n.program_bytes(), 0);
}

#[test]
fn an_end_without_a_transfer_leaves_the_program() {
    let mut n = node();
    n.receive(said(Message::ProgBegin { total_len: 2 }), 0);
    n.receive(said(Message::ProgChunk { offset: 0, data: &[1, 2] }), 0);
    assert_eq!(n.receive(said(Message::ProgEnd), 0), Step::Parse);
    assert_eq!(n.receive(said(Message::ProgEnd), 0), Step::Done(Handled::ProgramRejected));
    assert_eq!(n.program(), &[1, 2]);
}

#[test]
fn a_chunk_outside_the_declared_length_is_never_written() {
    let mut n = node();
    n.receive(said(Message::ProgBegin { total_len: 4 }), 0);
    n.receive(said(Message::ProgChunk { offset: 0, data: &[1, 2] }), 0);
    assert_eq!(
        n.receive(said(Message::ProgChunk { offset: 2, data: &[7, 7, 7] }), 0),
        Step::Done(Handled::ProgramRejected)
    );
    // What had arrived is not a program, and its end has nothing to end.
    assert_eq!(n.program_bytes(), 0);
    assert_eq!(n.program(), &[] as &[u8]);
    assert_eq!(n.receive(said(Message::ProgEnd), 0), Step::Done(Handled::ProgramRejected));
    n.receive(said(Message::ProgBegin { total_len: 4 }), 0);
    assert_eq!(
        n.receive(said(Message::ProgChunk { offset: u32::MAX, data: &[7] }), 0),
        Step::Done(Handled::ProgramRejected)
    );
}

#[test]
fn a_program_that_cannot_be_held_is_refused() {
    let mut n = node();
    assert_eq!(
        n.receive(said(Message::ProgBegin { total_len: MAX_PROGRAM as u32 + 1 }), 0),
        Step::Done(Handled::ProgramRejected)
    );
    assert_eq!(
        n.receive(said(Message::ProgBegin { total_len: MAX_PROGRAM as u32 }), 0),
        Step::Done(Handled::ProgramStarted { len: 4_096 })
    );
}

#[test]
fn channels_are_claimed_and_set_if_they_are_read() {
    let mut n = node();
    let claim = Message::ChanClaim { channel_id: 7, priority: 100, lease_ms: 5_000 };
    assert_eq!(
        n.receive(said(claim), 12),
        Step::Channel {
            id: 7,
            now_us: 12,
            sender: [1, 2, 3, 4],
            request: ChannelRequest::Claim { priority: 100, lease_ms: 5_000 }
        }
    );
    let request = ChannelRequest::Claim { priority: 100, lease_ms: 5_000 };
    assert_eq!(settle(7, request, false), (Handled::ChannelUnknown { id: 7 }, None));
    assert_eq!(
        settle(7, request, true),
        (
            Handled::ChannelClaimed { id: 7 },
            Some(ChannelWrite::Claim { priority: 100, lease_ms: 5_000 })
        )
    );
    let set = Message::Chan { channel_id: 7, producer_seq: 3, payload: &[0, 0, 1, 0, 9] };
    let Step::Channel { request, .. } = n.receive(said(set), 0) else {
        panic!("a channel is looked up");
    };
    assert_eq!(
        settle(7, request, true),
        (
            Handled::ChannelSet { id: 7, value: 65_536 },
            Some(ChannelWrite::Publish { seq: 3, value: 65_536 })
        )
    );
    let short = ChannelRequest::Publish { seq: 3, payload: &[1, 2, 3] };
    // Unknown comes before unreadable.
    assert_eq!(settle(7, short, false), (Handled::ChannelUnknown { id: 7 }, None));
    assert_eq!(settle(7, short, true), (Handled::Undecodable, None));
    let negative = ChannelRequest::Publish { seq: 3, payload: &[0xFE, 0xFF, 0xFF, 0xFF] };
    assert_eq!(settle(7, negative, true).0, Handled::ChannelSet { id: 7, value: -2 });
}

#[test]
fn a_push_becomes_a_source() {
    let mut n = node();
    n.receive(said(Message::Tick), 0);
    let push = Message::SrcPush {
        source_id: [7; 16],
        scene_id: [8; 16],
        priority: 100,
        expires_at: Some(99),
        fade_in_ms: 500,
        fade_out_ms: 400,
    };
    let Step::Push { now_us, source } = n.receive(said(push), 10) else {
        panic!("a push is carried out");
    };
    assert_eq!(now_us, 5_000_010);
    assert_eq!(source.id, [7; 16]);
    assert_eq!(source.zone, [50; 16]);
    assert_eq!(source.scene, [8; 16]);
    assert_eq!(source.expires_at_us, Some(99));
    assert_eq!(source.pushed_at_us, 5_000_010);
    assert_eq!((source.fade_in_ms, source.fade_out_ms, source.cost), (500, 400, 10));
    assert!(!n.rendering());
    assert_eq!(n.pushed(100, false, 0), Handled::SourceRejected);
    assert!(!n.rendering());
    assert_eq!(n.pushed(100, true, 1), Handled::SourcePushed { priority: 100 });
    assert!(n.rendering());
    assert_eq!(n.source_count(), 1);
    assert_eq!(
        n.receive(said(Message::SrcPop { source_id: [7; 16] }), 20),
        Step::Pop { now_us: 5_000_020, source_id: [7; 16] }
    );
    assert_eq!(n.popped(0), Handled::SourcePopped);
    // Popping says nothing of rendering; advancing does.
    assert!(n.rendering());
    assert_eq!(n.advance(30), 5_000_030);
    n.advanced(0);
    assert!(!n.rendering());
    assert_eq!(n.source_count(), 0);
}

#[test]
fn a_frame_is_drawn_on_the_grid() {
    let mut n = node();
    assert_eq!(n.render(100_000, true), None);
    n.receive(said(Message::ProgBegin { total_len: 1 }), 0);
    n.receive(said(Message::ProgChunk { offset: 0, data: &[1] }), 0);
    // Without a source the strip keeps showing what it was showing.
    assert_eq!(n.render(100_000, true), None);
    n.pushed(100, true, 1);
    assert_eq!(n.render(100_000, true), Some(Draw { show_us: 100_000, frame_us: 99_999 }));
    // Nor is anything drawn of bytes that do not parse.
    assert_eq!(n.render(100_000, false), None);
    n.advanced(0);
    assert_eq!(n.render(100_000, true), None);
    assert_eq!(frame_time(33_332), 0);
    assert_eq!(frame_time(33_333), 33_333);
}

#[test]
fn light_is_staged_as_far_as_there_is_room() {
    let px = |i: i32| Rgb { r: i, g: i + 1, b: i + 2 };
    assert_eq!(stage(&[px(1), px(10)]), vec![1, 2, 3, 10, 11, 12]);
    assert_eq!(stage(&[]), Vec::<i32>::new());
    let long: Vec<Rgb> = (0..301).map(px).collect();
    let staged = stage(&long);
    assert_eq!(staged.len(), 900);
    assert_eq!(staged[899], 301);
}

#[test]
fn slots_that_name_nothing_are_left_out() {
    assert_eq!(channel_ids(&[None, Some(4), None, Some(1)]), vec![4, 1]);
    assert_eq!(channel_ids(&[]), Vec::<u16>::new());
}
