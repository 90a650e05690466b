//! The flood, and what a receiver makes of it.
//!
//! Loss comes from gaps in the producer's sequence, and jitter is the spread of
//! the arrival intervals.

use vstd::prelude::*;

use crate::le;
use crate::multicast::stats::at_least;
use crate::multicast::stats::bucket;
use crate::multicast::stats::count_above_counts_what_was_at_least_the_threshold;
use crate::multicast::stats::histogram;
use crate::multicast::stats::histogram_of_one_more;
use crate::multicast::stats::no_more_are_counted_than_there_are;
use crate::multicast::stats::percentile_edge;
use crate::multicast::stats::Histogram;
use crate::multicast::stats::HistogramView;
use crate::multicast::stats::BUCKETS;
use crate::multicast::stats::TWO_FRAMES_US;
use crate::tally::total;
use crate::tally::total_after_one_more;
use crate::tally::total_of_empty;

verus! {

/// Message type.
pub const CHAN: u8 = 0x21;

/// The type byte, the channel, the producer's sequence and when it was sent.
pub const LEN: usize = 15;

/// How often the sender sends, in microseconds: sixty times a second.
pub const INTERVAL_US: u64 = 16_667;

/// The bytes of a message.
pub open spec fn message(channel: u16, seq: u32, now_us: u64) -> Seq<u8> {
    seq![CHAN] + le::field(channel as nat, 2) + le::field(seq as nat, 4) + le::field(
        now_us as nat,
        8,
    )
}

/// A message is at least so long and starts with its type.
pub open spec fn is_message(bytes: Seq<u8>) -> bool {
    bytes.len() >= LEN && bytes[0] == CHAN
}

/// Channel, sequence and send time of a message.
pub open spec fn parts(bytes: Seq<u8>) -> (u16, u32, u64) {
    (
        le::value(bytes.subrange(1, 3)) as u16,
        le::value(bytes.subrange(3, 7)) as u32,
        le::value(bytes.subrange(7, 15)) as u64,
    )
}

pub fn encode(channel: u16, seq: u32, now_us: u64) -> (r: [u8; LEN])
    ensures
        r@ == message(channel, seq, now_us),
{
    let c: [u8; 2] = le::u16_bytes(channel);
    let s: [u8; 4] = le::u32_bytes(seq);
    let t: [u8; 8] = le::u64_bytes(now_us);
    let r: [u8; LEN] = [
        CHAN,
        c[0],
        c[1],
        s[0],
        s[1],
        s[2],
        s[3],
        t[0],
        t[1],
        t[2],
        t[3],
        t[4],
        t[5],
        t[6],
        t[7],
    ];
    assert(r@ =~= message(channel, seq, now_us));
    r
}

/// Channel, sequence and send time, or nothing if this is not a message.
pub fn decode(bytes: &[u8]) -> (r: Option<(u16, u32, u64)>)
    ensures
        r == if is_message(bytes@) {
            Some(parts(bytes@))
        } else {
            None
        },
{
    if bytes.len() < LEN || bytes[0] != CHAN {
        return None;
    }
    proof {
        le::reaches();
    }
    let channel: u64 = le::read(bytes, 1, 2);
    let seq: u64 = le::read(bytes, 3, 4);
    let sent: u64 = le::read(bytes, 7, 8);
    Some((channel as u16, seq as u32, sent))
}

/// What was encoded is decoded again, also with more behind it.
pub proof fn decoding_undoes_encoding(channel: u16, seq: u32, now_us: u64, rest: Seq<u8>)
    ensures
        message(channel, seq, now_us).len() == LEN,
        is_message(message(channel, seq, now_us) + rest),
        parts(message(channel, seq, now_us) + rest) == (channel, seq, now_us),
{
    le::reaches();
    le::value_of_field(channel as nat, 2);
    le::value_of_field(seq as nat, 4);
    le::value_of_field(now_us as nat, 8);
    let m = message(channel, seq, now_us) + rest;
    assert(m.subrange(1, 3) =~= le::field(channel as nat, 2));
    assert(m.subrange(3, 7) =~= le::field(seq as nat, 4));
    assert(m.subrange(7, 15) =~= le::field(now_us as nat, 8));
}

/// What was decoded encodes to the bytes it came from.
pub proof fn encoding_undoes_decoding(bytes: Seq<u8>)
    requires
        is_message(bytes),
    ensures
        message(parts(bytes).0, parts(bytes).1, parts(bytes).2) == bytes.take(LEN as int),
{
    le::reaches();
    le::field_of_value(bytes.subrange(1, 3));
    le::field_of_value(bytes.subrange(3, 7));
    le::field_of_value(bytes.subrange(7, 15));
    le::value_is_within_reach(bytes.subrange(1, 3));
    le::value_is_within_reach(bytes.subrange(3, 7));
    le::value_is_within_reach(bytes.subrange(7, 15));
    assert(message(parts(bytes).0, parts(bytes).1, parts(bytes).2) =~= bytes.take(LEN as int));
}

/// What one receiver has seen.
pub struct Sink {
    /// The highest sequence seen, so that gaps are counted without a window.
    highest: Option<u32>,
    received: u32,
    /// Sequences that never arrived, counted from the gaps.
    missing: u32,
    /// Arrivals that came after a later one: late, not lost.
    reordered: u32,
    /// Arrivals of the newest message once more, after the first in a window.
    repeated: u32,
    last_arrival_us: Option<u64>,
    /// Spacing between arrivals, which is what tears a show when it varies.
    gaps: Histogram,
    /// The longest silence: one long hole is a visible freeze however good the
    /// average is.
    worst_gap_us: u64,
}

#[verifier::ext_equal]
pub struct SinkView {
    pub highest: Option<u32>,
    pub received: nat,
    pub missing: nat,
    pub reordered: nat,
    pub repeated: nat,
    pub last_arrival_us: Option<u64>,
    pub gaps: HistogramView,
    pub worst_gap_us: u64,
}

impl SinkView {
    /// Nothing seen yet.
    pub open spec fn fresh() -> SinkView {
        SinkView {
            highest: None,
            received: 0,
            missing: 0,
            reordered: 0,
            repeated: 0,
            last_arrival_us: None,
            gaps: HistogramView::fresh(),
            worst_gap_us: 0,
        }
    }

    /// The sequence position after `seq` arrived, and what that says of loss.
    pub open spec fn sequenced(self, seq: u32) -> SinkView {
        match self.highest {
            None => SinkView { highest: Some(seq), ..self },
            Some(highest) => if seq > highest {
                // Everything in between has not arrived.
                SinkView {
                    highest: Some(seq),
                    missing: (self.missing + seq - highest - 1) as nat,
                    ..self
                }
            } else if seq == highest {
                // The newest once more: neither late nor lost, and not sent once
                // more. The first arrival of a window is one of its messages.
                SinkView {
                    repeated: self.repeated + if self.received > 1 {
                        1nat
                    } else {
                        0nat
                    },
                    ..self
                }
            } else {
                // It was late and not lost: one that was counted comes back.
                SinkView {
                    reordered: self.reordered + 1,
                    missing: if self.missing > 0 {
                        (self.missing - 1) as nat
                    } else {
                        0
                    },
                    ..self
                }
            },
        }
    }

    /// The spacing after an arrival at `now_us`.
    pub open spec fn spaced(self, now_us: u64) -> SinkView {
        match self.last_arrival_us {
            None => SinkView { last_arrival_us: Some(now_us), ..self },
            Some(last) => {
                let gap = now_us.saturating_sub(last);
                SinkView {
                    last_arrival_us: Some(now_us),
                    gaps: self.gaps.with(gap as int),
                    worst_gap_us: if gap > self.worst_gap_us {
                        gap
                    } else {
                        self.worst_gap_us
                    },
                    ..self
                }
            },
        }
    }

    /// After the message `seq` arrived at `now_us`.
    pub open spec fn heard(self, now_us: u64, seq: u32) -> SinkView {
        SinkView { received: self.received + 1, ..self }.sequenced(seq).spaced(now_us)
    }

    /// After a datagram arrived at `now_us`. Anything that is not a message
    /// changes nothing.
    pub open spec fn after(self, now_us: u64, bytes: Seq<u8>) -> SinkView {
        if is_message(bytes) {
            self.heard(now_us, parts(bytes).1)
        } else {
            self
        }
    }

    /// A fresh window that keeps the sequence position and the last arrival.
    pub open spec fn windowed(self) -> SinkView {
        SinkView {
            highest: self.highest,
            last_arrival_us: self.last_arrival_us,
            ..SinkView::fresh()
        }
    }

    /// Everything that should have been seen: what came, repeats aside, and what
    /// did not.
    pub open spec fn expected(self) -> nat {
        if self.highest is Some {
            (self.received - self.repeated + self.missing) as nat
        } else {
            0
        }
    }

    pub open spec fn wf(self) -> bool {
        &&& self.gaps.wf()
        &&& self.reordered <= self.received <= u32::MAX
        &&& self.received == 0 ==> self.repeated == 0 && self.missing == 0
        &&& self.received > 0 ==> self.repeated < self.received
        &&& total(self.gaps.counts) <= self.received
        &&& match self.highest {
            Some(highest) => self.missing <= highest,
            None => self.missing == 0 && self.received == 0,
        }
    }

    /// Loss in hundredths of a percent.
    pub open spec fn loss(self) -> nat {
        self.missing * 10_000 / self.expected()
    }

    /// The figures of the window, or nothing if nothing was received.
    pub open spec fn report(self) -> Option<Report> {
        if self.expected() == 0 {
            None
        } else {
            Some(
                Report {
                    received: self.received as u32,
                    missing: self.missing as u32,
                    reordered: self.reordered as u32,
                    loss: self.loss() as u64,
                    within: self.loss() < 100,
                    p50: percentile_edge(self.gaps.counts, 50) as i64,
                    p95: percentile_edge(self.gaps.counts, 95) as i64,
                    p99: percentile_edge(self.gaps.counts, 99) as i64,
                    worst_gap_us: self.worst_gap_us,
                    over_two_frames: self.gaps.counted_from(TWO_FRAMES_US as int) as u32,
                },
            )
        }
    }
}

/// After a run of arrivals, each a time and a sequence.
pub open spec fn after_all(sink: SinkView, arrivals: Seq<(u64, u32)>) -> SinkView
    decreases arrivals.len(),
{
    if arrivals.len() == 0 {
        sink
    } else {
        after_all(sink, arrivals.drop_last()).heard(arrivals.last().0, arrivals.last().1)
    }
}

/// The sequences among a run of arrivals.
pub open spec fn seen(arrivals: Seq<(u64, u32)>) -> Set<int>
    decreases arrivals.len(),
{
    if arrivals.len() == 0 {
        Set::empty()
    } else {
        seen(arrivals.drop_last()).insert(arrivals.last().1 as int)
    }
}

/// No sequence of a run of arrivals is before the first, and none comes twice but
/// the newest.
pub open spec fn only_the_newest_repeats(arrivals: Seq<(u64, u32)>) -> bool
    decreases arrivals.len(),
{
    if arrivals.len() <= 1 {
        arrivals.len() == 1
    } else {
        let earlier = arrivals.drop_last();
        let seq = arrivals.last().1;
        &&& only_the_newest_repeats(earlier)
        &&& seq >= arrivals[0].1
        &&& seen(earlier).contains(seq as int) ==> forall|i: int|
            0 <= i < earlier.len() ==> (#[trigger] earlier[i]).1 <= seq
    }
}

/// Every sequence from the first arrival to the highest is counted once, as
/// received or as missing, in whatever order they arrived: what came late was
/// not lost, what was sent before the receiver joined was not either, and the
/// newest once more is no further one.
pub proof fn every_sequence_is_received_or_missing(arrivals: Seq<(u64, u32)>)
    requires
        only_the_newest_repeats(arrivals),
    ensures
        ({
            let sink = after_all(SinkView::fresh(), arrivals);
            &&& sink.received == arrivals.len()
            &&& seen(arrivals).finite()
            &&& sink.received - sink.repeated == seen(arrivals).len()
            &&& sink.highest matches Some(highest) && {
                &&& forall|i: int|
                    0 <= i < arrivals.len() ==> (#[trigger] arrivals[i]).1 <= highest
                &&& exists|i: int| 0 <= i < arrivals.len() && (#[trigger] arrivals[i]).1 == highest
                &&& seen(arrivals).contains(highest as int)
                &&& forall|x: int| #[trigger]
                    seen(arrivals).contains(x) ==> arrivals[0].1 <= x <= highest
                &&& sink.missing + seen(arrivals).len() == highest - arrivals[0].1 + 1
                &&& sink.expected() == highest - arrivals[0].1 + 1
            }
        }),
    decreases arrivals.len(),
{
    let earlier = arrivals.drop_last();
    let before = after_all(SinkView::fresh(), earlier);
    let last = arrivals.last();
    assert(last == arrivals[arrivals.len() - 1]);
    if arrivals.len() == 1 {
        assert(before == SinkView::fresh());
        assert(seen(earlier) == Set::<int>::empty());
    } else {
        assert(earlier[0] == arrivals[0]);
        every_sequence_is_received_or_missing(earlier);
        let highest = before.highest.unwrap();
        let w = choose|i: int| 0 <= i < earlier.len() && (#[trigger] earlier[i]).1 == highest;
        assert(arrivals[w].1 == highest);
        assert forall|i: int| 0 <= i < arrivals.len() implies (#[trigger] arrivals[i]).1 <= if last.1
            > highest {
            last.1
        } else {
            highest
        } by {
            if i < earlier.len() {
                assert(earlier[i].1 <= highest);
            }
        }
        let first = arrivals[0].1 as int;
        if last.1 < highest {
            if seen(earlier).contains(last.1 as int) {
                assert(earlier[w].1 <= last.1);
            }
            // One that had been counted as missing: there was one.
            let range = vstd::set_lib::set_int_range(first, highest + 1);
            vstd::set_lib::lemma_int_range(first, highest + 1);
            assert(seen(arrivals).subset_of(range));
            vstd::set_lib::lemma_len_subset(seen(arrivals), range);
        } else if last.1 == highest {
            assert(seen(arrivals) =~= seen(earlier));
        } else {
            assert(!seen(earlier).contains(last.1 as int));
        }
    }
}

/// A window starts with nothing counted, and goes on from the sequence that the
/// one before it had reached.
pub proof fn a_window_goes_on_from_the_last(sink: SinkView, now_us: u64, seq: u32)
    requires
        sink.highest is Some,
        seq > sink.highest.unwrap(),
    ensures
        sink.windowed().expected() == 0,
        sink.windowed().heard(now_us, seq).received == 1,
        sink.windowed().heard(now_us, seq).missing == seq - sink.highest.unwrap() - 1,
{
}

/// The newest message once more is neither late nor lost: it is one more that was
/// received, and no more are expected.
pub proof fn a_repeat_of_the_newest_is_neither_late_nor_lost(sink: SinkView, now_us: u64)
    requires
        sink.wf(),
        sink.highest is Some,
        sink.received > 0,
    ensures
        ({
            let after = sink.heard(now_us, sink.highest.unwrap());
            &&& after.highest == sink.highest
            &&& after.missing == sink.missing
            &&& after.reordered == sink.reordered
            &&& after.received == sink.received + 1
            &&& after.expected() == sink.expected()
        }),
{
}

/// The time from each of a run of arrivals to the one before it, the first of
/// them counted from `last`.
pub open spec fn spacing(last: Option<u64>, arrivals: Seq<(u64, u32)>) -> Seq<int>
    decreases arrivals.len(),
{
    if arrivals.len() == 0 {
        Seq::empty()
    } else {
        let earlier = spacing(last, arrivals.drop_last());
        match latest(last, arrivals.drop_last()) {
            Some(before) => earlier.push(arrivals.last().0.saturating_sub(before) as int),
            None => earlier,
        }
    }
}

/// When the last of a run of arrivals came, or `last` if there is none.
pub open spec fn latest(last: Option<u64>, arrivals: Seq<(u64, u32)>) -> Option<u64> {
    if arrivals.len() == 0 {
        last
    } else {
        Some(arrivals.last().0)
    }
}

/// The histogram of a window is that of the gaps between its arrivals.
pub proof fn a_window_holds_its_gaps(sink: SinkView, arrivals: Seq<(u64, u32)>)
    ensures
        ({
            let after = after_all(sink.windowed(), arrivals);
            &&& after.gaps == histogram(spacing(sink.last_arrival_us, arrivals))
            &&& after.last_arrival_us == latest(sink.last_arrival_us, arrivals)
            &&& after.received == arrivals.len()
        }),
        spacing(sink.last_arrival_us, arrivals).len() <= arrivals.len(),
    decreases arrivals.len(),
{
    if arrivals.len() > 0 {
        let earlier = arrivals.drop_last();
        a_window_holds_its_gaps(sink, earlier);
        if let Some(before) = latest(sink.last_arrival_us, earlier) {
            histogram_of_one_more(
                spacing(sink.last_arrival_us, earlier),
                arrivals.last().0.saturating_sub(before) as int,
            );
        }
    }
}

/// What a window reports as over two frames is exactly how many of its gaps were
/// at least that long.
pub proof fn over_two_frames_counts_the_long_gaps(sink: SinkView, arrivals: Seq<(u64, u32)>)
    requires
        0 < arrivals.len() <= u32::MAX,
    ensures
        after_all(sink.windowed(), arrivals).report() matches Some(report)
            && report.over_two_frames == at_least(
            spacing(sink.last_arrival_us, arrivals),
            TWO_FRAMES_US as int,
        ),
{
    a_window_holds_its_gaps(sink, arrivals);
    a_window_has_a_position(sink, arrivals);
    count_above_counts_what_was_at_least_the_threshold(
        spacing(sink.last_arrival_us, arrivals),
        TWO_FRAMES_US as int,
    );
}

proof fn a_window_has_a_position(sink: SinkView, arrivals: Seq<(u64, u32)>)
    ensures
        after_all(sink.windowed(), arrivals).received == arrivals.len(),
        arrivals.len() == 0 ==> after_all(sink.windowed(), arrivals).repeated == 0,
        arrivals.len() > 0 ==> {
            &&& after_all(sink.windowed(), arrivals).highest is Some
            &&& after_all(sink.windowed(), arrivals).repeated < arrivals.len()
        },
    decreases arrivals.len(),
{
    if arrivals.len() > 0 {
        a_window_has_a_position(sink, arrivals.drop_last());
    }
}

/// The figures of one window.
#[derive(Clone, Copy, PartialEq, Eq, Debug)]
pub struct Report {
    pub received: u32,
    pub missing: u32,
    pub reordered: u32,
    /// Loss in hundredths of a percent.
    pub loss: u64,
    /// Whether the loss is below one percent.
    pub within: bool,
    /// Percentiles of the spacing between arrivals.
    pub p50: i64,
    pub p95: i64,
    pub p99: i64,
    pub worst_gap_us: u64,
    /// How many gaps were at least two frames long.
    pub over_two_frames: u32,
}

impl View for Sink {
    type V = SinkView;

    closed spec fn view(&self) -> SinkView {
        SinkView {
            highest: self.highest,
            received: self.received as nat,
            missing: self.missing as nat,
            reordered: self.reordered as nat,
            repeated: self.repeated as nat,
            last_arrival_us: self.last_arrival_us,
            gaps: self.gaps@,
            worst_gap_us: self.worst_gap_us,
        }
    }
}

impl Default for Sink {
    fn default() -> (r: Sink)
        ensures
            r@ == SinkView::fresh(),
            r@.wf(),
    {
        Sink::new()
    }
}

impl Sink {
    pub fn new() -> (r: Sink)
        ensures
            r@ == SinkView::fresh(),
            r@.wf(),
    {
        proof {
            total_of_empty(BUCKETS as nat);
        }
        Sink {
            highest: None,
            received: 0,
            missing: 0,
            reordered: 0,
            repeated: 0,
            last_arrival_us: None,
            gaps: Histogram::new(),
            worst_gap_us: 0,
        }
    }

    pub fn received(&self) -> (r: u32)
        ensures
            r == self@.received,
    {
        self.received
    }

    pub fn on_datagram(&mut self, now_us: u64, bytes: &[u8])
        requires
            old(self)@.wf(),
            is_message(bytes@) ==> old(self)@.received < u32::MAX,
        ensures
            final(self)@ == old(self)@.after(now_us, bytes@),
            final(self)@.wf(),
    {
        let seq: u32 = match decode(bytes) {
            Some((_, seq, _)) => seq,
            None => {
                return ;
            },
        };
        self.received = self.received + 1;
        match self.highest {
            None => {
                self.highest = Some(seq);
            },
            Some(highest) => {
                if seq > highest {
                    self.missing = self.missing + (seq - highest - 1);
                    self.highest = Some(seq);
                } else if seq < highest {
                    self.reordered = self.reordered + 1;
                    self.missing = self.missing.saturating_sub(1);
                } else if self.received > 1 {
                    self.repeated = self.repeated + 1;
                }
            },
        }
        if let Some(last) = self.last_arrival_us {
            let gap: u64 = now_us.saturating_sub(last);
            proof {
                total_after_one_more(self.gaps@.counts, bucket(gap as int));
            }
            // A silence too long for the type is as long as the type holds.
            self.gaps.add(
                if gap > i64::MAX as u64 {
                    i64::MAX
                } else {
                    gap as i64
                },
            );
            if gap > self.worst_gap_us {
                self.worst_gap_us = gap;
            }
        }
        self.last_arrival_us = Some(now_us);
        assert(self@ =~= old(self)@.after(now_us, bytes@));
    }

    /// Everything the sender sent that this receiver should have seen. Measured
    /// from the first arrival: a receiver that joined late did not lose what it
    /// was never sent. The newest message coming once more was not sent once more.
    pub fn expected(&self) -> (r: u64)
        requires
            self@.wf(),
        ensures
            r == self@.expected(),
    {
        match self.highest {
            Some(_) => (self.received - self.repeated) as u64 + self.missing as u64,
            None => 0,
        }
    }

    /// Start a fresh window, keeping the sequence position.
    ///
    /// Figures since boot never recover from a bad start, and steady state is
    /// the thing being measured.
    pub fn begin_window(&mut self)
        requires
            old(self)@.wf(),
        ensures
            final(self)@ == old(self)@.windowed(),
            final(self)@.wf(),
    {
        proof {
            total_of_empty(BUCKETS as nat);
        }
        self.received = 0;
        self.missing = 0;
        self.reordered = 0;
        self.repeated = 0;
        self.gaps = Histogram::new();
        self.worst_gap_us = 0;
        assert(self@ =~= old(self)@.windowed());
    }

    pub fn report(&self) -> (r: Option<Report>)
        requires
            self@.wf(),
        ensures
            r == self@.report(),
            r matches Some(report) ==> (report.within <==> report.missing * 100
                < self@.expected()),
    {
        proof {
            if self@.expected() > 0 {
                a_loss_is_a_share(self@.missing, self@.expected());
            }
        }
        let expected: u64 = self.expected();
        if expected == 0 {
            return None;
        }
        proof {
            no_more_are_counted_than_there_are(self.gaps@, TWO_FRAMES_US as int);
        }
        let loss: u64 = self.missing as u64 * 10_000 / expected;
        Some(
            Report {
                received: self.received,
                missing: self.missing,
                reordered: self.reordered,
                loss,
                within: loss < 100,
                p50: self.gaps.percentile(50),
                p95: self.gaps.percentile(95),
                p99: self.gaps.percentile(99),
                worst_gap_us: self.worst_gap_us,
                over_two_frames: self.gaps.count_above(TWO_FRAMES_US),
            },
        )
    }
}

/// The figures of a window follow from its arrivals alone. The messages it should
/// have seen are those from the first sequence to the highest; the missing ones are
/// those that did not arrive; and the window is within the criterion exactly if
/// fewer than one in a hundred are missing.
pub proof fn a_window_is_within_if_fewer_than_one_in_a_hundred_are_missing(
    arrivals: Seq<(u64, u32)>,
    highest: u32,
)
    requires
        arrivals.len() <= u32::MAX,
        only_the_newest_repeats(arrivals),
        forall|i: int| 0 <= i < arrivals.len() ==> (#[trigger] arrivals[i]).1 <= highest,
        exists|i: int| 0 <= i < arrivals.len() && (#[trigger] arrivals[i]).1 == highest,
    ensures
        ({
            let expected = highest - arrivals[0].1 + 1;
            let missing = expected - seen(arrivals).len();
            after_all(SinkView::fresh(), arrivals).report() matches Some(report) && {
                &&& report.within <==> missing * 100 < expected
                &&& report.received == arrivals.len()
                &&& report.missing == missing
                &&& report.loss * expected <= missing * 10_000 < (report.loss + 1) * expected
            }
        }),
{
    every_sequence_is_received_or_missing(arrivals);
    let sink = after_all(SinkView::fresh(), arrivals);
    let i = choose|i: int| 0 <= i < arrivals.len() && (#[trigger] arrivals[i]).1 == highest;
    assert(arrivals[i].1 <= sink.highest.unwrap());
    let j = choose|j: int|
        0 <= j < arrivals.len() && (#[trigger] arrivals[j]).1 == sink.highest.unwrap();
    assert(arrivals[j].1 <= highest);
    assert(sink.highest == Some(highest));
    a_loss_is_a_share(sink.missing, sink.expected());
}

proof fn a_loss_is_a_share(missing: nat, expected: nat)
    requires
        missing <= expected,
        expected > 0,
    ensures
        ({
            let loss = missing * 10_000 / expected;
            &&& loss * expected <= missing * 10_000 < (loss + 1) * expected
            &&& loss < 100 <==> missing * 100 < expected
            &&& loss <= 10_000
        }),
{
    let loss = (missing * 10_000 / expected) as int;
    let m = missing as int;
    let e = expected as int;
    vstd::arithmetic::div_mod::lemma_fundamental_div_mod(m * 10_000, e);
    vstd::arithmetic::div_mod::lemma_mod_bound(m * 10_000, e);
    assert((loss + 1) * e == e * loss + e && loss * e == e * loss) by (nonlinear_arith);
    assert(loss < 100 <==> m * 100 < e) by (nonlinear_arith)
        requires
            loss * e <= m * 10_000 < (loss + 1) * e,
            e > 0,
    ;
    assert(loss <= 10_000) by (nonlinear_arith)
        requires
            loss * e <= m * 10_000,
            m <= e,
            e > 0,
    ;
}

/// In any window, whatever came before it and in whatever order things arrive, the
/// criterion is met exactly if fewer than one in a hundred of the messages expected
/// are missing, and the loss is the share of them in hundredths of a percent.
pub proof fn a_report_judges_by_what_is_missing(sink: SinkView)
    requires
        sink.wf(),
    ensures
        sink.report() is Some <==> sink.received > 0,
        sink.report() matches Some(report) ==> {
            let expected = sink.received - sink.repeated + sink.missing;
            &&& report.within <==> report.missing * 100 < expected
            &&& report.loss * expected <= report.missing * 10_000 < (report.loss + 1) * expected
            &&& report.received == sink.received
            &&& report.missing == sink.missing
            &&& report.reordered == sink.reordered
            &&& report.worst_gap_us == sink.worst_gap_us
        },
{
    if sink.received > 0 {
        a_loss_is_a_share(sink.missing, sink.expected());
    }
}

/// The longest silence of a window is one of the gaps between its arrivals, and no
/// gap is longer. Without a gap there is none.
pub proof fn the_worst_gap_is_the_longest(sink: SinkView, arrivals: Seq<(u64, u32)>)
    ensures
        ({
            let after = after_all(sink.windowed(), arrivals);
            let gaps = spacing(sink.last_arrival_us, arrivals);
            &&& forall|i: int| 0 <= i < gaps.len() ==> #[trigger] gaps[i] <= after.worst_gap_us
            &&& gaps.len() > 0 ==> exists|i: int|
                0 <= i < gaps.len() && #[trigger] gaps[i] == after.worst_gap_us
            &&& gaps.len() == 0 ==> after.worst_gap_us == 0
        }),
    decreases arrivals.len(),
{
    if arrivals.len() > 0 {
        let earlier = arrivals.drop_last();
        the_worst_gap_is_the_longest(sink, earlier);
        a_window_holds_its_gaps(sink, earlier);
        let before = spacing(sink.last_arrival_us, earlier);
        let gaps = spacing(sink.last_arrival_us, arrivals);
        let held = after_all(sink.windowed(), earlier);
        if let Some(last) = latest(sink.last_arrival_us, earlier) {
            let gap = arrivals.last().0.saturating_sub(last);
            assert(gaps =~= before.push(gap as int));
            assert(gaps[before.len() as int] == gap);
            if before.len() > 0 {
                let i = choose|i: int|
                    0 <= i < before.len() && #[trigger] before[i] == held.worst_gap_us;
                assert(gaps[i] == before[i]);
            }
            assert forall|i: int| 0 <= i < gaps.len() implies #[trigger] gaps[i] <= after_all(
                sink.windowed(),
                arrivals,
            ).worst_gap_us by {
                if i < before.len() {
                    assert(gaps[i] == before[i]);
                }
            }
        }
    }
}

/// How many of a run of arrivals came after one with a later sequence.
pub open spec fn late(arrivals: Seq<(u64, u32)>) -> nat
    decreases arrivals.len(),
{
    if arrivals.len() == 0 {
        0
    } else {
        late(arrivals.drop_last()) + if exists|i: int|
            0 <= i < arrivals.len() && (#[trigger] arrivals[i]).1 > arrivals.last().1 {
            1nat
        } else {
            0nat
        }
    }
}

/// What is counted as reordered is what came after a later one, and nothing else
/// is; the position is the highest sequence there was.
pub proof fn what_comes_after_a_later_one_is_reordered(arrivals: Seq<(u64, u32)>)
    ensures
        ({
            let sink = after_all(SinkView::fresh(), arrivals);
            &&& sink.reordered == late(arrivals)
            &&& sink.received == arrivals.len()
            &&& sink.highest is Some <==> arrivals.len() > 0
            &&& sink.highest matches Some(highest) ==> {
                &&& forall|i: int|
                    0 <= i < arrivals.len() ==> (#[trigger] arrivals[i]).1 <= highest
                &&& exists|i: int| 0 <= i < arrivals.len() && (#[trigger] arrivals[i]).1 == highest
            }
        }),
    decreases arrivals.len(),
{
    if arrivals.len() > 0 {
        let earlier = arrivals.drop_last();
        what_comes_after_a_later_one_is_reordered(earlier);
        let before = after_all(SinkView::fresh(), earlier);
        let last = arrivals.last();
        assert(arrivals[arrivals.len() - 1] == last);
        if let Some(highest) = before.highest {
            let w = choose|i: int| 0 <= i < earlier.len() && (#[trigger] earlier[i]).1 == highest;
            assert(arrivals[w] == earlier[w]);
            assert forall|i: int| 0 <= i < earlier.len() implies (#[trigger] arrivals[i]).1
                <= highest by {
                assert(arrivals[i] == earlier[i]);
            }
        }
    }
}

/// A message is the type, then the channel, the sequence and the time, each least
/// significant byte first, and nothing behind them; anything else is none.
pub proof fn a_message_is_fifteen_bytes_of_its_type(bytes: Seq<u8>)
    ensures
        is_message(bytes) <==> bytes.len() >= 15 && bytes[0] == 0x21,
        is_message(bytes) ==> parts(bytes).0 == bytes[1] + 256 * bytes[2],
        is_message(bytes) ==> parts(bytes).1 == bytes[3] + 256 * bytes[4] + 65_536 * bytes[5]
            + 16_777_216 * bytes[6],
{
    if is_message(bytes) {
        le::two_bytes(bytes.subrange(1, 3));
        le::four_bytes(bytes.subrange(3, 7));
    }
}

/// The spacing that a window reports is that of its arrivals: three percentiles of
/// the gaps between them, how many were two frames or longer, and the longest.
pub proof fn a_window_reports_its_gaps(sink: SinkView, arrivals: Seq<(u64, u32)>)
    requires
        0 < arrivals.len() <= u32::MAX,
    ensures
        ({
            let gaps = spacing(sink.last_arrival_us, arrivals);
            let counts = histogram(gaps).counts;
            after_all(sink.windowed(), arrivals).report() matches Some(report) && {
                &&& report.p50 == percentile_edge(counts, 50)
                &&& report.p95 == percentile_edge(counts, 95)
                &&& report.p99 == percentile_edge(counts, 99)
                &&& report.over_two_frames == at_least(gaps, 33_334)
                &&& forall|i: int| 0 <= i < gaps.len() ==> #[trigger] gaps[i] <= report.worst_gap_us
                &&& gaps.len() > 0 ==> exists|i: int|
                    0 <= i < gaps.len() && #[trigger] gaps[i] == report.worst_gap_us
                &&& gaps.len() == 0 ==> report.worst_gap_us == 0
                &&& report.received == arrivals.len()
            }
        }),
{
    let gaps = spacing(sink.last_arrival_us, arrivals);
    over_two_frames_counts_the_long_gaps(sink, arrivals);
    the_worst_gap_is_the_longest(sink, arrivals);
    a_window_holds_its_gaps(sink, arrivals);
    an_edge_is_a_word(gaps, 50);
    an_edge_is_a_word(gaps, 95);
    an_edge_is_a_word(gaps, 99);
}

proof fn an_edge_is_a_word(gaps: Seq<int>, p: nat)
    requires
        gaps.len() <= u32::MAX,
    ensures
        -1 <= percentile_edge(histogram(gaps).counts, p) <= 1_000_000,
{
    crate::multicast::stats::a_percentile_is_the_first_edge_with_its_share_below(gaps, p, 250);
}

/// Each gap is the time from one arrival to the next, and none if time went back.
pub proof fn a_gap_is_between_two_arrivals(last: u64, arrivals: Seq<(u64, u32)>, i: int)
    requires
        0 <= i < arrivals.len(),
    ensures
        spacing(Some(last), arrivals).len() == arrivals.len(),
        ({
            let before = if i == 0 {
                last
            } else {
                arrivals[i - 1].0
            };
            spacing(Some(last), arrivals)[i] == if arrivals[i].0 >= before {
                arrivals[i].0 - before
            } else {
                0
            }
        }),
        spacing(None, arrivals) == spacing(Some(arrivals[0].0), arrivals.drop_first()),
    decreases arrivals.len(),
{
    every_arrival_but_the_first_leaves_a_gap(last, arrivals);
    if i < arrivals.len() - 1 {
        let earlier = arrivals.drop_last();
        assert(earlier[i] == arrivals[i]);
        if i > 0 {
            assert(earlier[i - 1] == arrivals[i - 1]);
        }
        every_arrival_but_the_first_leaves_a_gap(last, earlier);
        a_gap_is_between_two_arrivals(last, earlier, i);
        assert(spacing(Some(last), arrivals)[i] == spacing(Some(last), earlier)[i]);
    } else {
        every_arrival_but_the_first_leaves_a_gap(last, arrivals.drop_last());
        if i > 0 {
            assert(arrivals.drop_last().last() == arrivals[i - 1]);
        }
    }
    without_a_last_arrival_the_first_is_one(arrivals);
}

proof fn every_arrival_but_the_first_leaves_a_gap(last: u64, arrivals: Seq<(u64, u32)>)
    ensures
        spacing(Some(last), arrivals).len() == arrivals.len(),
    decreases arrivals.len(),
{
    if arrivals.len() > 0 {
        every_arrival_but_the_first_leaves_a_gap(last, arrivals.drop_last());
    }
}

proof fn without_a_last_arrival_the_first_is_one(arrivals: Seq<(u64, u32)>)
    requires
        arrivals.len() > 0,
    ensures
        spacing(None, arrivals) == spacing(Some(arrivals[0].0), arrivals.drop_first()),
    decreases arrivals.len(),
{
    let earlier = arrivals.drop_last();
    if earlier.len() > 0 {
        without_a_last_arrival_the_first_is_one(earlier);
        assert(earlier[0] == arrivals[0]);
        assert(earlier.drop_first() =~= arrivals.drop_first().drop_last());
        if earlier.len() == 1 {
            assert(arrivals.drop_first().drop_last().len() == 0);
            assert(earlier.last() == arrivals[0]);
        } else {
            assert(arrivals.drop_first().drop_last().last() == earlier.last());
        }
        assert(arrivals.drop_first().last() == arrivals.last());
    } else {
        assert(spacing(None, earlier) =~= Seq::<int>::empty());
        assert(arrivals.drop_first() =~= Seq::<(u64, u32)>::empty());
    }
}

/// One that arrives late was not lost: it takes one off what is missing, if anything
/// is, and is counted as reordered. The position stays.
pub proof fn a_late_arrival_was_not_lost(sink: SinkView, now_us: u64, seq: u32)
    requires
        sink.highest is Some,
        seq < sink.highest.unwrap(),
    ensures
        ({
            let after = sink.heard(now_us, seq);
            &&& after.received == sink.received + 1
            &&& after.reordered == sink.reordered + 1
            &&& sink.missing > 0 ==> after.missing == sink.missing - 1
            &&& sink.missing == 0 ==> after.missing == 0
            &&& after.repeated == sink.repeated
            &&& after.highest == sink.highest
        }),
{
}

/// One that arrives ahead leaves missing what it skipped, and is the new position.
pub proof fn what_is_skipped_is_missing(sink: SinkView, now_us: u64, seq: u32)
    requires
        sink.highest is Some,
        seq > sink.highest.unwrap(),
    ensures
        ({
            let after = sink.heard(now_us, seq);
            &&& after.received == sink.received + 1
            &&& after.missing == sink.missing + (seq - sink.highest.unwrap() - 1)
            &&& after.reordered == sink.reordered
            &&& after.repeated == sink.repeated
            &&& after.highest == Some(seq)
        }),
{
}

/// A window keeps the position and the time of the last arrival, and nothing else:
/// if the newest message comes once more at its start, that is the one message of the
/// window so far.
pub proof fn a_window_keeps_the_position_alone(sink: SinkView, now_us: u64)
    ensures
        sink.windowed().highest == sink.highest,
        sink.windowed().last_arrival_us == sink.last_arrival_us,
        sink.windowed().received == 0,
        sink.windowed().missing == 0,
        sink.windowed().reordered == 0,
        sink.windowed().repeated == 0,
        sink.windowed().worst_gap_us == 0,
        sink.windowed().gaps == HistogramView::fresh(),
        sink.highest matches Some(highest) ==> {
            let after = sink.windowed().heard(now_us, highest);
            after.expected() == 1 && after.missing == 0 && after.reordered == 0
        },
{
}

/// Every sequence of a run of arrivals is beyond `position`, and none comes twice but
/// the newest.
pub open spec fn beyond(position: u32, arrivals: Seq<(u64, u32)>) -> bool
    decreases arrivals.len(),
{
    arrivals.len() > 0 ==> {
        let earlier = arrivals.drop_last();
        let seq = arrivals.last().1;
        &&& beyond(position, earlier)
        &&& seq > position
        &&& seen(earlier).contains(seq as int) ==> forall|i: int|
            0 <= i < earlier.len() ==> (#[trigger] earlier[i]).1 <= seq
    }
}

/// In a later window the messages it should have seen are those beyond the position
/// that the one before it had reached: each is received or missing, and the window is
/// within the criterion exactly if fewer than one in a hundred of them are missing.
pub proof fn a_later_window_expects_what_is_beyond_the_last(
    sink: SinkView,
    position: u32,
    arrivals: Seq<(u64, u32)>,
)
    requires
        sink.highest == Some(position),
        0 < arrivals.len() <= u32::MAX,
        beyond(position, arrivals),
    ensures
        ({
            let after = after_all(sink.windowed(), arrivals);
            after.highest matches Some(highest) && {
                let expected = highest - position;
                let missing = expected - seen(arrivals).len();
                &&& forall|i: int|
                    0 <= i < arrivals.len() ==> (#[trigger] arrivals[i]).1 <= highest
                &&& exists|i: int| 0 <= i < arrivals.len() && (#[trigger] arrivals[i]).1 == highest
                &&& after.report() matches Some(report) && {
                    &&& report.within <==> missing * 100 < expected
                    &&& report.missing == missing
                    &&& report.received == arrivals.len()
                    &&& report.loss * expected <= missing * 10_000 < (report.loss + 1) * expected
                }
            }
        }),
{
    later_sequences_are_received_or_missing(sink, position, arrivals);
    let after = after_all(sink.windowed(), arrivals);
    a_loss_is_a_share(after.missing, after.expected());
}

proof fn later_sequences_are_received_or_missing(
    sink: SinkView,
    position: u32,
    arrivals: Seq<(u64, u32)>,
)
    requires
        sink.highest == Some(position),
        beyond(position, arrivals),
    ensures
        ({
            let after = after_all(sink.windowed(), arrivals);
            &&& after.received == arrivals.len()
            &&& seen(arrivals).finite()
            &&& after.received - after.repeated == seen(arrivals).len()
            &&& after.highest matches Some(highest) && {
                &&& highest >= position
                &&& arrivals.len() == 0 ==> highest == position
                &&& arrivals.len() > 0 ==> highest > position
                &&& forall|i: int|
                    0 <= i < arrivals.len() ==> (#[trigger] arrivals[i]).1 <= highest
                &&& arrivals.len() > 0 ==> exists|i: int|
                    0 <= i < arrivals.len() && (#[trigger] arrivals[i]).1 == highest
                &&& arrivals.len() > 0 ==> seen(arrivals).contains(highest as int)
                &&& forall|x: int| #[trigger]
                    seen(arrivals).contains(x) ==> position < x <= highest
                &&& after.missing + seen(arrivals).len() == highest - position
            }
        }),
    decreases arrivals.len(),
{
    if arrivals.len() > 0 {
        let earlier = arrivals.drop_last();
        let last = arrivals.last();
        assert(last == arrivals[arrivals.len() - 1]);
        later_sequences_are_received_or_missing(sink, position, earlier);
        let before = after_all(sink.windowed(), earlier);
        let highest = before.highest.unwrap();
        assert forall|i: int| 0 <= i < arrivals.len() implies (#[trigger] arrivals[i]).1 <= if last.1
            > highest {
            last.1
        } else {
            highest
        } by {
            if i < earlier.len() {
                assert(earlier[i].1 <= highest);
            }
        }
        if earlier.len() > 0 {
            let w = choose|i: int| 0 <= i < earlier.len() && (#[trigger] earlier[i]).1 == highest;
            assert(arrivals[w].1 == highest);
            if last.1 < highest {
                if seen(earlier).contains(last.1 as int) {
                    assert(earlier[w].1 <= last.1);
                }
                let range = vstd::set_lib::set_int_range(position + 1, highest + 1);
                vstd::set_lib::lemma_int_range(position + 1, highest + 1);
                assert(seen(arrivals).subset_of(range));
                vstd::set_lib::lemma_len_subset(seen(arrivals), range);
            } else if last.1 == highest {
                assert(seen(arrivals) =~= seen(earlier));
            } else {
                assert(!seen(earlier).contains(last.1 as int));
            }
        } else {
            assert(seen(earlier) == Set::<int>::empty());
        }
    }
}

/// How many of a run of arrivals came after one with a later sequence, or after a
/// position that was later.
pub open spec fn late_after(position: u32, arrivals: Seq<(u64, u32)>) -> nat
    decreases arrivals.len(),
{
    if arrivals.len() == 0 {
        0
    } else {
        late_after(position, arrivals.drop_last()) + if position > arrivals.last().1 || exists|
            i: int,
        | 0 <= i < arrivals.len() && (#[trigger] arrivals[i]).1 > arrivals.last().1 {
            1nat
        } else {
            0nat
        }
    }
}

/// In a later window, too, what is counted as reordered is what came after a later
/// one, in it or before it.
pub proof fn what_comes_after_a_later_window_is_reordered(
    sink: SinkView,
    position: u32,
    arrivals: Seq<(u64, u32)>,
)
    requires
        sink.highest == Some(position),
    ensures
        ({
            let after = after_all(sink.windowed(), arrivals);
            &&& after.reordered == late_after(position, arrivals)
            &&& after.highest matches Some(highest) && {
                &&& highest >= position
                &&& forall|i: int|
                    0 <= i < arrivals.len() ==> (#[trigger] arrivals[i]).1 <= highest
                &&& highest == position || exists|i: int|
                    0 <= i < arrivals.len() && (#[trigger] arrivals[i]).1 == highest
            }
        }),
    decreases arrivals.len(),
{
    if arrivals.len() > 0 {
        let earlier = arrivals.drop_last();
        what_comes_after_a_later_window_is_reordered(sink, position, earlier);
        let before = after_all(sink.windowed(), earlier);
        let last = arrivals.last();
        let highest = before.highest.unwrap();
        assert(arrivals[arrivals.len() - 1] == last);
        if highest != position {
            let w = choose|i: int| 0 <= i < earlier.len() && (#[trigger] earlier[i]).1 == highest;
            assert(arrivals[w] == earlier[w]);
        }
        assert forall|i: int| 0 <= i < earlier.len() implies (#[trigger] arrivals[i]).1
            <= highest by {
            assert(arrivals[i] == earlier[i]);
        }
    }
}

/// The first arrival of all is the position, and nothing before it is missing.
pub proof fn the_first_arrival_is_the_position(sink: SinkView, now_us: u64, seq: u32)
    requires
        sink.highest is None,
    ensures
        ({
            let after = sink.heard(now_us, seq);
            &&& after.highest == Some(seq)
            &&& after.received == sink.received + 1
            &&& after.missing == sink.missing
            &&& after.reordered == sink.reordered
            &&& after.repeated == sink.repeated
        }),
{
}

/// Whatever arrives is counted once by its sequence and once by its time, and what is
/// not a message is not counted at all.
pub proof fn only_messages_count(sink: SinkView, now_us: u64, bytes: Seq<u8>)
    ensures
        !(bytes.len() >= 15 && bytes[0] == 0x21) ==> sink.after(now_us, bytes) == sink,
        bytes.len() >= 15 && bytes[0] == 0x21 ==> {
            let after = sink.after(now_us, bytes);
            &&& after == sink.heard(now_us, parts(bytes).1)
            &&& after.received == sink.received + 1
            &&& after.last_arrival_us == Some(now_us)
        },
{
}

} // verus!
