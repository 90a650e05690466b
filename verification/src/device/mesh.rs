//! The shell's half of the mesh: carrying out what the core asks for, and
//! knowing where its peers live.
//!
//! The core addresses peers by a prefix and never sees an address. Every action
//! is carried out: a timer dropped is a node that stops, a send dropped is one
//! that never leads, a correction dropped is one that never syncs and says it
//! has.

use vstd::prelude::*;

use crate::device::clock::ClockView;
use crate::device::clock::ShowClock;
use crate::device::clock::STEP_ABOVE_US;
use crate::net::same_four;
use crate::net::Endpoint;
use crate::net::EVERYONE;

verus! {

/// The shortest time between two wakings, in microseconds.
pub const FLOOR_US: u64 = 1_000;

/// Peers a device remembers an address for.
pub const MAX_PEERS: usize = 8;

/// Where a peer lives.
#[derive(Clone, Copy, PartialEq, Eq, Debug)]
pub struct Peer {
    pub prefix: [u8; 4],
    pub addr: [u8; 4],
}

/// Where the first peer with `prefix` is, from `i` on, or past the end.
pub open spec fn place_from(peers: Seq<Peer>, prefix: [u8; 4], i: int) -> int
    decreases peers.len() - i,
{
    if i >= peers.len() || peers[i].prefix == prefix {
        i
    } else {
        place_from(peers, prefix, i + 1)
    }
}

/// Where the first peer with `prefix` is, or past the end.
pub open spec fn place(peers: Seq<Peer>, prefix: [u8; 4]) -> int {
    place_from(peers, prefix, 0)
}

proof fn place_from_is_first(peers: Seq<Peer>, prefix: [u8; 4], i: int)
    requires
        0 <= i <= peers.len(),
    ensures
        i <= place_from(peers, prefix, i) <= peers.len(),
        place_from(peers, prefix, i) < peers.len() ==> peers[place_from(
            peers,
            prefix,
            i,
        )].prefix == prefix,
        forall|j: int|
            i <= j < place_from(peers, prefix, i) ==> (#[trigger] peers[j]).prefix != prefix,
    decreases peers.len() - i,
{
    if i < peers.len() && peers[i].prefix != prefix {
        place_from_is_first(peers, prefix, i + 1);
    }
}

/// A place that comes before any other with the prefix is the first.
proof fn the_first_is_the_place(peers: Seq<Peer>, prefix: [u8; 4], i: int, at: int)
    requires
        0 <= i <= at <= peers.len(),
        at == peers.len() || peers[at].prefix == prefix,
        forall|j: int| i <= j < at ==> (#[trigger] peers[j]).prefix != prefix,
    ensures
        place_from(peers, prefix, i) == at,
    decreases peers.len() - i,
{
    if i < at {
        the_first_is_the_place(peers, prefix, i + 1, at);
    }
}

/// Where `prefix` lives, if that is known.
pub open spec fn address(peers: Seq<Peer>, prefix: [u8; 4]) -> Option<[u8; 4]> {
    if place(peers, prefix) < peers.len() {
        Some(peers[place(peers, prefix)].addr)
    } else {
        None
    }
}

/// The peers, oldest first, once `prefix` is known to live at `addr`. A known
/// one moves; a new one is added, and takes the place of the oldest if there
/// are already `limit`.
pub open spec fn remembered(
    peers: Seq<Peer>,
    limit: nat,
    prefix: [u8; 4],
    addr: [u8; 4],
) -> Seq<Peer> {
    let at = place(peers, prefix);
    if at < peers.len() {
        peers.update(at, Peer { prefix, addr })
    } else if peers.len() < limit || limit == 0 {
        peers.push(Peer { prefix, addr })
    } else {
        peers.drop_first().push(Peer { prefix, addr })
    }
}

/// No prefix is there twice.
pub open spec fn distinct(peers: Seq<Peer>) -> bool {
    forall|i: int, j: int|
        0 <= i < j < peers.len() ==> (#[trigger] peers[i]).prefix != (#[trigger] peers[j]).prefix
}

/// Where the first peer with `prefix` is, or past the end.
fn find(peers: &[Peer], prefix: &[u8; 4]) -> (r: usize)
    ensures
        r == place(peers@, *prefix),
        r <= peers@.len(),
{
    let mut i: usize = 0;
    while i < peers.len()
        invariant
            i <= peers@.len(),
            forall|j: int| 0 <= j < i ==> (#[trigger] peers@[j]).prefix != *prefix,
        decreases peers@.len() - i,
    {
        if same_four(&peers[i].prefix, prefix) {
            proof {
                the_first_is_the_place(peers@, *prefix, 0, i as int);
            }
            return i;
        }
        i = i + 1;
    }
    proof {
        the_first_is_the_place(peers@, *prefix, 0, i as int);
    }
    i
}

/// Prefix to address, learned from whoever talks to us.
pub struct PeerTable {
    known: Vec<Peer>,
    limit: usize,
}

impl View for PeerTable {
    type V = Seq<Peer>;

    closed spec fn view(&self) -> Seq<Peer> {
        self.known@
    }
}

impl PeerTable {
    pub closed spec fn limit(&self) -> nat {
        self.limit as nat
    }

    /// A table of at most `limit` peers; of any number if that is zero.
    pub fn new(limit: usize) -> (r: PeerTable)
        ensures
            r@ == Seq::<Peer>::empty(),
            r.limit() == limit,
    {
        PeerTable { known: Vec::new(), limit }
    }

    pub fn len(&self) -> (r: usize)
        ensures
            r == self@.len(),
    {
        self.known.len()
    }

    /// The peers, oldest first.
    pub fn peers(&self) -> (r: &[Peer])
        ensures
            r@ == self@,
    {
        self.known.as_slice()
    }

    /// Note where a peer lives, keyed by the prefix the core addresses it with.
    ///
    /// The oldest is overwritten once the table is full: losing the least
    /// recently added address only costs one retransmission.
    pub fn remember(&mut self, prefix: [u8; 4], addr: [u8; 4])
        ensures
            final(self)@ == remembered(old(self)@, old(self).limit(), prefix, addr),
            final(self).limit() == old(self).limit(),
    {
        let at: usize = find(self.known.as_slice(), &prefix);
        if at < self.known.len() {
            self.known.set(at, Peer { prefix, addr });
            return ;
        }
        if self.limit != 0 && self.known.len() >= self.limit {
            self.known.remove(0);
            assert(self.known@ =~= old(self)@.drop_first());
        }
        self.known.push(Peer { prefix, addr });
    }

    /// Where a peer lives, if it has been heard from.
    pub fn address(&self, prefix: [u8; 4]) -> (r: Option<[u8; 4]>)
        ensures
            r == address(self@, prefix),
    {
        let at: usize = find(self.known.as_slice(), &prefix);
        if at < self.known.len() {
            Some(self.known[at].addr)
        } else {
            None
        }
    }
}

/// A peer that was just heard from is known, at the address it was heard from.
pub proof fn a_peer_is_found_where_it_was_heard(
    peers: Seq<Peer>,
    limit: nat,
    prefix: [u8; 4],
    addr: [u8; 4],
)
    requires
        distinct(peers),
    ensures
        address(remembered(peers, limit, prefix, addr), prefix) == Some(addr),
        distinct(remembered(peers, limit, prefix, addr)),
        remembered(peers, limit, prefix, addr).len() <= if peers.len() <= limit && limit > 0 {
            limit
        } else {
            peers.len() + 1
        },
{
    let after = remembered(peers, limit, prefix, addr);
    place_from_is_first(peers, prefix, 0);
    let at = place(peers, prefix);
    if at < peers.len() {
        the_first_is_the_place(after, prefix, 0, at);
    } else {
        the_first_is_the_place(after, prefix, 0, after.len() - 1);
    }
}

/// Hearing from one peer forgets no other, except the oldest of a full table.
pub proof fn only_the_oldest_is_forgotten(
    peers: Seq<Peer>,
    limit: nat,
    prefix: [u8; 4],
    addr: [u8; 4],
    other: [u8; 4],
)
    requires
        distinct(peers),
        other != prefix,
        address(peers, other) is Some,
    ensures
        address(remembered(peers, limit, prefix, addr), other) == address(peers, other) || (
        address(peers, prefix) is None && limit > 0 && peers.len() >= limit && peers[0].prefix
            == other),
{
    let after = remembered(peers, limit, prefix, addr);
    place_from_is_first(peers, prefix, 0);
    place_from_is_first(peers, other, 0);
    let at = place(peers, prefix);
    let there = place(peers, other);
    if at < peers.len() || peers.len() < limit || limit == 0 {
        the_first_is_the_place(after, other, 0, there);
    } else if there > 0 {
        assert forall|j: int| 0 <= j < there - 1 implies (#[trigger] after[j]).prefix != other by {
            assert(after[j] == peers[j + 1]);
        }
        the_first_is_the_place(after, other, 0, there - 1);
    }
}

/// Who a datagram is for.
#[derive(Clone, Copy, PartialEq, Eq, Debug)]
pub enum Destination {
    Mesh,
    Peer([u8; 4]),
}

/// What the core asks for. Roles are the core's own; a datagram is known here by
/// the place of its action.
#[derive(PartialEq, Eq, Debug)]
pub enum Action<R> {
    SetTimer { in_us: u64 },
    Send { to: Destination },
    DisciplineClock { offset_us: i64 },
    RoleChanged { role: R },
    SyncAcquired,
    SyncLost,
}

/// A datagram to send: which action asked for it, and where it goes.
#[derive(Clone, Copy, PartialEq, Eq, Debug)]
pub struct Sending {
    pub action: usize,
    pub to: Endpoint,
}

/// Where a datagram goes.
///
/// To the mesh means to everyone and to each peer already known: addressing
/// peers directly loses less, and the broadcast finds those not known yet. A
/// peer never heard from has no address, and dropping is right: the core will
/// ask again.
pub open spec fn targets(to: Destination, peers: Seq<Peer>, port: u16) -> Seq<Endpoint> {
    match to {
        Destination::Mesh => seq![Endpoint { addr: EVERYONE, port }] + peers.map_values(
            |p: Peer| Endpoint { addr: p.addr, port },
        ),
        Destination::Peer(prefix) => match address(peers, prefix) {
            Some(addr) => seq![Endpoint { addr, port }],
            None => Seq::empty(),
        },
    }
}

/// What a run of actions sends, in order.
pub open spec fn sendings<R>(actions: Seq<Action<R>>, peers: Seq<Peer>, port: u16) -> Seq<Sending>
    decreases actions.len(),
{
    if actions.len() == 0 {
        Seq::empty()
    } else {
        sendings(actions.drop_last(), peers, port) + match actions.last() {
            Action::Send { to } => targets(to, peers, port).map_values(
                |e: Endpoint| Sending { action: (actions.len() - 1) as usize, to: e },
            ),
            _ => Seq::empty(),
        }
    }
}

/// The earliest of several timers, not the last: a core that asks for a short
/// time and then a long one wants waking after the short one.
pub open spec fn earliest<R>(actions: Seq<Action<R>>, now_us: u64) -> u64
    decreases actions.len(),
{
    if actions.len() == 0 {
        u64::MAX
    } else {
        let before = earliest(actions.drop_last(), now_us);
        match actions.last() {
            Action::SetTimer { in_us } => if now_us.saturating_add(in_us) < before {
                now_us.saturating_add(in_us)
            } else {
                before
            },
            _ => before,
        }
    }
}

/// When a run of actions wants waking next. Without a timer the core would
/// simply stop; the floor keeps a zero from spinning.
pub open spec fn waking<R>(actions: Seq<Action<R>>, now_us: u64) -> u64 {
    let at = earliest(actions, now_us);
    let floor = now_us.saturating_add(FLOOR_US);
    if at == u64::MAX || at < floor {
        floor
    } else {
        at
    }
}

/// The clock after a run of actions.
pub open spec fn clock_after<R>(actions: Seq<Action<R>>, clock: ClockView) -> ClockView
    decreases actions.len(),
{
    if actions.len() == 0 {
        clock
    } else {
        let before = clock_after(actions.drop_last(), clock);
        match actions.last() {
            Action::DisciplineClock { offset_us } => before.corrected(offset_us),
            _ => before,
        }
    }
}

/// How far back a run of actions takes the clock, if it does.
pub open spec fn fallback<R>(actions: Seq<Action<R>>, clock: ClockView) -> int {
    let after = clock_after(actions, clock);
    if after.now_us < clock.now_us {
        clock.now_us - after.now_us
    } else {
        0
    }
}

/// A deadline on a clock that was taken back by `by`: as far off as it was.
pub open spec fn sooner(at: u64, by: int) -> u64 {
    if at >= by {
        (at - by) as u64
    } else {
        0
    }
}

/// The role after a run of actions: the last one taken.
pub open spec fn role_after<R>(actions: Seq<Action<R>>, role: R) -> R
    decreases actions.len(),
{
    if actions.len() == 0 {
        role
    } else {
        match actions.last() {
            Action::RoleChanged { role: r } => r,
            _ => role_after(actions.drop_last(), role),
        }
    }
}

/// Whether the show clock is held after a run of actions.
pub open spec fn synced_after<R>(actions: Seq<Action<R>>, synced: bool) -> bool
    decreases actions.len(),
{
    if actions.len() == 0 {
        synced
    } else {
        match actions.last() {
            Action::SyncAcquired => true,
            Action::SyncLost => false,
            _ => synced_after(actions.drop_last(), synced),
        }
    }
}

/// Where a datagram goes, noted as asked for by `action`.
fn address_to(out: &mut Vec<Sending>, action: usize, to: Destination, peers: &[Peer], port: u16)
    ensures
        final(out)@ == old(out)@ + targets(to, peers@, port).map_values(
            |e: Endpoint| Sending { action, to: e },
        ),
{
    match to {
        Destination::Mesh => {
            out.push(Sending { action, to: Endpoint { addr: EVERYONE, port } });
            let ghost all = targets(to, peers@, port);
            let mut i: usize = 0;
            assert(out@ =~= old(out)@ + all.take(1).map_values(
                |e: Endpoint| Sending { action, to: e },
            ));
            while i < peers.len()
                invariant
                    i <= peers@.len(),
                    all == targets(Destination::Mesh, peers@, port),
                    out@ == old(out)@ + all.take(i + 1).map_values(
                        |e: Endpoint| Sending { action, to: e },
                    ),
                decreases peers@.len() - i,
            {
                out.push(Sending { action, to: Endpoint { addr: peers[i].addr, port } });
                i = i + 1;
                assert(out@ =~= old(out)@ + all.take(i + 1).map_values(
                    |e: Endpoint| Sending { action, to: e },
                ));
            }
            assert(all.take(i + 1) =~= all);
        },
        Destination::Peer(prefix) => {
            let at: usize = find(peers, &prefix);
            if at < peers.len() {
                out.push(Sending { action, to: Endpoint { addr: peers[at].addr, port } });
            }
            assert(out@ =~= old(out)@ + targets(to, peers@, port).map_values(
                |e: Endpoint| Sending { action, to: e },
            ));
        },
    }
}

/// Carry out what the mesh asked for. When it wants waking next, and what to
/// send.
pub fn apply_mesh<R: Copy>(
    actions: &[Action<R>],
    now_us: u64,
    peers: &[Peer],
    port: u16,
    clock: &mut ShowClock,
    role: &mut R,
    synced: &mut bool,
) -> (r: (u64, Vec<Sending>))
    requires
        old(clock)@.wf(),
    ensures
        r.0 == waking(actions@, now_us),
        r.1@ == sendings(actions@, peers@, port),
        final(clock)@ == clock_after(actions@, old(clock)@),
        final(clock)@.wf(),
        *final(role) == role_after(actions@, *old(role)),
        *final(synced) == synced_after(actions@, *old(synced)),
{
    let mut deadline: u64 = u64::MAX;
    let mut out: Vec<Sending> = Vec::new();
    let mut i: usize = 0;
    while i < actions.len()
        invariant
            i <= actions@.len(),
            deadline == earliest(actions@.take(i as int), now_us),
            out@ == sendings(actions@.take(i as int), peers@, port),
            clock@ == clock_after(actions@.take(i as int), old(clock)@),
            clock@.wf(),
            *role == role_after(actions@.take(i as int), *old(role)),
            *synced == synced_after(actions@.take(i as int), *old(synced)),
        decreases actions@.len() - i,
    {
        let ghost upto = actions@.take(i + 1);
        assert(upto.drop_last() =~= actions@.take(i as int));
        assert(upto.last() == actions@[i as int]);
        match &actions[i] {
            Action::SetTimer { in_us } => {
                let at: u64 = now_us.saturating_add(*in_us);
                if at < deadline {
                    deadline = at;
                }
            },
            Action::Send { to } => {
                address_to(&mut out, i, *to, peers, port);
            },
            Action::DisciplineClock { offset_us } => {
                clock.correct(*offset_us);
            },
            Action::RoleChanged { role: r } => {
                *role = *r;
            },
            Action::SyncAcquired => {
                *synced = true;
            },
            Action::SyncLost => {
                *synced = false;
            },
        }
        i = i + 1;
        assert(out@ =~= sendings(upto, peers@, port));
    }
    assert(actions@.take(i as int) =~= actions@);
    let floor: u64 = now_us.saturating_add(FLOOR_US);
    let at: u64 = if deadline == u64::MAX || deadline < floor {
        floor
    } else {
        deadline
    };
    (at, out)
}

/// The core is woken no later than any timer it set, unless that is sooner than
/// the floor.
pub proof fn no_timer_is_missed<R>(actions: Seq<Action<R>>, now_us: u64, i: int)
    requires
        0 <= i < actions.len(),
        actions[i] is SetTimer,
    ensures
        waking(actions, now_us) <= now_us.saturating_add(actions[i]->in_us) || waking(
            actions,
            now_us,
        ) == now_us.saturating_add(FLOOR_US),
        waking(actions, now_us) >= now_us.saturating_add(FLOOR_US),
{
    earliest_is_earliest(actions, now_us, i);
}

proof fn earliest_is_earliest<R>(actions: Seq<Action<R>>, now_us: u64, i: int)
    requires
        0 <= i < actions.len(),
        actions[i] is SetTimer,
    ensures
        earliest(actions, now_us) <= now_us.saturating_add(actions[i]->in_us),
    decreases actions.len(),
{
    if i < actions.len() - 1 {
        assert(actions.drop_last()[i] == actions[i]);
        earliest_is_earliest(actions.drop_last(), now_us, i);
    }
}

/// Every correction that a run of actions makes is small enough to be drift.
pub open spec fn only_drifts<R>(actions: Seq<Action<R>>, clock: ClockView) -> bool
    decreases actions.len(),
{
    if actions.len() == 0 {
        true
    } else {
        let before = clock_after(actions.drop_last(), clock);
        &&& only_drifts(actions.drop_last(), clock)
        &&& actions.last() matches Action::DisciplineClock { offset_us } ==> -STEP_ABOVE_US
            <= before.outstanding(offset_us) <= STEP_ABOVE_US
    }
}

/// Correcting drift never moves the clock by itself, and so never backwards.
pub proof fn correcting_drift_moves_nothing<R>(actions: Seq<Action<R>>, clock: ClockView)
    requires
        only_drifts(actions, clock),
    ensures
        clock_after(actions, clock).now_us == clock.now_us,
    decreases actions.len(),
{
    if actions.len() > 0 {
        correcting_drift_moves_nothing(actions.drop_last(), clock);
    }
}

/// Two nodes that differ by more than drift agree once one of them has taken the
/// other's time, whichever of them was ahead.
pub proof fn a_join_agrees_in_either_order<R>(clock: ClockView, other_us: u64, offset_us: i64)
    requires
        clock.pending_us == 0,
        offset_us == other_us - clock.now_us,
        offset_us > STEP_ABOVE_US || offset_us < -STEP_ABOVE_US,
    ensures
        clock_after(seq![Action::<R>::DisciplineClock { offset_us }], clock).now_us == other_us,
        clock_after(seq![Action::<R>::DisciplineClock { offset_us }], clock).pending_us == 0,
{
    let actions = seq![Action::<R>::DisciplineClock { offset_us }];
    assert(clock_after(actions.drop_last(), clock) == clock);
}

/// What the corrections of a run of actions come to.
pub open spec fn asked_for<R>(actions: Seq<Action<R>>) -> int
    decreases actions.len(),
{
    if actions.len() == 0 {
        0
    } else {
        asked_for(actions.drop_last()) + match actions.last() {
            Action::DisciplineClock { offset_us } => offset_us as int,
            _ => 0,
        }
    }
}

/// Every correction the core asks for is carried out, whichever sign it has: while
/// what is outstanding stays within what is drift, the correction outstanding
/// after a run of actions is the one before it and all that the run asked for.
/// Nothing else about the clock changes.
pub proof fn every_correction_is_carried_out<R>(actions: Seq<Action<R>>, clock: ClockView)
    requires
        forall|k: int|
            0 <= k <= actions.len() ==> -100_000 <= clock.pending_us + asked_for(
                #[trigger] actions.take(k),
            ) <= 100_000,
    ensures
        clock_after(actions, clock).pending_us == clock.pending_us + asked_for(actions),
        clock_after(actions, clock).now_us == clock.now_us,
        clock_after(actions, clock).last_raw_us == clock.last_raw_us,
        clock_after(actions, clock).carried == clock.carried,
    decreases actions.len(),
{
    assert(actions.take(actions.len() as int) =~= actions);
    if actions.len() > 0 {
        let earlier = actions.drop_last();
        assert forall|k: int| 0 <= k <= earlier.len() implies -100_000 <= clock.pending_us
            + asked_for(#[trigger] earlier.take(k)) <= 100_000 by {
            assert(earlier.take(k) =~= actions.take(k));
        }
        every_correction_is_carried_out(earlier, clock);
    }
}

/// Whether a correction is slewed or stepped, none of it is lost: what the clock
/// reads and what it still has to catch up on come to what they were and all that
/// was asked for.
pub proof fn no_correction_is_lost<R>(actions: Seq<Action<R>>, clock: ClockView)
    requires
        -100_000 <= clock.pending_us <= 100_000,
        forall|i: int|
            0 <= i < actions.len() && actions[i] is DisciplineClock ==> -(i64::MAX - 100_000)
                <= (#[trigger] actions[i])->offset_us <= i64::MAX - 100_000,
        forall|k: int|
            0 <= k <= actions.len() ==> 0 <= clock.now_us + clock.pending_us + asked_for(
                #[trigger] actions.take(k),
            ) <= u64::MAX,
    ensures
        ({
            let after = clock_after(actions, clock);
            &&& after.now_us + after.pending_us == clock.now_us + clock.pending_us + asked_for(
                actions,
            )
            &&& -100_000 <= after.pending_us <= 100_000
            &&& after.last_raw_us == clock.last_raw_us
        }),
    decreases actions.len(),
{
    assert(actions.take(actions.len() as int) =~= actions);
    if actions.len() > 0 {
        let earlier = actions.drop_last();
        assert forall|k: int| 0 <= k <= earlier.len() implies 0 <= clock.now_us + clock.pending_us
            + asked_for(#[trigger] earlier.take(k)) <= u64::MAX by {
            assert(earlier.take(k) =~= actions.take(k));
        }
        assert forall|i: int| 0 <= i < earlier.len() && earlier[i] is DisciplineClock implies -(
        i64::MAX - 100_000) <= (#[trigger] earlier[i])->offset_us <= i64::MAX - 100_000 by {
            assert(earlier[i] == actions[i]);
        }
        no_correction_is_lost(earlier, clock);
        assert(actions.last() == actions[actions.len() - 1]);
    }
}

/// The core is woken for a timer it set, or a millisecond from now: that long if
/// it set none, and no sooner than that.
pub proof fn the_core_is_woken_for_a_reason<R>(actions: Seq<Action<R>>, now_us: u64)
    ensures
        waking(actions, now_us) == now_us.saturating_add(1_000) || exists|i: int|
            0 <= i < actions.len() && actions[i] is SetTimer && waking(actions, now_us)
                == now_us.saturating_add((#[trigger] actions[i])->in_us),
        waking(actions, now_us) >= now_us.saturating_add(1_000),
        (forall|i: int| 0 <= i < actions.len() ==> !((#[trigger] actions[i]) is SetTimer))
            ==> waking(actions, now_us) == now_us.saturating_add(1_000),
        forall|i: int|
            0 <= i < actions.len() && actions[i] is SetTimer ==> waking(actions, now_us)
                <= now_us.saturating_add((#[trigger] actions[i])->in_us) || waking(actions, now_us)
                == now_us.saturating_add(1_000),
{
    earliest_is_a_timer(actions, now_us);
    assert forall|i: int| 0 <= i < actions.len() && actions[i] is SetTimer implies waking(
        actions,
        now_us,
    ) <= now_us.saturating_add((#[trigger] actions[i])->in_us) || waking(actions, now_us)
        == now_us.saturating_add(1_000) by {
        earliest_is_earliest(actions, now_us, i);
    }
}

proof fn earliest_is_a_timer<R>(actions: Seq<Action<R>>, now_us: u64)
    ensures
        earliest(actions, now_us) == u64::MAX || exists|i: int|
            0 <= i < actions.len() && actions[i] is SetTimer && earliest(actions, now_us)
                == now_us.saturating_add((#[trigger] actions[i])->in_us),
    decreases actions.len(),
{
    if actions.len() > 0 {
        let earlier = actions.drop_last();
        earliest_is_a_timer(earlier, now_us);
        if earliest(actions, now_us) == earliest(earlier, now_us) {
            if earliest(earlier, now_us) != u64::MAX {
                let i = choose|i: int|
                    0 <= i < earlier.len() && earlier[i] is SetTimer && earliest(earlier, now_us)
                        == now_us.saturating_add((#[trigger] earlier[i])->in_us);
                assert(actions[i] == earlier[i]);
            }
        } else {
            assert(actions[actions.len() - 1] == actions.last());
        }
    }
}

/// The last role taken is the role; without one it stays.
pub proof fn the_last_role_taken_is_the_role<R>(actions: Seq<Action<R>>, role: R, i: int)
    requires
        -1 <= i < actions.len(),
        i >= 0 ==> actions[i] is RoleChanged,
        forall|j: int| i < j < actions.len() ==> !((#[trigger] actions[j]) is RoleChanged),
    ensures
        role_after(actions, role) == if i >= 0 {
            actions[i]->role
        } else {
            role
        },
    decreases actions.len(),
{
    if actions.len() > 0 && i < actions.len() - 1 {
        let earlier = actions.drop_last();
        assert(!(actions[actions.len() - 1] is RoleChanged));
        assert forall|j: int| i < j < earlier.len() implies !((
        #[trigger] earlier[j]) is RoleChanged) by {
            assert(earlier[j] == actions[j]);
        }
        the_last_role_taken_is_the_role(earlier, role, i);
    }
}

/// The show clock is held if the last thing said of it is that it was acquired,
/// and not if it was lost; while nothing is said it stays as it was.
pub proof fn the_last_thing_said_of_the_clock_holds<R>(
    actions: Seq<Action<R>>,
    synced: bool,
    i: int,
)
    requires
        -1 <= i < actions.len(),
        i >= 0 ==> actions[i] is SyncAcquired || actions[i] is SyncLost,
        forall|j: int|
            i < j < actions.len() ==> !((#[trigger] actions[j]) is SyncAcquired)
                && !(actions[j] is SyncLost),
    ensures
        synced_after(actions, synced) == if i >= 0 {
            actions[i] is SyncAcquired
        } else {
            synced
        },
    decreases actions.len(),
{
    if actions.len() > 0 && i < actions.len() - 1 {
        let earlier = actions.drop_last();
        assert(!(actions[actions.len() - 1] is SyncAcquired));
        assert forall|j: int| i < j < earlier.len() implies !((
        #[trigger] earlier[j]) is SyncAcquired) && !(earlier[j] is SyncLost) by {
            assert(earlier[j] == actions[j]);
        }
        the_last_thing_said_of_the_clock_holds(earlier, synced, i);
    }
}

/// A peer lives where the table says, and nowhere if it is not in it.
pub proof fn an_address_is_that_of_the_peer(peers: Seq<Peer>, prefix: [u8; 4], addr: [u8; 4])
    requires
        distinct(peers),
    ensures
        address(peers, prefix) == Some(addr) <==> peers.contains(Peer { prefix, addr }),
        address(peers, prefix) is None <==> forall|i: int|
            0 <= i < peers.len() ==> (#[trigger] peers[i]).prefix != prefix,
{
    place_from_is_first(peers, prefix, 0);
    let at = place(peers, prefix);
    if peers.contains(Peer { prefix, addr }) {
        let i = choose|i: int| 0 <= i < peers.len() && peers[i] == (Peer { prefix, addr });
        assert(peers[i].prefix == prefix);
        assert(at <= i);
        if at < i {
            assert(peers[at].prefix != peers[i].prefix);
        }
    }
    if at < peers.len() {
        assert(peers[at].prefix == prefix);
    }
}

/// The table stays in the order in which peers were first heard from: one that is
/// known keeps its place, and a new one comes last. What is said of one changes
/// nothing that is known of another.
pub proof fn peers_stay_in_order(
    peers: Seq<Peer>,
    limit: nat,
    prefix: [u8; 4],
    addr: [u8; 4],
    i: int,
)
    requires
        distinct(peers),
        0 <= i < peers.len(),
    ensures
        ({
            let after = remembered(peers, limit, prefix, addr);
            &&& address(peers, prefix) is Some ==> {
                &&& after.len() == peers.len()
                &&& after[i] == if peers[i].prefix == prefix {
                    Peer { prefix, addr }
                } else {
                    peers[i]
                }
            }
            &&& address(peers, prefix) is None ==> {
                &&& after.last() == (Peer { prefix, addr })
                &&& limit == 0 || peers.len() < limit ==> after.len() == peers.len() + 1
                    && after[i] == peers[i]
                &&& 0 < limit <= peers.len() ==> after.len() == peers.len() && (i > 0
                    ==> after[i - 1] == peers[i])
            }
        }),
{
    place_from_is_first(peers, prefix, 0);
    let at = place(peers, prefix);
    if at < peers.len() && i != at {
        if i < at {
            assert(peers[i].prefix != peers[at].prefix);
        } else {
            assert(peers[at].prefix != peers[i].prefix);
        }
    }
}

/// A datagram for the mesh goes to everyone, and to every peer by itself.
pub proof fn the_mesh_is_everyone_and_each_peer<R>(
    actions: Seq<Action<R>>,
    peers: Seq<Peer>,
    port: u16,
    i: int,
)
    requires
        actions.len() <= usize::MAX,
        0 <= i < actions.len(),
        actions[i] == (Action::<R>::Send { to: Destination::Mesh }),
    ensures
        sendings(actions, peers, port).contains(
            Sending { action: i as usize, to: Endpoint { addr: [255u8, 255, 255, 255], port } },
        ),
        forall|k: int|
            0 <= k < peers.len() ==> sendings(actions, peers, port).contains(
                Sending {
                    action: i as usize,
                    to: Endpoint { addr: (#[trigger] peers[k]).addr, port },
                },
            ),
{
    let all = targets(Destination::Mesh, peers, port);
    assert(EVERYONE@ =~= [255u8, 255, 255, 255]@);
    assert(EVERYONE == [255u8, 255, 255, 255]);
    assert(all[0] == (Endpoint { addr: EVERYONE, port }));
    what_is_asked_for_is_sent(actions, peers, port, i, Destination::Mesh, 0);
    assert forall|k: int| 0 <= k < peers.len() implies sendings(actions, peers, port).contains(
        Sending { action: i as usize, to: Endpoint { addr: (#[trigger] peers[k]).addr, port } },
    ) by {
        assert(all[k + 1] == (Endpoint { addr: peers[k].addr, port }));
        what_is_asked_for_is_sent(actions, peers, port, i, Destination::Mesh, k + 1);
    }
}

/// A datagram for a peer goes to where it lives.
pub proof fn a_known_peer_is_sent_to<R>(
    actions: Seq<Action<R>>,
    peers: Seq<Peer>,
    port: u16,
    i: int,
    peer: Peer,
)
    requires
        actions.len() <= usize::MAX,
        distinct(peers),
        peers.contains(peer),
        0 <= i < actions.len(),
        actions[i] == (Action::<R>::Send { to: Destination::Peer(peer.prefix) }),
    ensures
        sendings(actions, peers, port).contains(
            Sending { action: i as usize, to: Endpoint { addr: peer.addr, port } },
        ),
{
    an_address_is_that_of_the_peer(peers, peer.prefix, peer.addr);
    assert(peer == (Peer { prefix: peer.prefix, addr: peer.addr }));
    what_is_asked_for_is_sent(actions, peers, port, i, Destination::Peer(peer.prefix), 0);
}

proof fn what_is_asked_for_is_sent<R>(
    actions: Seq<Action<R>>,
    peers: Seq<Peer>,
    port: u16,
    i: int,
    to: Destination,
    k: int,
)
    requires
        actions.len() <= usize::MAX,
        0 <= i < actions.len(),
        actions[i] == (Action::<R>::Send { to }),
        0 <= k < targets(to, peers, port).len(),
    ensures
        sendings(actions, peers, port).contains(
            Sending { action: i as usize, to: targets(to, peers, port)[k] },
        ),
    decreases actions.len(),
{
    let earlier = actions.drop_last();
    let before = sendings(earlier, peers, port);
    let all = sendings(actions, peers, port);
    let wanted = Sending { action: i as usize, to: targets(to, peers, port)[k] };
    if i < earlier.len() {
        assert(earlier[i] == actions[i]);
        what_is_asked_for_is_sent(earlier, peers, port, i, to, k);
        let at = choose|at: int| 0 <= at < before.len() && before[at] == wanted;
        assert(all[at] == wanted);
    } else {
        assert(actions.last() == actions[i]);
        assert(all[before.len() + k] == wanted);
    }
}

/// How many datagrams a run of actions is to send.
pub open spec fn datagrams<R>(actions: Seq<Action<R>>, peers: Seq<Peer>) -> nat
    decreases actions.len(),
{
    if actions.len() == 0 {
        0
    } else {
        datagrams(actions.drop_last(), peers) + match actions.last() {
            Action::Send { to: Destination::Mesh } => 1 + peers.len(),
            Action::Send { to: Destination::Peer(prefix) } => if exists|i: int|
                0 <= i < peers.len() && (#[trigger] peers[i]).prefix == prefix {
                1nat
            } else {
                0nat
            },
            _ => 0nat,
        }
    }
}

/// Nothing is sent that was not asked for: one datagram to everyone and one to
/// each peer for the mesh, one for a peer that is known and none for one that is
/// not, all on the port given and in the order of the actions.
pub proof fn nothing_else_is_sent<R>(actions: Seq<Action<R>>, peers: Seq<Peer>, port: u16)
    requires
        actions.len() <= usize::MAX,
        distinct(peers),
    ensures
        ({
            let sent = sendings(actions, peers, port);
            &&& sent.len() == datagrams(actions, peers)
            &&& forall|k: int|
                0 <= k < sent.len() ==> {
                    let s = #[trigger] sent[k];
                    &&& s.to.port == port
                    &&& s.action < actions.len()
                    &&& actions[s.action as int] is Send
                }
            &&& forall|j: int, k: int|
                0 <= j <= k < sent.len() ==> (#[trigger] sent[j]).action <= (
                #[trigger] sent[k]).action
        }),
    decreases actions.len(),
{
    if actions.len() > 0 {
        let earlier = actions.drop_last();
        nothing_else_is_sent(earlier, peers, port);
        let before = sendings(earlier, peers, port);
        let sent = sendings(actions, peers, port);
        assert forall|k: int| 0 <= k < sent.len() implies {
            let s = #[trigger] sent[k];
            &&& s.to.port == port
            &&& s.action < actions.len()
            &&& actions[s.action as int] is Send
        } by {
            if k < before.len() {
                assert(sent[k] == before[k]);
                assert(earlier[sent[k].action as int] == actions[sent[k].action as int]);
            } else {
                assert(actions.last() == actions[actions.len() - 1]);
            }
        }
        assert forall|j: int, k: int| 0 <= j <= k < sent.len() implies (#[trigger] sent[j]).action
            <= (#[trigger] sent[k]).action by {
            if k < before.len() {
                assert(sent[j] == before[j] && sent[k] == before[k]);
            } else if j < before.len() {
                assert(sent[j] == before[j]);
            }
        }
        if let Action::Send { to: Destination::Peer(prefix) } = actions.last() {
            place_from_is_first(peers, prefix, 0);
            let at = place(peers, prefix);
            if at < peers.len() {
                assert(peers[at].prefix == prefix);
            }
        }
    }
}

/// A deadline is as far off after the clock was taken back as it was before.
pub proof fn a_deadline_goes_back_with_the_clock<R>(
    actions: Seq<Action<R>>,
    clock: ClockView,
    at: u64,
)
    requires
        at >= clock.now_us,
    ensures
        ({
            let after = clock_after(actions, clock);
            let due = sooner(at, fallback(actions, clock));
            &&& after.now_us < clock.now_us ==> due - after.now_us == at - clock.now_us
            &&& after.now_us >= clock.now_us ==> due == at
        }),
{
}

/// A datagram for the mesh goes to everyone first, and then to each peer in the order
/// of the table; one for a peer goes to that peer once.
pub proof fn everyone_comes_before_each_peer(peers: Seq<Peer>, port: u16, k: int)
    requires
        0 <= k < peers.len(),
    ensures
        targets(Destination::Mesh, peers, port).len() == 1 + peers.len(),
        targets(Destination::Mesh, peers, port)[0].addr@ == seq![255u8, 255, 255, 255],
        targets(Destination::Mesh, peers, port)[0].port == port,
        targets(Destination::Mesh, peers, port)[1 + k] == (Endpoint { addr: peers[k].addr, port }),
        distinct(peers) ==> targets(Destination::Peer(peers[k].prefix), peers, port) == seq![
            Endpoint { addr: peers[k].addr, port },
        ],
{
    assert(EVERYONE@ =~= seq![255u8, 255, 255, 255]);
    if distinct(peers) {
        assert(peers[k] == (Peer { prefix: peers[k].prefix, addr: peers[k].addr }));
        an_address_is_that_of_the_peer(peers, peers[k].prefix, peers[k].addr);
    }
}

/// What is sent for a run of actions is what is sent for the first of them and then
/// for the rest.
pub proof fn each_action_sends_its_own<R>(
    actions: Seq<Action<R>>,
    peers: Seq<Peer>,
    port: u16,
    to: Destination,
)
    requires
        actions.len() < usize::MAX,
    ensures
        ({
            let more = sendings(actions.push(Action::Send { to }), peers, port);
            let sent = sendings(actions, peers, port);
            let own = targets(to, peers, port);
            &&& more.len() == sent.len() + own.len()
            &&& more.take(sent.len() as int) == sent
            &&& forall|k: int|
                0 <= k < own.len() ==> #[trigger] more[sent.len() + k] == (Sending {
                    action: actions.len() as usize,
                    to: own[k],
                })
        }),
{
    let all = actions.push(Action::Send { to });
    assert(all.drop_last() =~= actions);
    assert(all.last() == Action::<R>::Send { to });
    let more = sendings(all, peers, port);
    assert(more.take(sendings(actions, peers, port).len() as int) =~= sendings(
        actions,
        peers,
        port,
    ));
}

/// Each action does its own part, whatever came before it: a correction corrects the
/// clock, and nothing else moves it.
pub proof fn each_action_does_its_own_part<R>(
    actions: Seq<Action<R>>,
    action: Action<R>,
    clock: ClockView,
    role: R,
    synced: bool,
)
    ensures
        ({
            let more = actions.push(action);
            let before = clock_after(actions, clock);
            &&& action matches Action::DisciplineClock { offset_us } ==> clock_after(more, clock)
                == before.corrected(offset_us)
            &&& !(action is DisciplineClock) ==> clock_after(more, clock) == before
            &&& action matches Action::RoleChanged { role: taken } ==> role_after(more, role)
                == taken
            &&& !(action is RoleChanged) ==> role_after(more, role) == role_after(actions, role)
            &&& action is SyncAcquired ==> synced_after(more, synced)
            &&& action is SyncLost ==> !synced_after(more, synced)
            &&& !(action is SyncAcquired) && !(action is SyncLost) ==> synced_after(more, synced)
                == synced_after(actions, synced)
        }),
{
    assert(actions.push(action).drop_last() =~= actions);
    assert(actions.push(action).last() == action);
}

/// The core is never left asleep for good: it is woken before the end of time, unless
/// even a millisecond from now is that.
pub proof fn the_core_is_never_left_asleep<R>(actions: Seq<Action<R>>, now_us: u64)
    ensures
        waking(actions, now_us) == u64::MAX ==> now_us + 1_000 >= u64::MAX,
{
}

} // verus!
