//! The room manager: routes gateway messages to rooms and drives every
//! room's tick, snapshot pacing, and snapshot emission.
pub mod events;
pub mod physics;
pub mod room_state;

use vstd::prelude::*;

use crate::protocol::{CoinId, CoinState, FromNode, RoomEvent, RoomId, ToNode};
use crate::room::events::Event;
use crate::room::physics::{
    lemma_pusher_step_in_bounds, unique_coin_ids, CoinHandle, SpawnCommand,
};
use crate::room::room_state::{
    after_tick_begin, after_tick_finish, begin_spawns, delta_added, delta_removed, delta_updated,
    apply_events, finish_out_events_ok, initial_room, lemma_after_tick_begin_frame,
    lemma_apply_events_frame, saturating_add_u64, snapshot_interval_us, RoomState, RoomView,
    KEYFRAME_DELTA_LIMIT,
};

verus! {

/// Everything the integrator must do for one room before it steps: create
/// the listed coin bodies, then move the pusher platform to `push_z`.
pub struct RoomTickPlan {
    pub room_id: RoomId,
    pub spawns: Vec<SpawnCommand>,
    /// The pusher target for this step, in 10^-4 m.
    pub push_z: i32,
}

/// One room's coin states as the integrator reports them after stepping.
pub struct RoomObservation {
    pub room_id: RoomId,
    pub coins: Vec<CoinState>,
}

/// The coins one room removed this tick; the integrator must drop their
/// bodies.
pub struct RoomRemovals {
    pub room_id: RoomId,
    pub removed: Vec<CoinId>,
}

/// Multiplexes rooms: routes inbound messages and drives the shared tick.
pub struct RoomManager {
    pub rooms: Vec<RoomState>,
}

impl RoomManager {
    /// Well-formedness: every room is well-formed, no room has run past
    /// the keyframe limit, and room ids are unique.
    pub open spec fn wf(self) -> bool {
        &&& forall|i: int|
            0 <= i < self.rooms@.len() ==> (#[trigger] self.rooms@[i])@.wf() && self.rooms@[i]@
                .delta_count <= KEYFRAME_DELTA_LIMIT
        &&& forall|i: int, j: int|
            #![trigger self.rooms@[i], self.rooms@[j]]
            0 <= i < j < self.rooms@.len() ==> self.rooms@[i].id@ != self.rooms@[j].id@
    }

    /// Whether a room with this id exists.
    pub open spec fn has_room(self, id: Seq<char>) -> bool {
        exists|i: int| 0 <= i < self.rooms@.len() && (#[trigger] self.rooms@[i]).id@ == id
    }

    /// The index of the room with this id.
    pub open spec fn room_index(self, id: Seq<char>) -> int
        recommends
            self.has_room(id),
    {
        choose|i: int| 0 <= i < self.rooms@.len() && (#[trigger] self.rooms@[i]).id@ == id
    }
}

/// The rooms after queueing `e` for room `id`: that room's queue grows by
/// one event; a message for an unknown room is dropped.
pub open spec fn rooms_after_enqueue(
    old_rooms: Seq<RoomState>,
    new_rooms: Seq<RoomState>,
    id: Seq<char>,
    e: Event,
    idx: int,
) -> bool {
    &&& new_rooms.len() == old_rooms.len()
    &&& forall|j: int|
        0 <= j < old_rooms.len() && j != idx ==> #[trigger] new_rooms[j] == old_rooms[j]
    &&& new_rooms[idx]@ == (RoomView { queue: old_rooms[idx]@.queue.push(e), ..old_rooms[idx]@ })
}

/// The coin report for room `id`: the first observation naming it, or
/// nothing.
pub open spec fn obs_for(observations: Seq<RoomObservation>, id: Seq<char>) -> Seq<CoinState>
    decreases observations.len(),
{
    if observations.len() == 0 {
        Seq::empty()
    } else if observations[0].room_id@ == id {
        observations[0].coins@
    } else {
        obs_for(observations.subrange(1, observations.len() as int), id)
    }
}

/// Whether any observation names room `id`.
pub open spec fn has_observation(observations: Seq<RoomObservation>, id: Seq<char>) -> bool
    decreases observations.len(),
{
    if observations.len() == 0 {
        false
    } else if observations[0].room_id@ == id {
        true
    } else {
        has_observation(observations.subrange(1, observations.len() as int), id)
    }
}

/// Skipping entries that do not name `id` changes neither lookup.
proof fn lemma_obs_for_skip(observations: Seq<RoomObservation>, id: Seq<char>, k: int)
    requires
        0 <= k <= observations.len(),
        forall|t: int| 0 <= t < k ==> (#[trigger] observations[t]).room_id@ != id,
    ensures
        obs_for(observations, id) == obs_for(
            observations.subrange(k, observations.len() as int),
            id,
        ),
        has_observation(observations, id) == has_observation(
            observations.subrange(k, observations.len() as int),
            id,
        ),
    decreases k,
{
    if k == 0 {
        assert(observations.subrange(0, observations.len() as int) =~= observations);
    } else {
        lemma_obs_for_skip(observations, id, k - 1);
        let s1 = observations.subrange(k - 1, observations.len() as int);
        assert(s1[0] == observations[k - 1]);
        assert(s1.subrange(1, s1.len() as int) =~= observations.subrange(
            k,
            observations.len() as int,
        ));
    }
}

/// Finds the coin report for room `id`: the first observation naming it.
fn find_observation<'a>(observations: &'a Vec<RoomObservation>, id: &RoomId) -> (r: Option<
    &'a Vec<CoinState>,
>)
    requires
        forall|k: int|
            0 <= k < observations@.len() ==> unique_coin_ids(
                (#[trigger] observations@[k]).coins@,
            ),
    ensures
        match r {
            Some(c) => has_observation(observations@, id@) && c@ == obs_for(observations@, id@)
                && unique_coin_ids(c@),
            None => !has_observation(observations@, id@) && obs_for(observations@, id@)
                == Seq::<CoinState>::empty(),
        },
{
    let mut k: usize = 0;
    while k < observations.len()
        invariant
            k <= observations@.len(),
            forall|t: int| 0 <= t < k ==> (#[trigger] observations@[t]).room_id@ != id@,
            forall|t: int|
                0 <= t < observations@.len() ==> unique_coin_ids(
                    (#[trigger] observations@[t]).coins@,
                ),
        decreases observations@.len() - k,
    {
        if observations[k].room_id == *id {
            proof {
                lemma_obs_for_skip(observations@, id@, k as int);
                let s = observations@.subrange(k as int, observations@.len() as int);
                assert(s[0] == observations@[k as int]);
            }
            return Some(&observations[k].coins);
        }
        k += 1;
    }
    proof {
        lemma_obs_for_skip(observations@, id@, observations@.len() as int);
    }
    None
}

/// Copies a coin state list.
fn copy_coin_states(v: &Vec<CoinState>) -> (r: Vec<CoinState>)
    ensures
        r@ == v@,
{
    let mut r: Vec<CoinState> = Vec::new();
    let mut i: usize = 0;
    while i < v.len()
        invariant
            i <= v@.len(),
            r@ == v@.subrange(0, i as int),
        decreases v@.len() - i,
    {
        proof {
            assert(v@.subrange(0, i + 1 as int) =~= v@.subrange(0, i as int).push(v@[i as int]));
        }
        let c = v[i];
        r.push(c);
        i += 1;
    }
    proof {
        assert(v@.subrange(0, v@.len() as int) =~= v@);
    }
    r
}

/// Snapshot pacing on a finished room, using the step length stashed when
/// the tick began: the room after the clock update, and whether a
/// snapshot goes out.
pub open spec fn pace(v: RoomView) -> (RoomView, bool) {
    let sum = saturating_add_u64(v.accumulated, v.pending_dt);
    if v.config.snapshot_rate == 0 {
        (RoomView { accumulated: sum, ..v }, false)
    } else {
        let iv = snapshot_interval_us(v.config.snapshot_rate);
        if sum >= iv {
            (RoomView { accumulated: (sum - iv) as u64, ..v }, true)
        } else {
            (RoomView { accumulated: sum, ..v }, false)
        }
    }
}

/// Whether a finished room's snapshot cadence is due this tick.
pub open spec fn room_emits(v: RoomView) -> bool {
    pace(v).1
}

/// Whether the room's next snapshot must be a full keyframe.
pub open spec fn keyframe_due(v: RoomView) -> bool {
    v.delta_count >= KEYFRAME_DELTA_LIMIT
}

/// The states of a room's live coins, in table order.
pub open spec fn room_coins(v: RoomView) -> Seq<CoinState> {
    v.physics.coins.map_values(|c: CoinHandle| c.state)
}

/// A finished room after pacing and, when due, emitting: the cache holds
/// what was just sent, and a keyframe resets the delta run while a delta
/// extends it.
pub open spec fn room_after_emit(v: RoomView) -> RoomView {
    let p = pace(v);
    if !p.1 {
        p.0
    } else if keyframe_due(v) {
        RoomView { cache: room_coins(v), delta_count: 0, ..p.0 }
    } else {
        RoomView { cache: room_coins(v), delta_count: (v.delta_count + 1) as u32, ..p.0 }
    }
}

/// The snapshot message an emitting room sends: a full keyframe carrying
/// every live coin when one is due, else the delta against the cache.
pub open spec fn is_room_snapshot_msg(m: ToNode, v: RoomView, events: Seq<RoomEvent>) -> bool {
    let coins = room_coins(v);
    if keyframe_due(v) {
        m matches ToNode::Snapshot { room_id, tick, push_z, coins: mc, events: me } && room_id@
            == v.id && tick == v.tick && push_z == v.physics.push_z && mc@ == coins && me@
            == events
    } else {
        m matches ToNode::DeltaSnapshot { room_id, tick, push_z, added, updated, removed, events: me }
            && room_id@ == v.id && tick == v.tick && push_z == v.physics.push_z && added@
            == delta_added(coins, v.cache) && updated@ == delta_updated(coins, v.cache)
            && removed@ == delta_removed(coins, v.cache) && me@ == events
    }
}

/// Each room entering a finish pass, after taking in its report.
pub open spec fn finish_views(rooms: Seq<RoomState>, observations: Seq<RoomObservation>) -> Seq<
    RoomView,
> {
    rooms.map_values(|r: RoomState| after_tick_finish(r@, obs_for(observations, r.id@)))
}

/// Each room after a whole tick driven without an integrator report.
pub open spec fn tick_views(rooms: Seq<RoomState>, dt: u64) -> Seq<RoomView> {
    rooms.map_values(|r: RoomState| after_tick_finish(after_tick_begin(r@, dt), Seq::empty()))
}

/// How many of the first `upto` rooms emit a snapshot.
pub open spec fn emit_count(views: Seq<RoomView>, upto: int) -> int
    decreases upto,
{
    if upto <= 0 {
        0
    } else {
        emit_count(views, upto - 1) + if room_emits(views[upto - 1]) {
            1int
        } else {
            0int
        }
    }
}

/// Counting emitting rooms grows by at most one per room and never
/// shrinks.
pub proof fn lemma_emit_count_mono(views: Seq<RoomView>, a: int, b: int)
    requires
        0 <= a <= b,
    ensures
        emit_count(views, a) <= emit_count(views, b),
        emit_count(views, b) <= emit_count(views, a) + (b - a),
    decreases b - a,
{
    if a < b {
        lemma_emit_count_mono(views, a, b - 1);
    }
}

/// What a finish pass appends to `out`: at most one snapshot per room, in
/// room order; an emitting room's message sits right after the messages of
/// the emitting rooms before it and carries that room's tick, pusher
/// position, coins or deltas, and room events.
pub open spec fn emitted_msgs_ok(
    pre_rooms: Seq<RoomState>,
    observations: Seq<RoomObservation>,
    old_out: Seq<ToNode>,
    new_out: Seq<ToNode>,
) -> bool {
    let vs = finish_views(pre_rooms, observations);
    &&& new_out.len() == old_out.len() + emit_count(vs, pre_rooms.len() as int)
    &&& old_out.is_prefix_of(new_out)
    &&& forall|i: int|
        #![trigger vs[i]]
        0 <= i < pre_rooms.len() && room_emits(vs[i]) ==> exists|ev: Seq<RoomEvent>|
            #[trigger] finish_out_events_ok(
                pre_rooms[i]@,
                obs_for(observations, pre_rooms[i].id@),
                Seq::empty(),
                ev,
            ) && is_room_snapshot_msg(new_out[old_out.len() + emit_count(vs, i)], vs[i], ev)
}

/// Tick monotonicity: one whole tick — events, step, pacing, emission —
/// advances a room's counter by exactly one, whatever else happens, so a
/// room born at zero reads K after K ticks.
pub proof fn lemma_tick_advances_counter(v: RoomView, dt: u64, obs: Seq<CoinState>)
    requires
        v.tick < u64::MAX,
    ensures
        room_after_emit(after_tick_finish(after_tick_begin(v, dt), obs)).tick == v.tick + 1,
{
    lemma_after_tick_begin_frame(v, dt);
}

/// A room after a run of whole ticks, each with its step length and its
/// integrator report.
pub open spec fn room_after_ticks(v: RoomView, steps: Seq<(u64, Seq<CoinState>)>) -> RoomView
    decreases steps.len(),
{
    if steps.len() == 0 {
        v
    } else {
        let prev = room_after_ticks(v, steps.drop_last());
        room_after_emit(after_tick_finish(after_tick_begin(prev, steps.last().0), steps.last().1))
    }
}

/// Tick monotonicity over a whole run: a room subjected to K ticks reads
/// K more on its counter, whatever the step lengths and reports were —
/// so a room born at zero reads exactly K after K ticks.
pub proof fn lemma_tick_counter_counts(v: RoomView, steps: Seq<(u64, Seq<CoinState>)>)
    requires
        v.tick + steps.len() <= u64::MAX,
    ensures
        room_after_ticks(v, steps).tick == v.tick + steps.len(),
    decreases steps.len(),
{
    if steps.len() > 0 {
        lemma_tick_counter_counts(v, steps.drop_last());
        lemma_tick_advances_counter(
            room_after_ticks(v, steps.drop_last()),
            steps.last().0,
            steps.last().1,
        );
    }
}

/// Pusher bounds: whenever the configured oscillation interval is
/// non-empty, the pusher's Z after any whole tick lies inside it,
/// wherever it started.
pub proof fn lemma_tick_keeps_pusher_in_bounds(v: RoomView, dt: u64, obs: Seq<CoinState>)
    requires
        v.physics.config.push_min_z <= v.physics.config.push_max_z,
    ensures
        ({
            let r = room_after_emit(after_tick_finish(after_tick_begin(v, dt), obs));
            v.physics.config.push_min_z <= r.physics.push_z <= v.physics.config.push_max_z
        }),
{
    let t = if v.tick < u64::MAX {
        (v.tick + 1) as u64
    } else {
        u64::MAX
    };
    let v1 = RoomView { tick: t, queue: Seq::empty(), pending_dt: dt, ..v };
    lemma_apply_events_frame(v1, v.queue);
    let ph = apply_events(v1, v.queue).physics;
    lemma_pusher_step_in_bounds(ph.config, ph.push_z, ph.push_dir, dt);
}

/// The delta counter after one snapshot emission: a keyframe starts a new
/// run, a delta extends the current one.
pub open spec fn next_delta_count(c: u32) -> u32 {
    if c >= KEYFRAME_DELTA_LIMIT {
        0
    } else {
        (c + 1) as u32
    }
}

/// The delta counter after `n` consecutive snapshot emissions.
pub open spec fn delta_count_after(c0: u32, n: nat) -> u32
    decreases n,
{
    if n == 0 {
        c0
    } else {
        next_delta_count(delta_count_after(c0, (n - 1) as nat))
    }
}

/// An emitting room's delta counter follows `next_delta_count`: emission
/// is full exactly when the counter has reached the keyframe limit.
pub proof fn lemma_emit_advances_delta_count(v: RoomView)
    requires
        room_emits(v),
    ensures
        room_after_emit(v).delta_count == next_delta_count(v.delta_count),
        keyframe_due(v) == (v.delta_count >= KEYFRAME_DELTA_LIMIT),
{
}

/// While no keyframe goes out, the delta counter just counts up.
proof fn lemma_delta_count_grows(c0: u32, n: nat)
    requires
        forall|k: nat| k < n ==> #[trigger] delta_count_after(c0, k) < KEYFRAME_DELTA_LIMIT,
    ensures
        delta_count_after(c0, n) as int == c0 + n,
    decreases n,
{
    if n > 0 {
        lemma_delta_count_grows(c0, (n - 1) as nat);
        assert(delta_count_after(c0, (n - 1) as nat) < KEYFRAME_DELTA_LIMIT);
    }
}

/// Keyframe cadence: over any window of 31 consecutive snapshot
/// emissions, at least one is a full keyframe — from any starting
/// counter, at most 30 deltas can go out in a row before the counter
/// reaches the limit.
pub proof fn lemma_keyframe_within_window(c0: u32)
    ensures
        exists|k: nat|
            k <= KEYFRAME_DELTA_LIMIT && #[trigger] delta_count_after(c0, k)
                >= KEYFRAME_DELTA_LIMIT,
{
    if forall|k: nat|
        k < KEYFRAME_DELTA_LIMIT ==> #[trigger] delta_count_after(c0, k) < KEYFRAME_DELTA_LIMIT {
        lemma_delta_count_grows(c0, KEYFRAME_DELTA_LIMIT as nat);
        assert(delta_count_after(c0, KEYFRAME_DELTA_LIMIT as nat) >= KEYFRAME_DELTA_LIMIT);
    } else {
        let k = choose|k: nat|
            !(k < KEYFRAME_DELTA_LIMIT ==> #[trigger] delta_count_after(c0, k)
                < KEYFRAME_DELTA_LIMIT);
        assert(delta_count_after(c0, k) >= KEYFRAME_DELTA_LIMIT);
    }
}

/// At most one snapshot per room per tick: two distinct emitting rooms'
/// messages sit at distinct offsets of `outgoing`, and the number of
/// appended messages never exceeds the number of rooms.
pub proof fn lemma_one_snapshot_per_room(views: Seq<RoomView>, i: int, j: int)
    requires
        0 <= i < j < views.len(),
        room_emits(views[i]),
    ensures
        emit_count(views, i) < emit_count(views, j),
        emit_count(views, views.len() as int) <= views.len(),
{
    assert(emit_count(views, i + 1) == emit_count(views, i) + 1);
    lemma_emit_count_mono(views, i + 1, j);
    lemma_emit_count_mono(views, 0, views.len() as int);
}

impl Default for RoomManager {
    /// An empty manager with no rooms.
    fn default() -> (r: Self)
        ensures
            r.wf(),
            r.rooms@.len() == 0,
    {
        RoomManager::new()
    }
}

/// Finds the room with this id.
fn find_room_index(rooms: &Vec<RoomState>, id: &RoomId) -> (r: Option<usize>)
    requires
        forall|i: int, j: int|
            #![trigger rooms@[i], rooms@[j]]
            0 <= i < j < rooms@.len() ==> rooms@[i].id@ != rooms@[j].id@,
    ensures
        match r {
            Some(k) => k < rooms@.len() && rooms@[k as int].id@ == id@ && (exists|i: int|
                0 <= i < rooms@.len() && (#[trigger] rooms@[i]).id@ == id@) && k as int == (
            choose|i: int| 0 <= i < rooms@.len() && (#[trigger] rooms@[i]).id@ == id@),
            None => !(exists|i: int| 0 <= i < rooms@.len() && (#[trigger] rooms@[i]).id@ == id@),
        },
{
    let mut k: usize = 0;
    while k < rooms.len()
        invariant
            k <= rooms@.len(),
            forall|t: int| 0 <= t < k ==> (#[trigger] rooms@[t]).id@ != id@,
            forall|i: int, j: int|
                #![trigger rooms@[i], rooms@[j]]
                0 <= i < j < rooms@.len() ==> rooms@[i].id@ != rooms@[j].id@,
        decreases rooms@.len() - k,
    {
        if rooms[k].id == *id {
            proof {
                let w = choose|i: int| 0 <= i < rooms@.len() && (#[trigger] rooms@[i]).id@ == id@;
                if w < k as int {
                    assert(rooms@[w].id@ != rooms@[k as int].id@);
                    assert(false);
                } else if w > k as int {
                    assert(rooms@[k as int].id@ != rooms@[w].id@);
                    assert(false);
                }
            }
            return Some(k);
        }
        k += 1;
    }
    proof {
        if exists|i: int| 0 <= i < rooms@.len() && (#[trigger] rooms@[i]).id@ == id@ {
            let w = choose|i: int| 0 <= i < rooms@.len() && (#[trigger] rooms@[i]).id@ == id@;
            assert(rooms@[w].id@ != id@);
            assert(false);
        }
    }
    None
}

impl RoomManager {
    /// An empty manager with no rooms.
    pub fn new() -> (r: RoomManager)
        ensures
            r.wf(),
            r.rooms@.len() == 0,
    {
        RoomManager { rooms: Vec::new() }
    }

    /// The number of live rooms.
    pub fn room_count(&self) -> (n: usize)
        ensures
            n == self.rooms@.len(),
    {
        self.rooms.len()
    }

    /// Routes one gateway message.
    ///
    /// `CreateRoom` builds a fresh room, replacing any room with the same
    /// id. `DestroyRoom` drops the room, silently when it is absent. The
    /// player messages queue the matching event on the room they name and
    /// are dropped when no such room exists. Nothing is emitted on
    /// `outgoing`.
    pub fn handle_msg_from_node(&mut self, msg: FromNode, outgoing: &mut Vec<ToNode>)
        requires
            old(self).wf(),
        ensures
            final(self).wf(),
            *final(outgoing) == *old(outgoing),
            match msg {
                FromNode::CreateRoom { room_id, config } => {
                    if old(self).has_room(room_id@) {
                        let idx = old(self).room_index(room_id@);
                        &&& final(self).rooms@.len() == old(self).rooms@.len()
                        &&& forall|j: int|
                            0 <= j < old(self).rooms@.len() && j != idx
                                ==> #[trigger] final(self).rooms@[j] == old(self).rooms@[j]
                        &&& final(self).rooms@[idx]@ == initial_room(room_id@, config)
                    } else {
                        &&& final(self).rooms@.len() == old(self).rooms@.len() + 1
                        &&& forall|j: int|
                            0 <= j < old(self).rooms@.len() ==> #[trigger] final(self).rooms@[j]
                                == old(self).rooms@[j]
                        &&& final(self).rooms@.last()@ == initial_room(room_id@, config)
                    }
                },
                FromNode::DestroyRoom { room_id } => {
                    if old(self).has_room(room_id@) {
                        final(self).rooms@ == old(self).rooms@.remove(
                            old(self).room_index(room_id@),
                        )
                    } else {
                        final(self).rooms@ == old(self).rooms@
                    }
                },
                FromNode::PlayerJoin { room_id, player_id } => {
                    if old(self).has_room(room_id@) {
                        rooms_after_enqueue(
                            old(self).rooms@,
                            final(self).rooms@,
                            room_id@,
                            Event::PlayerJoin { player_id },
                            old(self).room_index(room_id@),
                        )
                    } else {
                        final(self).rooms@ == old(self).rooms@
                    }
                },
                FromNode::PlayerLeave { room_id, player_id } => {
                    if old(self).has_room(room_id@) {
                        rooms_after_enqueue(
                            old(self).rooms@,
                            final(self).rooms@,
                            room_id@,
                            Event::PlayerLeave { player_id },
                            old(self).room_index(room_id@),
                        )
                    } else {
                        final(self).rooms@ == old(self).rooms@
                    }
                },
                FromNode::PlayerDropCoin { room_id, player_id, x, client_tick } => {
                    if old(self).has_room(room_id@) {
                        rooms_after_enqueue(
                            old(self).rooms@,
                            final(self).rooms@,
                            room_id@,
                            Event::PlayerDropCoin { player_id, x },
                            old(self).room_index(room_id@),
                        )
                    } else {
                        final(self).rooms@ == old(self).rooms@
                    }
                },
                FromNode::WalletResult { room_id, player_id, tx_id, ok } => {
                    if old(self).has_room(room_id@) {
                        rooms_after_enqueue(
                            old(self).rooms@,
                            final(self).rooms@,
                            room_id@,
                            Event::WalletResult { player_id, tx_id, ok },
                            old(self).room_index(room_id@),
                        )
                    } else {
                        final(self).rooms@ == old(self).rooms@
                    }
                },
            },
    {
        match msg {
            FromNode::CreateRoom { room_id, config } => {
                match find_room_index(&self.rooms, &room_id) {
                    Some(i) => {
                        let fresh = RoomState::new(room_id, config);
                        self.rooms.set(i, fresh);
                    },
                    None => {
                        let fresh = RoomState::new(room_id, config);
                        self.rooms.push(fresh);
                    },
                }
            },
            FromNode::DestroyRoom { room_id } => {
                match find_room_index(&self.rooms, &room_id) {
                    Some(i) => {
                        self.rooms.remove(i);
                    },
                    None => {},
                }
            },
            FromNode::PlayerJoin { room_id, player_id } => {
                self.enqueue(&room_id, Event::PlayerJoin { player_id });
            },
            FromNode::PlayerLeave { room_id, player_id } => {
                self.enqueue(&room_id, Event::PlayerLeave { player_id });
            },
            FromNode::PlayerDropCoin { room_id, player_id, x, client_tick: _ } => {
                self.enqueue(&room_id, Event::PlayerDropCoin { player_id, x });
            },
            FromNode::WalletResult { room_id, player_id, tx_id, ok } => {
                self.enqueue(&room_id, Event::WalletResult { player_id, tx_id, ok });
            },
        }
    }

    /// Runs the first half of a tick for every room: counters advance,
    /// queued events apply, pushers move. Returns one plan per room, in
    /// room order, telling the integrator what to do before it steps.
    pub fn tick_all_begin(&mut self, dt: u64) -> (plans: Vec<RoomTickPlan>)
        requires
            old(self).wf(),
        ensures
            final(self).wf(),
            final(self).rooms@.len() == old(self).rooms@.len(),
            forall|i: int|
                0 <= i < old(self).rooms@.len() ==> (#[trigger] final(self).rooms@[i])@
                    == after_tick_begin(old(self).rooms@[i]@, dt),
            plans@.len() == old(self).rooms@.len(),
            forall|i: int|
                0 <= i < old(self).rooms@.len() ==> {
                    &&& (#[trigger] plans@[i]).room_id@ == old(self).rooms@[i].id@
                    &&& plans@[i].spawns@ == begin_spawns(old(self).rooms@[i]@, dt)
                    &&& plans@[i].push_z == after_tick_begin(
                        old(self).rooms@[i]@,
                        dt,
                    ).physics.push_z
                },
    {
        let mut plans: Vec<RoomTickPlan> = Vec::new();
        let n = self.rooms.len();
        let mut i: usize = 0;
        while i < n
            invariant
                i <= n,
                n == old(self).rooms@.len(),
                self.rooms@.len() == n,
                forall|j: int| i <= j < n ==> #[trigger] self.rooms@[j] == old(self).rooms@[j],
                forall|j: int|
                    0 <= j < i ==> (#[trigger] self.rooms@[j])@ == after_tick_begin(
                        old(self).rooms@[j]@,
                        dt,
                    ),
                forall|j: int|
                    0 <= j < i ==> (#[trigger] self.rooms@[j])@.wf() && self.rooms@[j]@.delta_count
                        <= KEYFRAME_DELTA_LIMIT,
                forall|j: int|
                    0 <= j < i ==> (#[trigger] self.rooms@[j]).id@ == old(self).rooms@[j].id@,
                old(self).wf(),
                plans@.len() == i,
                forall|j: int|
                    0 <= j < i ==> {
                        &&& (#[trigger] plans@[j]).room_id@ == old(self).rooms@[j].id@
                        &&& plans@[j].spawns@ == begin_spawns(old(self).rooms@[j]@, dt)
                        &&& plans@[j].push_z == after_tick_begin(
                            old(self).rooms@[j]@,
                            dt,
                        ).physics.push_z
                    },
            decreases n - i,
        {
            let ghost pre = self.rooms@;
            proof {
                lemma_after_tick_begin_frame(old(self).rooms@[i as int]@, dt);
            }
            let mut room = self.rooms.remove(i);
            let spawns = room.tick_begin(dt);
            let push_z = room.physics.get_push_z();
            let plan = RoomTickPlan { room_id: room.id.clone(), spawns, push_z };
            plans.push(plan);
            self.rooms.insert(i, room);
            proof {
                assert forall|j: int| 0 <= j < n && j != i implies #[trigger] self.rooms@[j]
                    == pre[j] by {
                    assert(self.rooms@ == pre.remove(i as int).insert(
                        i as int,
                        self.rooms@[i as int],
                    ));
                }
            }
            i += 1;
        }
        plans
    }

    /// Runs the second half of a tick for every room: each room takes in
    /// its coin report (rooms without one keep their last known states),
    /// drops escaped coins, updates its snapshot clock, and — when its
    /// cadence is due — appends exactly one snapshot message to `outgoing`.
    pub fn tick_all_finish(
        &mut self,
        observations: &Vec<RoomObservation>,
        outgoing: &mut Vec<ToNode>,
    ) -> (removals: Vec<RoomRemovals>)
        requires
            old(self).wf(),
            forall|k: int|
                0 <= k < observations@.len() ==> unique_coin_ids(
                    (#[trigger] observations@[k]).coins@,
                ),
        ensures
            final(self).wf(),
            final(self).rooms@.len() == old(self).rooms@.len(),
            forall|i: int|
                0 <= i < old(self).rooms@.len() ==> (#[trigger] final(self).rooms@[i])@
                    == room_after_emit(finish_views(old(self).rooms@, observations@)[i]),
            emitted_msgs_ok(old(self).rooms@, observations@, old(outgoing)@, final(outgoing)@),
            removals@.len() == old(self).rooms@.len(),
            forall|i: int|
                0 <= i < old(self).rooms@.len() ==> (#[trigger] removals@[i]).room_id@
                    == old(self).rooms@[i].id@ && removals@[i].removed@ == old(
                    self,
                ).rooms@[i]@.physics.step_removed(
                    obs_for(observations@, old(self).rooms@[i].id@),
                ),
    {
        let mut removals: Vec<RoomRemovals> = Vec::new();
        let ghost vs = finish_views(old(self).rooms@, observations@);
        let ghost out0 = outgoing@;
        let empty_coins: Vec<CoinState> = Vec::new();
        let n = self.rooms.len();
        let mut i: usize = 0;
        while i < n
            invariant
                i <= n,
                n == old(self).rooms@.len(),
                self.rooms@.len() == n,
                vs == finish_views(old(self).rooms@, observations@),
                empty_coins@.len() == 0,
                forall|j: int| i <= j < n ==> #[trigger] self.rooms@[j] == old(self).rooms@[j],
                forall|j: int|
                    0 <= j < i ==> (#[trigger] self.rooms@[j])@ == room_after_emit(vs[j]),
                forall|j: int|
                    0 <= j < i ==> (#[trigger] self.rooms@[j])@.wf() && self.rooms@[j]@.delta_count
                        <= KEYFRAME_DELTA_LIMIT,
                forall|j: int|
                    0 <= j < i ==> (#[trigger] self.rooms@[j]).id@ == old(self).rooms@[j].id@,
                old(self).wf(),
                forall|k: int|
                    0 <= k < observations@.len() ==> unique_coin_ids(
                        (#[trigger] observations@[k]).coins@,
                    ),
                outgoing@.len() == out0.len() + emit_count(vs, i as int),
                out0.is_prefix_of(outgoing@),
                removals@.len() == i,
                forall|j: int|
                    0 <= j < i ==> (#[trigger] removals@[j]).room_id@ == old(self).rooms@[j].id@
                        && removals@[j].removed@ == old(self).rooms@[j]@.physics.step_removed(
                        obs_for(observations@, old(self).rooms@[j].id@),
                    ),
                forall|j: int|
                    #![trigger vs[j]]
                    0 <= j < i && room_emits(vs[j]) ==> exists|ev: Seq<RoomEvent>|
                        #[trigger] finish_out_events_ok(
                            old(self).rooms@[j]@,
                            obs_for(observations@, old(self).rooms@[j].id@),
                            Seq::empty(),
                            ev,
                        ) && is_room_snapshot_msg(outgoing@[out0.len() + emit_count(vs, j)], vs[j], ev),
            decreases n - i,
        {
            let ghost pre = self.rooms@;
            let ghost outpre = outgoing@;
            let mut room = self.rooms.remove(i);
            let obs_coins: &Vec<CoinState> = match find_observation(observations, &room.id) {
                Some(c) => c,
                None => &empty_coins,
            };
            proof {
                assert(obs_coins@ =~= obs_for(observations@, room.id@));
                assert(vs[i as int] == after_tick_finish(
                    old(self).rooms@[i as int]@,
                    obs_for(observations@, old(self).rooms@[i as int].id@),
                ));
            }
            let mut room_events: Vec<RoomEvent> = Vec::new();
            let removed_here = room.tick_finish(obs_coins, &mut room_events);
            removals.push(RoomRemovals { room_id: room.id.clone(), removed: removed_here });
            proof {
                assert(room@ == vs[i as int]);
            }
            let pdt = room.pending_dt;
            let send = room.accumulate_and_should_send_snapshot(pdt);
            proof {
                assert(send == room_emits(vs[i as int]));
                assert(room@ =~= pace(vs[i as int]).0);
            }
            if !send {
                self.rooms.insert(i, room);
                proof {
                    assert(emit_count(vs, i as int + 1) == emit_count(vs, i as int));
                    assert(self.rooms@[i as int]@ =~= room_after_emit(vs[i as int]));
                    assert forall|j: int| 0 <= j < n && j != i implies #[trigger] self.rooms@[j]
                        == pre[j] by {
                        assert(self.rooms@ == pre.remove(i as int).insert(
                            i as int,
                            self.rooms@[i as int],
                        ));
                    }
                }
            } else {
                let coins = room.physics.collect_coin_states();
                proof {
                    assert(coins@ =~= room_coins(vs[i as int]));
                    assert forall|a: int, b: int|
                        #![trigger coins@[a], coins@[b]]
                        0 <= a < b < coins@.len() implies coins@[a].id != coins@[b].id by {
                        assert(coins@[a] == room.physics@.coins[a].state);
                        assert(coins@[b] == room.physics@.coins[b].state);
                    }
                    assert(unique_coin_ids(coins@));
                }
                let push_z = room.physics.get_push_z();
                let full = room.should_send_full_snapshot();
                let tick_now = room.tick;
                let rid = room.id.clone();
                let ghost ev_w = room_events@;
                let ghost idx = out0.len() + emit_count(vs, i as int);
                if full {
                    let msg_coins = copy_coin_states(&coins);
                    let msg = ToNode::Snapshot {
                        room_id: rid,
                        tick: tick_now,
                        push_z,
                        coins: msg_coins,
                        events: room_events,
                    };
                    outgoing.push(msg);
                    proof {
                        assert(outgoing@[idx] == outgoing@.last());
                        assert(is_room_snapshot_msg(outgoing@[idx], vs[i as int], ev_w));
                    }
                    room.update_snapshot_cache(&coins);
                    room.reset_delta_count();
                } else {
                    let d = room.compute_delta(&coins);
                    let msg = ToNode::DeltaSnapshot {
                        room_id: rid,
                        tick: tick_now,
                        push_z,
                        added: d.0,
                        updated: d.1,
                        removed: d.2,
                        events: room_events,
                    };
                    outgoing.push(msg);
                    proof {
                        assert(outgoing@[idx] == outgoing@.last());
                        assert(is_room_snapshot_msg(outgoing@[idx], vs[i as int], ev_w));
                    }
                    room.update_snapshot_cache(&coins);
                    room.increment_delta_count();
                }
                self.rooms.insert(i, room);
                proof {
                    assert(self.rooms@[i as int]@ =~= room_after_emit(vs[i as int]));
                    assert forall|j: int| 0 <= j < n && j != i implies #[trigger] self.rooms@[j]
                        == pre[j] by {
                        assert(self.rooms@ == pre.remove(i as int).insert(
                            i as int,
                            self.rooms@[i as int],
                        ));
                    }
                    assert(finish_out_events_ok(
                        old(self).rooms@[i as int]@,
                        obs_for(observations@, old(self).rooms@[i as int].id@),
                        Seq::empty(),
                        ev_w,
                    ));
                    assert(emit_count(vs, i as int + 1) == emit_count(vs, i as int) + 1);
                    assert(outgoing@ == outpre.push(outgoing@.last()));
                    assert(out0.is_prefix_of(outgoing@));
                    assert forall|j: int|
                        #![trigger vs[j]]
                        0 <= j < i + 1 && room_emits(vs[j]) implies exists|ev: Seq<RoomEvent>|
                            #[trigger] finish_out_events_ok(
                                old(self).rooms@[j]@,
                                obs_for(observations@, old(self).rooms@[j].id@),
                                Seq::empty(),
                                ev,
                            ) && is_room_snapshot_msg(
                                outgoing@[out0.len() + emit_count(vs, j)],
                                vs[j],
                                ev,
                            ) by {
                        if j == i as int {
                            assert(finish_out_events_ok(
                                old(self).rooms@[j]@,
                                obs_for(observations@, old(self).rooms@[j].id@),
                                Seq::empty(),
                                ev_w,
                            ) && is_room_snapshot_msg(
                                outgoing@[out0.len() + emit_count(vs, j)],
                                vs[j],
                                ev_w,
                            ));
                        } else {
                            lemma_emit_count_mono(vs, 0, j);
                            lemma_emit_count_mono(vs, j + 1, i as int);
                            assert(emit_count(vs, j + 1) == emit_count(vs, j) + 1);
                            let ev = choose|ev: Seq<RoomEvent>|
                                #[trigger] finish_out_events_ok(
                                    old(self).rooms@[j]@,
                                    obs_for(observations@, old(self).rooms@[j].id@),
                                    Seq::empty(),
                                    ev,
                                ) && is_room_snapshot_msg(
                                    outpre[out0.len() + emit_count(vs, j)],
                                    vs[j],
                                    ev,
                                );
                            assert(outgoing@[out0.len() + emit_count(vs, j)] == outpre[out0.len()
                                + emit_count(vs, j)]);
                            assert(finish_out_events_ok(
                                old(self).rooms@[j]@,
                                obs_for(observations@, old(self).rooms@[j].id@),
                                Seq::empty(),
                                ev,
                            ) && is_room_snapshot_msg(
                                outgoing@[out0.len() + emit_count(vs, j)],
                                vs[j],
                                ev,
                            ));
                        }
                    }
                }
            }
            i += 1;
        }
        removals
    }

    /// Runs one whole tick for every room with no integrator report:
    /// events apply, pushers move, coins keep their last known states, and
    /// every room whose snapshot cadence is due appends exactly one
    /// snapshot message to `outgoing`.
    pub fn tick_all(&mut self, dt: u64, outgoing: &mut Vec<ToNode>)
        requires
            old(self).wf(),
        ensures
            final(self).wf(),
            final(self).rooms@.len() == old(self).rooms@.len(),
            forall|i: int|
                0 <= i < old(self).rooms@.len() ==> (#[trigger] final(self).rooms@[i])@
                    == room_after_emit(tick_views(old(self).rooms@, dt)[i]),
            ({
                let vs = tick_views(old(self).rooms@, dt);
                &&& final(outgoing)@.len() == old(outgoing)@.len() + emit_count(
                    vs,
                    old(self).rooms@.len() as int,
                )
                &&& old(outgoing)@.is_prefix_of(final(outgoing)@)
                &&& forall|i: int|
                    #![trigger vs[i]]
                    0 <= i < old(self).rooms@.len() && room_emits(vs[i]) ==> exists|
                        ev: Seq<RoomEvent>,
                    |
                        #[trigger] finish_out_events_ok(
                            after_tick_begin(old(self).rooms@[i]@, dt),
                            Seq::empty(),
                            Seq::empty(),
                            ev,
                        ) && is_room_snapshot_msg(
                            final(outgoing)@[old(outgoing)@.len() + emit_count(vs, i)],
                            vs[i],
                            ev,
                        )
            }),
    {
        let _plans = self.tick_all_begin(dt);
        let ghost mid_rooms = self.rooms@;
        let no_obs: Vec<RoomObservation> = Vec::new();
        let _removals = self.tick_all_finish(&no_obs, outgoing);
        proof {
            assert(finish_views(mid_rooms, Seq::empty()) =~= tick_views(old(self).rooms@, dt));
        }
    }

    /// Queues an event on the room named by `id`, dropping it when no such
    /// room exists.
    fn enqueue(&mut self, id: &RoomId, e: Event)
        requires
            old(self).wf(),
        ensures
            final(self).wf(),
            old(self).has_room(id@) ==> rooms_after_enqueue(
                old(self).rooms@,
                final(self).rooms@,
                id@,
                e,
                old(self).room_index(id@),
            ),
            !old(self).has_room(id@) ==> final(self).rooms@ == old(self).rooms@,
    {
        match find_room_index(&self.rooms, id) {
            Some(i) => {
                let mut room = self.rooms.remove(i);
                room.push_event(e);
                self.rooms.insert(i, room);
                proof {
                    assert(final(self).rooms@ =~= old(self).rooms@.update(
                        old(self).room_index(id@),
                        final(self).rooms@[i as int],
                    ));
                }
            },
            None => {},
        }
    }
}

} // verus!
