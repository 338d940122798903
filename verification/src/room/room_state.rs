//! One room: its tick counter, players, queued events, simulation state,
//! snapshot cache, and snapshot pacing.
use vstd::prelude::*;

use crate::protocol::{
    position_l1, rotation_l1, significant_change, CoinId, CoinState, PlayerId, RoomConfig,
    RoomEvent, RoomId, POSITION_CHANGE_THRESHOLD, ROTATION_CHANGE_THRESHOLD,
};
use crate::room::events::{apply_event_spec, clone_event, Event};
use crate::room::physics::{
    find_observed, has_coin, coin_obs, initial_world, pusher_next, unique_coin_ids, PhysicsView,
    PhysicsWorld, SpawnCommand,
};

verus! {

/// A room emits a full keyframe once this many delta snapshots have gone
/// out since the last one.
pub const KEYFRAME_DELTA_LIMIT: u32 = 30;

/// Lowest settable snapshot rate, in 10^-4 Hz (5 Hz).
pub const SNAPSHOT_RATE_MIN: u32 = 50000;

/// Highest settable snapshot rate, in 10^-4 Hz (60 Hz).
pub const SNAPSHOT_RATE_MAX: u32 = 600000;

/// A player present in a room.
#[derive(Clone, Debug)]
pub struct PlayerInfo {
    pub id: PlayerId,
}

/// The state of one room.
pub struct RoomState {
    pub id: RoomId,
    pub config: RoomConfig,
    /// Completed ticks; starts at 0 and advances by one per tick.
    pub tick: u64,
    pub physics: PhysicsWorld,
    pub players: Vec<PlayerInfo>,
    /// Events waiting to be applied at the head of the next tick.
    pub event_queue: Vec<Event>,
    /// The coin states most recently sent to the gateway.
    pub last_snapshot: Vec<CoinState>,
    /// Delta snapshots emitted since the last full keyframe.
    pub delta_snapshot_count: u32,
    /// Time accumulated toward the next snapshot, in microseconds.
    pub accumulated_time: u64,
    /// The step length of the tick being processed, in microseconds.
    pub pending_dt: u64,
}

/// The mathematical state of a [`RoomState`].
#[verifier::ext_equal]
pub struct RoomView {
    pub id: Seq<char>,
    pub config: RoomConfig,
    pub tick: u64,
    pub physics: PhysicsView,
    pub players: Seq<PlayerInfo>,
    pub queue: Seq<Event>,
    pub cache: Seq<CoinState>,
    pub delta_count: u32,
    pub accumulated: u64,
    pub pending_dt: u64,
}

impl View for RoomState {
    type V = RoomView;

    open spec fn view(&self) -> RoomView {
        RoomView {
            id: self.id@,
            config: self.config,
            tick: self.tick,
            physics: self.physics@,
            players: self.players@,
            queue: self.event_queue@,
            cache: self.last_snapshot@,
            delta_count: self.delta_snapshot_count,
            accumulated: self.accumulated_time,
            pending_dt: self.pending_dt,
        }
    }
}

/// Whether a player with this id is in the room.
pub open spec fn has_player(ps: Seq<PlayerInfo>, id: PlayerId) -> bool {
    exists|i: int| 0 <= i < ps.len() && (#[trigger] ps[i].id)@ == id@
}

/// The player table without every entry carrying this id.
pub open spec fn remove_player(ps: Seq<PlayerInfo>, id: PlayerId) -> Seq<PlayerInfo>
    decreases ps.len(),
{
    if ps.len() == 0 {
        Seq::empty()
    } else {
        let rest = remove_player(ps.drop_last(), id);
        if ps.last().id@ == id@ {
            rest
        } else {
            rest.push(ps.last())
        }
    }
}

impl RoomView {
    /// Well-formedness: the simulation state is well-formed and the cached
    /// snapshot names each coin at most once.
    pub open spec fn wf(self) -> bool {
        &&& self.physics.wf()
        &&& unique_coin_ids(self.cache)
    }
}

/// A room as `CreateRoom` makes it.
pub open spec fn initial_room(id: Seq<char>, config: RoomConfig) -> RoomView {
    RoomView {
        id,
        config,
        tick: 0,
        physics: initial_world(config),
        players: Seq::empty(),
        queue: Seq::empty(),
        cache: Seq::empty(),
        delta_count: 0,
        accumulated: 0,
        pending_dt: 0,
    }
}

/// The room after applying a queue of events in order.
pub open spec fn apply_events(v: RoomView, evs: Seq<Event>) -> RoomView
    decreases evs.len(),
{
    if evs.len() == 0 {
        v
    } else {
        apply_event_spec(apply_events(v, evs.drop_last()), evs.last())
    }
}

/// The first half of a tick: the counter advances, the queued events are
/// applied in order, the pusher moves, and the queued body-creation
/// commands leave for the integrator.
pub open spec fn after_tick_begin(v: RoomView, dt: u64) -> RoomView {
    let t = if v.tick < u64::MAX {
        (v.tick + 1) as u64
    } else {
        u64::MAX
    };
    let v2 = apply_events(
        RoomView { tick: t, queue: Seq::empty(), pending_dt: dt, ..v },
        v.queue,
    );
    let ph = v2.physics;
    RoomView {
        physics: PhysicsView {
            push_z: pusher_next(ph.config, ph.push_z, ph.push_dir, dt).0,
            push_dir: pusher_next(ph.config, ph.push_z, ph.push_dir, dt).1,
            pending: Seq::empty(),
            ..ph
        },
        ..v2
    }
}

/// The body-creation commands the first half of a tick hands out: the
/// backlog plus the commands of every coin the tick's events dropped.
pub open spec fn begin_spawns(v: RoomView, dt: u64) -> Seq<SpawnCommand> {
    apply_events(
        RoomView {
            tick: if v.tick < u64::MAX {
                (v.tick + 1) as u64
            } else {
                u64::MAX
            },
            queue: Seq::empty(),
            pending_dt: dt,
            ..v
        },
        v.queue,
    ).physics.pending
}

/// Applying events touches only the player table and the simulation's
/// coin side: every other field of the room, and the pusher, stay put.
pub proof fn lemma_apply_events_frame(v: RoomView, evs: Seq<Event>)
    ensures
        ({
            let r = apply_events(v, evs);
            &&& r.id == v.id
            &&& r.config == v.config
            &&& r.tick == v.tick
            &&& r.cache == v.cache
            &&& r.delta_count == v.delta_count
            &&& r.accumulated == v.accumulated
            &&& r.pending_dt == v.pending_dt
            &&& r.queue == v.queue
            &&& r.physics.config == v.physics.config
            &&& r.physics.push_z == v.physics.push_z
            &&& r.physics.push_dir == v.physics.push_dir
        }),
    decreases evs.len(),
{
    if evs.len() > 0 {
        lemma_apply_events_frame(v, evs.drop_last());
    }
}

/// The first half of a tick leaves the snapshot side of a room alone and
/// advances only the counter, the queue, the players, and the simulation.
pub proof fn lemma_after_tick_begin_frame(v: RoomView, dt: u64)
    ensures
        ({
            let r = after_tick_begin(v, dt);
            &&& r.id == v.id
            &&& r.config == v.config
            &&& r.cache == v.cache
            &&& r.delta_count == v.delta_count
            &&& r.accumulated == v.accumulated
            &&& r.pending_dt == dt
            &&& r.queue == Seq::<Event>::empty()
            &&& r.tick == (if v.tick < u64::MAX {
                (v.tick + 1) as u64
            } else {
                u64::MAX
            })
            &&& r.physics.config == v.physics.config
        }),
{
    let t = if v.tick < u64::MAX {
        (v.tick + 1) as u64
    } else {
        u64::MAX
    };
    lemma_apply_events_frame(
        RoomView { tick: t, queue: Seq::empty(), pending_dt: dt, ..v },
        v.queue,
    );
}

/// The second half of a tick: the integrator's report is taken in and the
/// escaped coins leave the table.
pub open spec fn after_tick_finish(v: RoomView, obs: Seq<CoinState>) -> RoomView {
    RoomView { physics: v.physics.after_step(obs), ..v }
}

/// One reward event per collected coin that has an owner, in table order.
pub open spec fn reward_events(collected: Seq<(CoinId, Option<PlayerId>)>) -> Seq<RoomEvent>
    decreases collected.len(),
{
    if collected.len() == 0 {
        Seq::empty()
    } else {
        let rest = reward_events(collected.drop_last());
        match collected.last().1 {
            Some(pid) => rest.push(
                RoomEvent::CoinDroppedToReward {
                    player_id: pid,
                    coin_id: collected.last().0,
                    reward_amount: 1,
                },
            ),
            None => rest,
        }
    }
}

/// What the second half of a tick appends to `out`: a reward event per
/// owned collected coin, then, if anything was removed, one event naming
/// every removed coin.
pub open spec fn finish_out_events_ok(
    pre: RoomView,
    obs: Seq<CoinState>,
    old_out: Seq<RoomEvent>,
    new_out: Seq<RoomEvent>,
) -> bool {
    let col = pre.physics.step_collected(obs);
    let rem = pre.physics.step_removed(obs);
    let rew = reward_events(col);
    &&& old_out.is_prefix_of(new_out)
    &&& (rem.len() == 0 ==> new_out == old_out + rew)
    &&& (rem.len() > 0 ==> {
        &&& new_out.len() == old_out.len() + rew.len() + 1
        &&& new_out.subrange(old_out.len() as int, (old_out.len() + rew.len()) as int) == rew
        &&& (new_out.last() matches RoomEvent::CoinCollected { coin_ids } && coin_ids@ == rem)
    })
}

/// The coins of the report that the cache does not name: they are new.
pub open spec fn delta_added(cur: Seq<CoinState>, cache: Seq<CoinState>) -> Seq<CoinState>
    decreases cur.len(),
{
    if cur.len() == 0 {
        Seq::empty()
    } else {
        let rest = delta_added(cur.drop_last(), cache);
        if !has_coin(cache, cur.last().id) {
            rest.push(cur.last())
        } else {
            rest
        }
    }
}

/// The cached coins whose reported state moved or turned beyond the
/// reporting thresholds.
pub open spec fn delta_updated(cur: Seq<CoinState>, cache: Seq<CoinState>) -> Seq<CoinState>
    decreases cur.len(),
{
    if cur.len() == 0 {
        Seq::empty()
    } else {
        let rest = delta_updated(cur.drop_last(), cache);
        if has_coin(cache, cur.last().id) && significant_change(
            cur.last(),
            coin_obs(cache, cur.last().id),
        ) {
            rest.push(cur.last())
        } else {
            rest
        }
    }
}

/// The cached ids the report no longer names: those coins are gone.
pub open spec fn delta_removed(cur: Seq<CoinState>, cache: Seq<CoinState>) -> Seq<CoinId>
    decreases cache.len(),
{
    if cache.len() == 0 {
        Seq::empty()
    } else {
        let rest = delta_removed(cur, cache.drop_last());
        if !has_coin(cur, cache.last().id) {
            rest.push(cache.last().id)
        } else {
            rest
        }
    }
}

/// Every reported coin the cache does not know ends in `added`, and
/// `added` holds nothing else.
proof fn lemma_delta_added_props(cur: Seq<CoinState>, cache: Seq<CoinState>)
    ensures
        forall|i: int|
            #![trigger cur[i]]
            0 <= i < cur.len() && !has_coin(cache, cur[i].id) ==> delta_added(
                cur,
                cache,
            ).contains(cur[i]),
        forall|j: int|
            #![trigger delta_added(cur, cache)[j]]
            0 <= j < delta_added(cur, cache).len() ==> cur.contains(delta_added(cur, cache)[j])
                && !has_coin(cache, delta_added(cur, cache)[j].id),
    decreases cur.len(),
{
    if cur.len() > 0 {
        let dl = cur.drop_last();
        lemma_delta_added_props(dl, cache);
        let a = delta_added(cur, cache);
        let ad = delta_added(dl, cache);
        assert forall|i: int|
            #![trigger cur[i]]
            0 <= i < cur.len() && !has_coin(cache, cur[i].id) implies a.contains(cur[i]) by {
            if i < cur.len() - 1 {
                assert(dl[i] == cur[i]);
                assert(ad.contains(cur[i]));
                let w = choose|w: int| 0 <= w < ad.len() && ad[w] == cur[i];
                assert(a[w] == cur[i]);
            } else {
                assert(a[a.len() - 1] == cur[i]);
            }
        }
        assert forall|j: int|
            #![trigger a[j]]
            0 <= j < a.len() implies cur.contains(a[j]) && !has_coin(cache, a[j].id) by {
            if j < ad.len() {
                assert(a[j] == ad[j]);
                assert(dl.contains(ad[j]));
                let w = choose|w: int| 0 <= w < dl.len() && dl[w] == ad[j];
                assert(cur[w] == a[j]);
            } else {
                assert(a[j] == cur[cur.len() - 1]);
            }
        }
    }
}

/// Every cached coin whose report moved beyond the thresholds ends in
/// `updated`, and `updated` holds nothing else.
proof fn lemma_delta_updated_props(cur: Seq<CoinState>, cache: Seq<CoinState>)
    ensures
        forall|i: int|
            #![trigger cur[i]]
            0 <= i < cur.len() && has_coin(cache, cur[i].id) && significant_change(
                cur[i],
                coin_obs(cache, cur[i].id),
            ) ==> delta_updated(cur, cache).contains(cur[i]),
        forall|j: int|
            #![trigger delta_updated(cur, cache)[j]]
            0 <= j < delta_updated(cur, cache).len() ==> cur.contains(delta_updated(cur, cache)[j])
                && has_coin(cache, delta_updated(cur, cache)[j].id),
    decreases cur.len(),
{
    if cur.len() > 0 {
        let dl = cur.drop_last();
        lemma_delta_updated_props(dl, cache);
        let a = delta_updated(cur, cache);
        let ad = delta_updated(dl, cache);
        assert forall|i: int|
            #![trigger cur[i]]
            0 <= i < cur.len() && has_coin(cache, cur[i].id) && significant_change(
                cur[i],
                coin_obs(cache, cur[i].id),
            ) implies a.contains(cur[i]) by {
            if i < cur.len() - 1 {
                assert(dl[i] == cur[i]);
                assert(ad.contains(cur[i]));
                let w = choose|w: int| 0 <= w < ad.len() && ad[w] == cur[i];
                assert(a[w] == cur[i]);
            } else {
                assert(a[a.len() - 1] == cur[i]);
            }
        }
        assert forall|j: int|
            #![trigger a[j]]
            0 <= j < a.len() implies cur.contains(a[j]) && has_coin(cache, a[j].id) by {
            if j < ad.len() {
                assert(a[j] == ad[j]);
                assert(dl.contains(ad[j]));
                let w = choose|w: int| 0 <= w < dl.len() && dl[w] == ad[j];
                assert(cur[w] == a[j]);
            } else {
                assert(a[j] == cur[cur.len() - 1]);
            }
        }
    }
}

/// `removed` names exactly the cached ids the report no longer holds.
proof fn lemma_delta_removed_props(cur: Seq<CoinState>, cache: Seq<CoinState>)
    ensures
        forall|i: int|
            #![trigger cache[i]]
            0 <= i < cache.len() && !has_coin(cur, cache[i].id) ==> delta_removed(
                cur,
                cache,
            ).contains(cache[i].id),
        forall|j: int|
            #![trigger delta_removed(cur, cache)[j]]
            0 <= j < delta_removed(cur, cache).len() ==> has_coin(
                cache,
                delta_removed(cur, cache)[j],
            ) && !has_coin(cur, delta_removed(cur, cache)[j]),
    decreases cache.len(),
{
    if cache.len() > 0 {
        let dl = cache.drop_last();
        lemma_delta_removed_props(cur, dl);
        let a = delta_removed(cur, cache);
        let ad = delta_removed(cur, dl);
        assert forall|i: int|
            #![trigger cache[i]]
            0 <= i < cache.len() && !has_coin(cur, cache[i].id) implies a.contains(
            cache[i].id,
        ) by {
            if i < cache.len() - 1 {
                assert(dl[i] == cache[i]);
                assert(ad.contains(cache[i].id));
                let w = choose|w: int| 0 <= w < ad.len() && ad[w] == cache[i].id;
                assert(a[w] == cache[i].id);
            } else {
                assert(a[a.len() - 1] == cache[i].id);
            }
        }
        assert forall|j: int|
            #![trigger a[j]]
            0 <= j < a.len() implies has_coin(cache, a[j]) && !has_coin(cur, a[j]) by {
            if j < ad.len() {
                assert(a[j] == ad[j]);
                assert(has_coin(dl, ad[j]));
                let w = choose|w: int| 0 <= w < dl.len() && #[trigger] dl[w].id == ad[j];
                assert(cache[w].id == a[j]);
            } else {
                assert(a[j] == cache[cache.len() - 1].id);
                assert(cache[cache.len() - 1].id == a[j]);
            }
        }
    }
}

/// Delta soundness: applying a delta snapshot to the cache it was
/// computed against reproduces the reported coin set. Every reported
/// coin is listed in `added` (its id is new), listed in `updated` (it
/// moved or turned beyond the reporting thresholds), or cached within
/// both thresholds; `added` and `updated` list reported states verbatim
/// with new and cached ids respectively; and `removed` names exactly the
/// cached ids the report no longer contains.
pub proof fn lemma_delta_soundness(cur: Seq<CoinState>, cache: Seq<CoinState>)
    ensures
        forall|i: int|
            #![trigger cur[i]]
            0 <= i < cur.len() ==> {
                ||| delta_added(cur, cache).contains(cur[i])
                ||| delta_updated(cur, cache).contains(cur[i])
                ||| (has_coin(cache, cur[i].id) && position_l1(
                    cur[i].p,
                    coin_obs(cache, cur[i].id).p,
                ) <= POSITION_CHANGE_THRESHOLD && rotation_l1(
                    cur[i].r,
                    coin_obs(cache, cur[i].id).r,
                ) <= ROTATION_CHANGE_THRESHOLD)
            },
        forall|j: int|
            #![trigger delta_added(cur, cache)[j]]
            0 <= j < delta_added(cur, cache).len() ==> cur.contains(delta_added(cur, cache)[j])
                && !has_coin(cache, delta_added(cur, cache)[j].id),
        forall|j: int|
            #![trigger delta_updated(cur, cache)[j]]
            0 <= j < delta_updated(cur, cache).len() ==> cur.contains(delta_updated(cur, cache)[j])
                && has_coin(cache, delta_updated(cur, cache)[j].id),
        forall|j: int|
            #![trigger delta_removed(cur, cache)[j]]
            0 <= j < delta_removed(cur, cache).len() ==> has_coin(
                cache,
                delta_removed(cur, cache)[j],
            ) && !has_coin(cur, delta_removed(cur, cache)[j]),
        forall|i: int|
            #![trigger cache[i]]
            0 <= i < cache.len() && !has_coin(cur, cache[i].id) ==> delta_removed(
                cur,
                cache,
            ).contains(cache[i].id),
{
    lemma_delta_added_props(cur, cache);
    lemma_delta_updated_props(cur, cache);
    lemma_delta_removed_props(cur, cache);
}

/// `a + b`, stopping at the top of the type instead of wrapping.
pub open spec fn saturating_add_u64(a: u64, b: u64) -> u64 {
    if a + b <= u64::MAX {
        (a + b) as u64
    } else {
        u64::MAX
    }
}

/// Microseconds between two snapshots at `rate` (10^-4 Hz).
pub open spec fn snapshot_interval_us(rate: u32) -> u64
    recommends
        rate > 0,
{
    (10_000_000_000int / (rate as int)) as u64
}

/// Copies a coin id list.
fn copy_coin_ids(v: &Vec<CoinId>) -> (r: Vec<CoinId>)
    ensures
        r@ == v@,
{
    let mut r: Vec<CoinId> = Vec::new();
    let mut i: usize = 0;
    while i < v.len()
        invariant
            i <= v@.len(),
            r@ == v@.subrange(0, i as int),
        decreases v@.len() - i,
    {
        proof {
            assert(v@.subrange(0, i + 1 as int) =~= v@.subrange(0, i as int).push(v@[i as int]));
        }
        let c = v[i];
        r.push(c);
        i += 1;
    }
    proof {
        assert(v@.subrange(0, v@.len() as int) =~= v@);
    }
    r
}

impl RoomState {
    /// Builds a fresh room around a new simulation world.
    pub fn new(id: RoomId, config: RoomConfig) -> (r: RoomState)
        ensures
            r@.wf(),
            r@ == initial_room(id@, config),
    {
        let r = RoomState {
            physics: PhysicsWorld::new(config),
            id,
            config,
            tick: 0,
            players: Vec::new(),
            event_queue: Vec::new(),
            last_snapshot: Vec::new(),
            delta_snapshot_count: 0,
            accumulated_time: 0,
            pending_dt: 0,
        };
        proof {
            assert(r@ =~= initial_room(r.id@, config));
        }
        r
    }

    /// Queues an event for the next tick.
    pub fn push_event(&mut self, event: Event)
        requires
            old(self)@.wf(),
        ensures
            final(self)@.wf(),
            final(self)@ == (RoomView { queue: old(self)@.queue.push(event), ..old(self)@ }),
    {
        self.event_queue.push(event);
        proof {
            assert(final(self)@ =~= (RoomView {
                queue: old(self)@.queue.push(event),
                ..old(self)@
            }));
        }
    }

    /// Runs the first half of a tick: advances the counter, applies the
    /// queued events in arrival order, moves the pusher, and returns the
    /// body-creation commands the integrator must run before stepping.
    pub fn tick_begin(&mut self, dt: u64) -> (spawns: Vec<SpawnCommand>)
        requires
            old(self)@.wf(),
        ensures
            final(self)@.wf(),
            final(self)@ == after_tick_begin(old(self)@, dt),
            spawns@ == begin_spawns(old(self)@, dt),
    {
        if self.tick < u64::MAX {
            self.tick = self.tick + 1;
        }
        self.pending_dt = dt;
        let mut events: Vec<Event> = Vec::new();
        core::mem::swap(&mut self.event_queue, &mut events);
        let ghost q = events@;
        let ghost v1 = RoomView {
            tick: self.tick,
            queue: Seq::empty(),
            pending_dt: dt,
            ..old(self)@
        };
        proof {
            assert(self@ =~= v1);
        }
        let mut dummy: Vec<RoomEvent> = Vec::new();
        let mut i: usize = 0;
        while i < events.len()
            invariant
                i <= events@.len(),
                events@ == q,
                self@.wf(),
                self@ == apply_events(v1, q.subrange(0, i as int)),
            decreases events@.len() - i,
        {
            let e = clone_event(&events[i]);
            e.apply(self, &mut dummy);
            proof {
                assert(q.subrange(0, i + 1 as int).drop_last() =~= q.subrange(0, i as int));
                assert(q.subrange(0, i + 1 as int).last() == q[i as int]);
            }
            i += 1;
        }
        proof {
            assert(q.subrange(0, q.len() as int) =~= q);
            assert(self@ == apply_events(v1, q));
        }
        self.physics.update_push_platform(dt);
        let spawns = self.physics.take_pending_spawns();
        proof {
            assert(final(self)@ =~= after_tick_begin(old(self)@, dt));
            assert(spawns@ == begin_spawns(old(self)@, dt));
        }
        spawns
    }

    /// Runs the second half of a tick: takes the integrator's report,
    /// drops the escaped coins, and appends the tick's room events —
    /// rewards first, then one event naming every removed coin. Returns
    /// the removed ids so the caller can drop their bodies.
    pub fn tick_finish(&mut self, observed: &Vec<CoinState>, out_events: &mut Vec<RoomEvent>) -> (removed: Vec<CoinId>)
        requires
            old(self)@.wf(),
            unique_coin_ids(observed@),
        ensures
            final(self)@.wf(),
            final(self)@ == after_tick_finish(old(self)@, observed@),
            finish_out_events_ok(old(self)@, observed@, old(out_events)@, final(out_events)@),
            removed@ == old(self)@.physics.step_removed(observed@),
    {
        let result = self.physics.step(observed);
        proof {
            assert(final(self)@ =~= after_tick_finish(old(self)@, observed@));
        }
        let ghost col = old(self)@.physics.step_collected(observed@);
        let ghost out0 = out_events@;
        let mut i: usize = 0;
        while i < result.collected.len()
            invariant
                i <= result.collected@.len(),
                result.collected@ == col,
                out_events@ == out0 + reward_events(col.subrange(0, i as int)),
            decreases result.collected@.len() - i,
        {
            proof {
                assert(col.subrange(0, i + 1 as int).drop_last() =~= col.subrange(0, i as int));
                assert(col.subrange(0, i + 1 as int).last() == col[i as int]);
            }
            let pair = &result.collected[i];
            match &pair.1 {
                Some(pid) => {
                    out_events.push(
                        RoomEvent::CoinDroppedToReward {
                            player_id: pid.clone(),
                            coin_id: pair.0,
                            reward_amount: 1,
                        },
                    );
                },
                None => {},
            }
            i += 1;
        }
        proof {
            assert(col.subrange(0, col.len() as int) =~= col);
        }
        let removed_ids = copy_coin_ids(&result.removed);
        if result.removed.len() > 0 {
            out_events.push(RoomEvent::CoinCollected { coin_ids: result.removed });
            proof {
                let rew = reward_events(col);
                assert(out_events@.subrange(out0.len() as int, (out0.len() + rew.len()) as int)
                    =~= rew);
                assert(out_events@.subrange(0, out0.len() as int) =~= out0);
            }
        } else {
            proof {
                assert(out_events@.subrange(0, out0.len() as int) =~= out0);
            }
        }
        removed_ids
    }

    /// Runs one whole tick with an empty integrator report: coins keep
    /// their last known states while events, pusher, and removals all
    /// proceed.
    pub fn tick(&mut self, dt: u64, out_events: &mut Vec<RoomEvent>)
        requires
            old(self)@.wf(),
        ensures
            final(self)@.wf(),
            final(self)@ == after_tick_finish(after_tick_begin(old(self)@, dt), Seq::empty()),
            finish_out_events_ok(
                after_tick_begin(old(self)@, dt),
                Seq::empty(),
                old(out_events)@,
                final(out_events)@,
            ),
    {
        let _spawns = self.tick_begin(dt);
        let no_obs: Vec<CoinState> = Vec::new();
        let _removed = self.tick_finish(&no_obs, out_events);
    }

    /// Splits the report into what changed since the cached snapshot:
    /// coins the cache does not know, known coins that moved or turned
    /// beyond the thresholds, and cached ids that are gone.
    pub fn compute_delta(&mut self, current_coins: &Vec<CoinState>) -> (r: (
        Vec<CoinState>,
        Vec<CoinState>,
        Vec<CoinId>,
    ))
        requires
            old(self)@.wf(),
            unique_coin_ids(current_coins@),
        ensures
            *final(self) == *old(self),
            r.0@ == delta_added(current_coins@, old(self)@.cache),
            r.1@ == delta_updated(current_coins@, old(self)@.cache),
            r.2@ == delta_removed(current_coins@, old(self)@.cache),
    {
        let ghost cache = self.last_snapshot@;
        let mut added: Vec<CoinState> = Vec::new();
        let mut updated: Vec<CoinState> = Vec::new();
        let mut removed: Vec<CoinId> = Vec::new();
        let mut i: usize = 0;
        while i < current_coins.len()
            invariant
                i <= current_coins@.len(),
                *self == *old(self),
                cache == self.last_snapshot@,
                unique_coin_ids(cache),
                added@ == delta_added(current_coins@.subrange(0, i as int), cache),
                updated@ == delta_updated(current_coins@.subrange(0, i as int), cache),
            decreases current_coins@.len() - i,
        {
            proof {
                assert(current_coins@.subrange(0, i + 1 as int).drop_last() =~= current_coins@
                    .subrange(0, i as int));
                assert(current_coins@.subrange(0, i + 1 as int).last() == current_coins@[i as int]);
            }
            let c = current_coins[i];
            match find_observed(&self.last_snapshot, c.id) {
                Some(prev) => {
                    if c.has_significant_change(&prev) {
                        updated.push(c);
                    }
                },
                None => {
                    added.push(c);
                },
            }
            i += 1;
        }
        proof {
            assert(current_coins@.subrange(0, current_coins@.len() as int) =~= current_coins@);
        }
        let mut j: usize = 0;
        while j < self.last_snapshot.len()
            invariant
                j <= self.last_snapshot@.len(),
                *self == *old(self),
                cache == self.last_snapshot@,
                removed@ == delta_removed(current_coins@, cache.subrange(0, j as int)),
                unique_coin_ids(current_coins@),
            decreases self.last_snapshot@.len() - j,
        {
            proof {
                assert(cache.subrange(0, j + 1 as int).drop_last() =~= cache.subrange(0, j as int));
                assert(cache.subrange(0, j + 1 as int).last() == cache[j as int]);
            }
            let cid = self.last_snapshot[j].id;
            match find_observed(current_coins, cid) {
                Some(_) => {},
                None => {
                    removed.push(cid);
                },
            }
            j += 1;
        }
        proof {
            assert(cache.subrange(0, cache.len() as int) =~= cache);
        }
        (added, updated, removed)
    }

    /// Replaces the cached snapshot with the coin list just sent.
    pub fn update_snapshot_cache(&mut self, coins: &Vec<CoinState>)
        requires
            old(self)@.wf(),
            unique_coin_ids(coins@),
        ensures
            final(self)@.wf(),
            final(self)@ == (RoomView { cache: coins@, ..old(self)@ }),
    {
        self.last_snapshot.clear();
        let mut i: usize = 0;
        while i < coins.len()
            invariant
                i <= coins@.len(),
                self.last_snapshot@ == coins@.subrange(0, i as int),
                self.id@ == old(self).id@,
                self.config == old(self).config,
                self.tick == old(self).tick,
                self.physics@ == old(self).physics@,
                self.players@ == old(self).players@,
                self.event_queue@ == old(self).event_queue@,
                self.delta_snapshot_count == old(self).delta_snapshot_count,
                self.accumulated_time == old(self).accumulated_time,
                self.pending_dt == old(self).pending_dt,
            decreases coins@.len() - i,
        {
            proof {
                assert(coins@.subrange(0, i + 1 as int) =~= coins@.subrange(0, i as int).push(
                    coins@[i as int],
                ));
            }
            let c = coins[i];
            self.last_snapshot.push(c);
            i += 1;
        }
        proof {
            assert(coins@.subrange(0, coins@.len() as int) =~= coins@);
            assert(final(self)@ =~= (RoomView { cache: coins@, ..old(self)@ }));
        }
    }

    /// Counts one more delta snapshot since the last keyframe.
    pub fn increment_delta_count(&mut self)
        requires
            old(self)@.wf(),
            old(self).delta_snapshot_count < u32::MAX,
        ensures
            final(self)@.wf(),
            final(self)@ == (RoomView {
                delta_count: (old(self).delta_snapshot_count + 1) as u32,
                ..old(self)@
            }),
    {
        self.delta_snapshot_count = self.delta_snapshot_count + 1;
        proof {
            assert(final(self)@ =~= (RoomView {
                delta_count: (old(self).delta_snapshot_count + 1) as u32,
                ..old(self)@
            }));
        }
    }

    /// Starts a new delta run after a full keyframe went out.
    pub fn reset_delta_count(&mut self)
        requires
            old(self)@.wf(),
        ensures
            final(self)@.wf(),
            final(self)@ == (RoomView { delta_count: 0, ..old(self)@ }),
    {
        self.delta_snapshot_count = 0;
        proof {
            assert(final(self)@ =~= (RoomView { delta_count: 0, ..old(self)@ }));
        }
    }

    /// Whether the next snapshot must be a full keyframe.
    pub fn should_send_full_snapshot(&self) -> (r: bool)
        ensures
            r == (self.delta_snapshot_count >= KEYFRAME_DELTA_LIMIT),
    {
        self.delta_snapshot_count >= KEYFRAME_DELTA_LIMIT
    }

    /// Adds `dt` to the snapshot clock; when one snapshot interval has
    /// accumulated, subtracts one interval — keeping the remainder — and
    /// says a snapshot is due. A rate of zero never emits.
    pub fn accumulate_and_should_send_snapshot(&mut self, dt: u64) -> (r: bool)
        requires
            old(self)@.wf(),
        ensures
            final(self)@.wf(),
            ({
                let sum = saturating_add_u64(old(self).accumulated_time, dt);
                let rate = old(self).config.snapshot_rate;
                &&& (rate == 0 ==> !r && final(self)@ == (RoomView {
                    accumulated: sum,
                    ..old(self)@
                }))
                &&& (rate > 0 ==> r == (sum >= snapshot_interval_us(rate)) && final(self)@ == (
                RoomView {
                    accumulated: if sum >= snapshot_interval_us(rate) {
                        (sum - snapshot_interval_us(rate)) as u64
                    } else {
                        sum
                    },
                    ..old(self)@
                }))
            }),
    {
        let sum: u64 = if dt <= u64::MAX - self.accumulated_time {
            self.accumulated_time + dt
        } else {
            u64::MAX
        };
        self.accumulated_time = sum;
        if self.config.snapshot_rate == 0 {
            proof {
                assert(final(self)@ =~= (RoomView {
                    accumulated: saturating_add_u64(old(self).accumulated_time, dt),
                    ..old(self)@
                }));
            }
            return false;
        }
        let interval: u64 = 10_000_000_000u64 / (self.config.snapshot_rate as u64);
        if sum >= interval {
            self.accumulated_time = sum - interval;
            proof {
                assert(final(self)@ =~= (RoomView {
                    accumulated: (saturating_add_u64(old(self).accumulated_time, dt)
                        - snapshot_interval_us(old(self).config.snapshot_rate)) as u64,
                    ..old(self)@
                }));
            }
            true
        } else {
            proof {
                assert(final(self)@ =~= (RoomView {
                    accumulated: saturating_add_u64(old(self).accumulated_time, dt),
                    ..old(self)@
                }));
            }
            false
        }
    }

    /// Sets the snapshot rate, clamped to the supported range.
    pub fn set_snapshot_rate(&mut self, rate: u32)
        requires
            old(self)@.wf(),
        ensures
            final(self)@.wf(),
            final(self)@ == (RoomView {
                config: RoomConfig {
                    snapshot_rate: if rate < SNAPSHOT_RATE_MIN {
                        SNAPSHOT_RATE_MIN
                    } else if rate > SNAPSHOT_RATE_MAX {
                        SNAPSHOT_RATE_MAX
                    } else {
                        rate
                    },
                    ..old(self).config
                },
                ..old(self)@
            }),
    {
        let clamped = if rate < SNAPSHOT_RATE_MIN {
            SNAPSHOT_RATE_MIN
        } else if rate > SNAPSHOT_RATE_MAX {
            SNAPSHOT_RATE_MAX
        } else {
            rate
        };
        self.config.snapshot_rate = clamped;
        proof {
            assert(final(self)@ =~= (RoomView {
                config: RoomConfig { snapshot_rate: clamped, ..old(self).config },
                ..old(self)@
            }));
        }
    }
}

} // verus!
