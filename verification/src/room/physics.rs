//! Per-room simulation state: the coin table, the oscillating pusher, and
//! the decisions taken on each tick's observed coin states.
//!
//! The rigid-body integrator runs outside this crate. This module owns
//! everything around it: it assigns coin ids, queues body-creation commands
//! for the integrator, advances the pusher platform, and — given the coin
//! states the integrator reports — decides which coins leave the table and
//! which of those are credited to a player.
use vstd::prelude::*;

use crate::protocol::{CoinId, CoinState, PlayerId, Position, RoomConfig, Rotation};

verus! {

/// Coins whose Y coordinate falls below this line (-5 m) have escaped the
/// floor and are removed.
pub const FLOOR_ESCAPE_Y: i32 = -50000;

/// Removed coins count as collected only when |X| is under this bound
/// (1.5 m).
pub const REWARD_HALF_WIDTH_X: i32 = 15000;

/// Z coordinate at which dropped coins appear (-6 m).
pub const DROP_Z: i32 = -60000;

/// Y coordinate of the preloaded table coins (0.17 m).
pub const TABLE_COIN_Y: i32 = 1700;

/// Spacing of the preloaded coin tiling (1.35 m).
pub const TILE_STEP: i32 = 13500;

/// Largest |X| of the preloaded tiling (3.7 m).
pub const TILE_MAX_X: i32 = 37000;

/// First row Z of the preloaded tiling (-6 m).
pub const TILE_MIN_Z: i32 = -60000;

/// Tiling stops at this Z (0.679 m).
pub const TILE_MAX_Z: i32 = 6790;

/// One live coin: its last known state and the player who dropped it, if
/// any. Preloaded table coins have no owner.
#[derive(Clone, Debug)]
pub struct CoinHandle {
    pub owner: Option<PlayerId>,
    pub state: CoinState,
}

/// An instruction to the integrator: create one coin body at a position.
#[derive(Clone, Copy, Debug, PartialEq, Eq, Structural)]
pub struct SpawnCommand {
    pub coin_id: CoinId,
    pub x: i32,
    pub y: i32,
    pub z: i32,
}

/// What one step removed from the table.
pub struct PhysicsStepResult {
    /// Removed coins that ended inside the collection area, with their
    /// owners; unowned coins appear with `None`.
    pub collected: Vec<(CoinId, Option<PlayerId>)>,
    /// Every coin removed this step, collected or not.
    pub removed: Vec<CoinId>,
}

/// The simulation state of one room.
pub struct PhysicsWorld {
    pub config: RoomConfig,
    /// The next coin id to assign; starts at 1 and never goes back.
    pub coin_id_counter: CoinId,
    /// Live coins, in ascending id order.
    pub coin_map: Vec<CoinHandle>,
    /// Body-creation commands not yet handed to the integrator.
    pub pending_spawns: Vec<SpawnCommand>,
    /// Pusher platform Z, in 10^-4 m.
    pub push_z: i32,
    /// Pusher travel direction: 1 toward the player, -1 back.
    pub push_dir: i32,
    /// Every coin id ever assigned, in assignment order.
    pub spawned_ids: Ghost<Seq<CoinId>>,
}

/// The mathematical state of a [`PhysicsWorld`].
#[verifier::ext_equal]
pub struct PhysicsView {
    pub config: RoomConfig,
    pub coin_id_counter: CoinId,
    pub coins: Seq<CoinHandle>,
    pub pending: Seq<SpawnCommand>,
    pub push_z: i32,
    pub push_dir: i32,
    pub spawned: Seq<CoinId>,
}

impl View for PhysicsWorld {
    type V = PhysicsView;

    open spec fn view(&self) -> PhysicsView {
        PhysicsView {
            config: self.config,
            coin_id_counter: self.coin_id_counter,
            coins: self.coin_map@,
            pending: self.pending_spawns@,
            push_z: self.push_z,
            push_dir: self.push_dir,
            spawned: self.spawned_ids@,
        }
    }
}

/// The orientation of a freshly placed coin.
pub open spec fn identity_rotation() -> Rotation {
    Rotation { x: 0, y: 0, z: 0, w: 10000 }
}

/// Live coins are kept in strictly ascending id order.
pub open spec fn coins_sorted(coins: Seq<CoinHandle>) -> bool {
    forall|i: int, j: int|
        #![trigger coins[i], coins[j]]
        0 <= i < j < coins.len() ==> coins[i].state.id < coins[j].state.id
}

/// Every live coin's id is below `bound`.
pub open spec fn coin_ids_below(coins: Seq<CoinHandle>, bound: CoinId) -> bool {
    forall|i: int| 0 <= i < coins.len() ==> #[trigger] coins[i].state.id < bound
}

/// A strictly ascending id sequence.
pub open spec fn ids_sorted(ids: Seq<CoinId>) -> bool {
    forall|i: int, j: int|
        #![trigger ids[i], ids[j]]
        0 <= i < j < ids.len() ==> ids[i] < ids[j]
}

/// Every id in the sequence is below `bound`.
pub open spec fn ids_below(ids: Seq<CoinId>, bound: CoinId) -> bool {
    forall|i: int| 0 <= i < ids.len() ==> #[trigger] ids[i] < bound
}

impl PhysicsView {
    /// Well-formedness: ids are assigned in ascending order, live coins are
    /// sorted by id, no id reaches the counter, and while the configured
    /// oscillation interval is non-empty the pusher sits inside it.
    pub open spec fn wf(self) -> bool {
        &&& 1 <= self.coin_id_counter
        &&& (self.push_dir == 1i32 || self.push_dir == -1i32)
        &&& coins_sorted(self.coins)
        &&& coin_ids_below(self.coins, self.coin_id_counter)
        &&& ids_sorted(self.spawned)
        &&& ids_below(self.spawned, self.coin_id_counter)
        &&& (self.config.push_min_z <= self.config.push_max_z ==> self.config.push_min_z
            <= self.push_z <= self.config.push_max_z)
    }

    /// The state with every live coin's state refreshed from the
    /// integrator's report. Unreported coins keep their last known state.
    pub open spec fn observe(self, obs: Seq<CoinState>) -> PhysicsView {
        PhysicsView { coins: observe_all(self.coins, obs), ..self }
    }

    /// The state after one step: states refreshed from the report, escaped
    /// coins dropped from the table.
    pub open spec fn after_step(self, obs: Seq<CoinState>) -> PhysicsView {
        let o = self.observe(obs);
        PhysicsView { coins: surviving(o.coins), ..o }
    }

    /// The ids a step removes, in table order.
    pub open spec fn step_removed(self, obs: Seq<CoinState>) -> Seq<CoinId> {
        removed_ids(self.observe(obs).coins)
    }

    /// The removed coins a step collects, with their owners, in table
    /// order.
    pub open spec fn step_collected(self, obs: Seq<CoinState>) -> Seq<(CoinId, Option<PlayerId>)> {
        collected_coins(self.observe(obs).coins, self.config)
    }

    /// The state after assigning a fresh id to a coin at `(x, y, z)` and
    /// queueing its body-creation command.
    pub open spec fn spawn_at(self, x: i32, y: i32, z: i32, owner: Option<PlayerId>) -> PhysicsView
        recommends
            self.coin_id_counter < u64::MAX,
    {
        let id = self.coin_id_counter;
        let state = CoinState { id, p: Position { x, y, z }, r: identity_rotation() };
        PhysicsView {
            coin_id_counter: (self.coin_id_counter + 1) as u64,
            coins: self.coins.push(CoinHandle { owner, state }),
            pending: self.pending.push(SpawnCommand { coin_id: id, x, y, z }),
            spawned: self.spawned.push(id),
            ..self
        }
    }
}

/// No two reported coin states carry the same id.
pub open spec fn unique_coin_ids(s: Seq<CoinState>) -> bool {
    forall|i: int, j: int| #![trigger s[i], s[j]] 0 <= i < j < s.len() ==> s[i].id != s[j].id
}

/// Whether the report mentions coin `id`.
pub open spec fn has_coin(obs: Seq<CoinState>, id: CoinId) -> bool {
    exists|k: int| 0 <= k < obs.len() && #[trigger] obs[k].id == id
}

/// The reported state of coin `id`.
pub open spec fn coin_obs(obs: Seq<CoinState>, id: CoinId) -> CoinState
    recommends
        has_coin(obs, id),
{
    obs[choose|k: int| 0 <= k < obs.len() && #[trigger] obs[k].id == id]
}

/// One coin after taking the report into account.
pub open spec fn observed_handle(c: CoinHandle, obs: Seq<CoinState>) -> CoinHandle {
    if has_coin(obs, c.state.id) {
        CoinHandle { owner: c.owner, state: coin_obs(obs, c.state.id) }
    } else {
        c
    }
}

/// A coin below the floor-escape line leaves the table this step.
pub open spec fn escaped(c: CoinHandle) -> bool {
    c.state.p.y < FLOOR_ESCAPE_Y
}

/// An escaped coin ending past the reward line and inside the collection
/// corridor is credited.
pub open spec fn in_reward_area(c: CoinHandle, cfg: RoomConfig) -> bool {
    c.state.p.z > cfg.reward_line_z && -REWARD_HALF_WIDTH_X < c.state.p.x < REWARD_HALF_WIDTH_X
}

/// The coins a step keeps on the table, in order.
pub open spec fn surviving(coins: Seq<CoinHandle>) -> Seq<CoinHandle>
    decreases coins.len(),
{
    if coins.len() == 0 {
        Seq::empty()
    } else {
        let rest = surviving(coins.drop_last());
        if escaped(coins.last()) {
            rest
        } else {
            rest.push(coins.last())
        }
    }
}

/// The ids of the coins a step removes, in order.
pub open spec fn removed_ids(coins: Seq<CoinHandle>) -> Seq<CoinId>
    decreases coins.len(),
{
    if coins.len() == 0 {
        Seq::empty()
    } else {
        let rest = removed_ids(coins.drop_last());
        if escaped(coins.last()) {
            rest.push(coins.last().state.id)
        } else {
            rest
        }
    }
}

/// The removed coins a step collects, paired with their owners, in order.
pub open spec fn collected_coins(coins: Seq<CoinHandle>, cfg: RoomConfig) -> Seq<
    (CoinId, Option<PlayerId>),
>
    decreases coins.len(),
{
    if coins.len() == 0 {
        Seq::empty()
    } else {
        let rest = collected_coins(coins.drop_last(), cfg);
        if escaped(coins.last()) && in_reward_area(coins.last(), cfg) {
            rest.push((coins.last().state.id, coins.last().owner))
        } else {
            rest
        }
    }
}

/// Every collected coin is also removed: collection picks among the
/// removed coins, by id.
pub proof fn lemma_collected_subset_removed(coins: Seq<CoinHandle>, cfg: RoomConfig)
    ensures
        forall|i: int|
            0 <= i < collected_coins(coins, cfg).len() ==> removed_ids(coins).contains(
                (#[trigger] collected_coins(coins, cfg)[i]).0,
            ),
    decreases coins.len(),
{
    if coins.len() > 0 {
        let head = coins.drop_last();
        lemma_collected_subset_removed(head, cfg);
        let col = collected_coins(coins, cfg);
        let col_head = collected_coins(head, cfg);
        let rem = removed_ids(coins);
        let rem_head = removed_ids(head);
        assert forall|i: int| 0 <= i < col.len() implies rem.contains(
            (#[trigger] col[i]).0,
        ) by {
            if i < col_head.len() {
                assert(col[i] == col_head[i]);
                assert(rem_head.contains(col_head[i].0));
                let w = choose|w: int| 0 <= w < rem_head.len() && rem_head[w] == col_head[i].0;
                assert(rem[w] == col[i].0);
            } else {
                assert(col[i] == (coins.last().state.id, coins.last().owner));
                assert(rem[rem.len() - 1] == coins.last().state.id);
            }
        }
    }
}

/// Surviving coins are a subsequence of the table: order and id bounds
/// carry over.
pub proof fn lemma_surviving_wf(coins: Seq<CoinHandle>, bound: CoinId)
    requires
        coins_sorted(coins),
        coin_ids_below(coins, bound),
    ensures
        coins_sorted(surviving(coins)),
        coin_ids_below(surviving(coins), bound),
        forall|p: int|
            0 <= p < surviving(coins).len() ==> exists|q: int|
                0 <= q < coins.len() && #[trigger] surviving(coins)[p] == coins[q],
    decreases coins.len(),
{
    if coins.len() > 0 {
        let head = coins.drop_last();
        assert(coins_sorted(head));
        assert(coin_ids_below(head, bound));
        lemma_surviving_wf(head, bound);
        let rest = surviving(head);
        assert forall|p: int| 0 <= p < surviving(coins).len() implies exists|q: int|
            0 <= q < coins.len() && #[trigger] surviving(coins)[p] == coins[q] by {
            if p < rest.len() {
                let q = choose|q: int| 0 <= q < head.len() && rest[p] == head[q];
                assert(coins[q] == head[q]);
                assert(surviving(coins)[p] == coins[q]);
            } else {
                assert(surviving(coins)[p] == coins[coins.len() - 1]);
            }
        }
        if !escaped(coins.last()) {
            assert forall|i: int, j: int|
                #![trigger surviving(coins)[i], surviving(coins)[j]]
                0 <= i < j < surviving(coins).len() implies surviving(coins)[i].state.id
                < surviving(coins)[j].state.id by {
                if j < rest.len() {
                } else {
                    let q = choose|q: int| 0 <= q < head.len() && rest[i] == head[q];
                    assert(surviving(coins)[i] == coins[q]);
                    assert(surviving(coins)[j] == coins[coins.len() - 1]);
                }
            }
        }
    }
}

/// Distance the pusher covers in `dt` microseconds at `speed` (10^-4 m/s)
/// toward direction `dir`, rounded toward zero.
pub open spec fn signed_travel(speed: int, dir: int, dt: int) -> int {
    let s = speed * dir;
    if s >= 0 {
        (s * dt) / 1000000
    } else {
        -(((-s) * dt) / 1000000)
    }
}

/// Where the pusher would land without the turnaround clamps.
pub open spec fn pusher_target(cfg: RoomConfig, z: i32, dir: i32, dt: u64) -> int {
    z + signed_travel(cfg.push_speed as int, dir as int, dt as int)
}

/// The pusher's next position and direction: the target, clamped to the
/// oscillation interval, turning around at either end.
pub open spec fn pusher_next(cfg: RoomConfig, z: i32, dir: i32, dt: u64) -> (i32, i32) {
    let raw = pusher_target(cfg, z, dir, dt);
    if raw >= cfg.push_max_z {
        (cfg.push_max_z, -1i32)
    } else if raw <= cfg.push_min_z {
        (cfg.push_min_z, 1i32)
    } else {
        (raw as i32, dir)
    }
}

/// Wherever the pusher starts, one step lands it inside the configured
/// interval whenever that interval is non-empty.
pub proof fn lemma_pusher_step_in_bounds(cfg: RoomConfig, z: i32, dir: i32, dt: u64)
    requires
        cfg.push_min_z <= cfg.push_max_z,
    ensures
        cfg.push_min_z <= pusher_next(cfg, z, dir, dt).0 <= cfg.push_max_z,
{
}

/// Coin ids are handed out in strictly increasing order: any id assigned
/// later is larger, so no id is ever reused.
pub proof fn lemma_coin_ids_monotone(w: PhysicsView, i: int, j: int)
    requires
        w.wf(),
        0 <= i < j < w.spawned.len(),
    ensures
        w.spawned[i] < w.spawned[j],
{
}

/// Copies an owner tag.
fn clone_owner(o: &Option<PlayerId>) -> (r: Option<PlayerId>)
    ensures
        r == *o,
{
    match o {
        Some(p) => Some(p.clone()),
        None => None,
    }
}

/// A whole coin table after taking a report into account.
pub open spec fn observe_all(coins: Seq<CoinHandle>, obs: Seq<CoinState>) -> Seq<CoinHandle> {
    coins.map_values(|c: CoinHandle| observed_handle(c, obs))
}

/// Taking a report into account changes neither a coin's id nor its owner.
pub proof fn lemma_observe_all_ids(coins: Seq<CoinHandle>, obs: Seq<CoinState>)
    ensures
        observe_all(coins, obs).len() == coins.len(),
        forall|i: int|
            0 <= i < coins.len() ==> (#[trigger] observe_all(coins, obs)[i]).state.id
                == coins[i].state.id && observe_all(coins, obs)[i].owner == coins[i].owner,
{
    assert forall|i: int| 0 <= i < coins.len() implies (#[trigger] observe_all(coins, obs)[i])
        .state.id == coins[i].state.id && observe_all(coins, obs)[i].owner
        == coins[i].owner by {
        let c = coins[i];
        if has_coin(obs, c.state.id) {
            let w = choose|k: int| 0 <= k < obs.len() && #[trigger] obs[k].id == c.state.id;
            assert(obs[w].id == c.state.id);
        }
    }
}

/// Finds the reported state of coin `id`, if the report mentions it.
pub(crate) fn find_observed(observed: &Vec<CoinState>, id: CoinId) -> (r: Option<CoinState>)
    requires
        unique_coin_ids(observed@),
    ensures
        has_coin(observed@, id) ==> (r matches Some(st) && st == coin_obs(observed@, id)),
        !has_coin(observed@, id) ==> r matches None,
{
    let mut k: usize = 0;
    while k < observed.len()
        invariant
            k <= observed@.len(),
            unique_coin_ids(observed@),
            forall|t: int| 0 <= t < k ==> (#[trigger] observed@[t].id) != id,
        decreases observed@.len() - k,
    {
        if observed[k].id == id {
            proof {
                assert(has_coin(observed@, id));
                let w = choose|t: int| 0 <= t < observed@.len() && #[trigger] observed@[t].id
                    == id;
                assert(observed@[w].id == id);
                if w < k as int {
                    assert(observed@[w].id != observed@[k as int].id);
                    assert(false);
                } else if w > k as int {
                    assert(observed@[k as int].id != observed@[w].id);
                    assert(false);
                }
                assert(coin_obs(observed@, id) == observed@[k as int]);
            }
            return Some(observed[k]);
        }
        k += 1;
    }
    proof {
        if has_coin(observed@, id) {
            let w = choose|t: int| 0 <= t < observed@.len() && #[trigger] observed@[t].id == id;
            assert(observed@[w].id != id);
            assert(false);
        }
    }
    None
}

/// A world as a room starts: no coins yet, the pusher parked at the lower
/// end of its travel.
pub open spec fn empty_world(config: RoomConfig) -> PhysicsView {
    PhysicsView {
        config,
        coin_id_counter: 1,
        coins: Seq::empty(),
        pending: Seq::empty(),
        push_z: config.push_min_z,
        push_dir: 1i32,
        spawned: Seq::empty(),
    }
}

/// The coins one tiling step places at offset `x` of row `z`: a single
/// coin on the centre line, otherwise a mirrored pair.
pub open spec fn tile_cell(x: int, z: int) -> Seq<(i32, i32)> {
    if x == 0 {
        seq![(0i32, z as i32)]
    } else {
        seq![(x as i32, z as i32), ((-x) as i32, z as i32)]
    }
}

/// One row of the preloaded tiling from offset `x` on.
pub open spec fn tile_row(x: int, z: int) -> Seq<(i32, i32)>
    decreases TILE_MAX_X - x,
{
    if x + TILE_STEP > TILE_MAX_X {
        tile_cell(x, z)
    } else {
        tile_cell(x, z) + tile_row(x + TILE_STEP, z)
    }
}

/// The preloaded rows from `z` up to the tiling's far edge.
pub open spec fn tile_rows(z: int) -> Seq<(i32, i32)>
    decreases TILE_MAX_Z + TILE_STEP - z,
{
    if z >= TILE_MAX_Z {
        Seq::empty()
    } else {
        tile_row(0, z) + tile_rows(z + TILE_STEP)
    }
}

/// Every (x, z) position of the preloaded table coins, in placement order.
pub open spec fn initial_tile_positions() -> Seq<(i32, i32)> {
    tile_rows(TILE_MIN_Z as int)
}

/// The world after placing one unowned table coin at each position.
pub open spec fn spawn_all(v: PhysicsView, ps: Seq<(i32, i32)>) -> PhysicsView
    decreases ps.len(),
{
    if ps.len() == 0 {
        v
    } else {
        spawn_all(v, ps.drop_last()).spawn_at(ps.last().0, TABLE_COIN_Y, ps.last().1, None)
    }
}

/// A room's world at birth: the empty world plus the preloaded table
/// coins.
pub open spec fn initial_world(config: RoomConfig) -> PhysicsView {
    spawn_all(empty_world(config), initial_tile_positions())
}

/// Walks the tiling and lists every preloaded coin position in placement
/// order.
fn tile_positions() -> (positions: Vec<(i32, i32)>)
    ensures
        positions@ == initial_tile_positions(),
        positions@.len() <= 60,
{
    let mut positions: Vec<(i32, i32)> = Vec::new();
    let mut x: i32 = 0;
    let mut z: i32 = TILE_MIN_Z;
    while z < TILE_MAX_Z
        invariant
            0 <= x <= TILE_MAX_X,
            TILE_MIN_Z <= z <= TILE_MAX_Z + TILE_STEP,
            13500 * (positions@.len() as int) <= 2 * (4 * (z as int - TILE_MIN_Z as int)
                + x as int + 13500),
            z < TILE_MAX_Z ==> positions@ + tile_row(x as int, z as int) + tile_rows(
                z as int + TILE_STEP as int,
            ) == initial_tile_positions(),
            z >= TILE_MAX_Z ==> positions@ == initial_tile_positions(),
        decreases
                TILE_MAX_Z as int + TILE_STEP as int - z as int,
                TILE_MAX_X as int + TILE_STEP as int - x as int,
    {
        let ghost x0 = x as int;
        let ghost z0 = z as int;
        let ghost before = positions@;
        if x == 0 {
            positions.push((0, z));
        } else {
            positions.push((x, z));
            positions.push((-x, z));
        }
        proof {
            assert(positions@ =~= before + tile_cell(x0, z0));
            if x0 + TILE_STEP > TILE_MAX_X {
                assert(tile_row(x0, z0) == tile_cell(x0, z0));
            } else {
                assert(tile_row(x0, z0) == tile_cell(x0, z0) + tile_row(x0 + TILE_STEP, z0));
            }
        }
        x = x + TILE_STEP;
        if x > TILE_MAX_X {
            x = 0;
            z = z + TILE_STEP;
            proof {
                assert(tile_row(x0, z0) == tile_cell(x0, z0));
                assert(positions@ =~= before + tile_row(x0, z0));
                if (z as int) < TILE_MAX_Z {
                    assert(tile_rows(z as int) == tile_row(0, z as int) + tile_rows(
                        z as int + TILE_STEP,
                    ));
                    assert(positions@ + tile_row(x as int, z as int) + tile_rows(
                        z as int + TILE_STEP,
                    ) =~= before + tile_row(x0, z0) + tile_rows(z0 + TILE_STEP));
                } else {
                    assert(tile_rows(z0 + TILE_STEP) =~= Seq::<(i32, i32)>::empty());
                    assert(positions@ =~= before + tile_row(x0, z0) + tile_rows(z0 + TILE_STEP));
                }
            }
        } else {
            proof {
                assert(positions@ + tile_row(x as int, z as int) + tile_rows(
                    z as int + TILE_STEP,
                ) =~= before + tile_row(x0, z0) + tile_rows(z0 + TILE_STEP));
            }
        }
    }
    positions
}

impl PhysicsWorld {
    /// Builds a room's world: the pusher at its lower end and the
    /// preloaded coin tiling queued for the integrator.
    pub fn new(config: RoomConfig) -> (w: PhysicsWorld)
        ensures
            w@.wf(),
            w@ == initial_world(config),
    {
        let mut w = PhysicsWorld {
            config,
            coin_id_counter: 1,
            coin_map: Vec::new(),
            pending_spawns: Vec::new(),
            push_z: config.push_min_z,
            push_dir: 1,
            spawned_ids: Ghost(Seq::empty()),
        };
        proof {
            assert(w@ =~= empty_world(config));
        }
        w.create_initial_coins();
        w
    }

    /// Places the preloaded table coins: rows of mirrored pairs around the
    /// centre line, spaced one tile apart.
    fn create_initial_coins(&mut self)
        requires
            old(self)@ == empty_world(old(self).config),
        ensures
            final(self)@.wf(),
            final(self)@ == initial_world(old(self).config),
    {
        let ghost cfg = self.config;
        let positions = tile_positions();
        let mut i: usize = 0;
        while i < positions.len()
            invariant
                i <= positions@.len(),
                positions@.len() <= 60,
                positions@ == initial_tile_positions(),
                self.config == cfg,
                self@.wf(),
                self.coin_id_counter as int == 1 + i as int,
                self@ == spawn_all(empty_world(cfg), positions@.subrange(0, i as int)),
            decreases positions@.len() - i,
        {
            let p = positions[i];
            self.spawn_coin_at_position(p.0, TABLE_COIN_Y, p.1, None);
            proof {
                assert(positions@.subrange(0, i + 1 as int).drop_last() =~= positions@.subrange(
                    0,
                    i as int,
                ));
                assert(positions@.subrange(0, i + 1 as int).last() == positions@[i as int]);
            }
            i += 1;
        }
        proof {
            assert(positions@.subrange(0, positions@.len() as int) =~= positions@);
        }
    }

    /// Moves the pusher platform by one step of `dt` microseconds,
    /// turning it around at the ends of its travel.
    pub fn update_push_platform(&mut self, dt: u64)
        requires
            old(self)@.wf(),
        ensures
            final(self)@.wf(),
            final(self)@ == (PhysicsView {
                push_z: pusher_next(old(self).config, old(self).push_z, old(self).push_dir, dt).0,
                push_dir: pusher_next(old(self).config, old(self).push_z, old(self).push_dir, dt).1,
                ..old(self)@
            }),
    {
        let speed: i64 = self.config.push_speed as i64;
        let s: i64 = if self.push_dir >= 0 {
            speed
        } else {
            -speed
        };
        proof {
            let sp = self.config.push_speed as int;
            let d = self.push_dir as int;
            assert(d == 1 ==> sp * d == sp) by (nonlinear_arith);
            assert(d == -1 ==> sp * d == -sp) by (nonlinear_arith);
        }
        assert(s == (self.config.push_speed as int) * (self.push_dir as int));
        let mag: u128 = (if s < 0 {
            (-s) as u128
        } else {
            s as u128
        });
        assert(mag <= 0x8000_0000u128);
        let dtw: u128 = dt as u128;
        assert(mag * dtw <= 0x8000_0000u128 * 0xFFFF_FFFF_FFFF_FFFFu128) by (nonlinear_arith)
            requires
                mag <= 0x8000_0000u128,
                dtw <= 0xFFFF_FFFF_FFFF_FFFFu128,
        ;
        let scaled: u128 = mag * dtw;
        let travel: u128 = scaled / 1000000;
        let raw: i128 = (self.push_z as i128) + (if s >= 0 {
            travel as i128
        } else {
            -(travel as i128)
        });
        assert(raw == pusher_target(self.config, self.push_z, self.push_dir, dt));
        if raw >= (self.config.push_max_z as i128) {
            self.push_z = self.config.push_max_z;
            self.push_dir = -1;
        } else if raw <= (self.config.push_min_z as i128) {
            self.push_z = self.config.push_min_z;
            self.push_dir = 1;
        } else {
            self.push_z = raw as i32;
        }
        proof {
            assert(final(self)@ =~= (PhysicsView {
                push_z: pusher_next(old(self).config, old(self).push_z, old(self).push_dir, dt).0,
                push_dir: pusher_next(old(self).config, old(self).push_z, old(self).push_dir, dt).1,
                ..old(self)@
            }));
        }
    }

    /// Assigns the next coin id to a coin placed at `(x, y, z)` and queues
    /// the command that will create its body.
    fn spawn_coin_at_position(&mut self, x: i32, y: i32, z: i32, owner: Option<PlayerId>) -> (id:
        CoinId)
        requires
            old(self)@.wf(),
            old(self).coin_id_counter < u64::MAX,
        ensures
            final(self)@.wf(),
            id == old(self).coin_id_counter,
            final(self)@ == old(self)@.spawn_at(x, y, z, owner),
    {
        let coin_id = self.coin_id_counter;
        self.coin_id_counter = self.coin_id_counter + 1;
        let state = CoinState {
            id: coin_id,
            p: Position { x, y, z },
            r: Rotation { x: 0, y: 0, z: 0, w: 10000 },
        };
        self.coin_map.push(CoinHandle { owner, state });
        self.pending_spawns.push(SpawnCommand { coin_id, x, y, z });
        proof {
            self.spawned_ids@ = self.spawned_ids@.push(coin_id);
        }
        proof {
            assert(final(self)@ =~= old(self)@.spawn_at(x, y, z, owner));
        }
        coin_id
    }

    /// Spawns a player-dropped coin at drop height over the table's back
    /// edge and returns its fresh id.
    pub fn spawn_coin(&mut self, x: i32, owner: Option<PlayerId>) -> (id: CoinId)
        requires
            old(self)@.wf(),
            old(self).coin_id_counter < u64::MAX,
        ensures
            final(self)@.wf(),
            id == old(self).coin_id_counter,
            final(self)@ == old(self)@.spawn_at(x, old(self).config.drop_height, DROP_Z, owner),
    {
        let h = self.config.drop_height;
        self.spawn_coin_at_position(x, h, DROP_Z, owner)
    }

    /// Takes one step's integrator report: refreshes every reported
    /// coin's state, removes the coins that fell below the floor-escape
    /// line, and reports which of those ended inside the collection area,
    /// with their owners.
    pub fn step(&mut self, observed: &Vec<CoinState>) -> (r: PhysicsStepResult)
        requires
            old(self)@.wf(),
            unique_coin_ids(observed@),
        ensures
            final(self)@.wf(),
            final(self)@ == old(self)@.after_step(observed@),
            r.removed@ == old(self)@.step_removed(observed@),
            r.collected@ == old(self)@.step_collected(observed@),
    {
        let ghost obs = observed@;
        let mut updated: Vec<CoinHandle> = Vec::new();
        let mut i: usize = 0;
        while i < self.coin_map.len()
            invariant
                i <= self.coin_map@.len(),
                *self == *old(self),
                unique_coin_ids(obs),
                obs == observed@,
                updated@ == observe_all(self.coin_map@.subrange(0, i as int), obs),
            decreases self.coin_map@.len() - i,
        {
            let id = self.coin_map[i].state.id;
            let found = find_observed(observed, id);
            let owner = clone_owner(&self.coin_map[i].owner);
            let prev = self.coin_map[i].state;
            let nh = match found {
                Some(st) => CoinHandle { owner, state: st },
                None => CoinHandle { owner, state: prev },
            };
            proof {
                assert(nh == observed_handle(self.coin_map@[i as int], obs));
            }
            updated.push(nh);
            proof {
                assert(observe_all(self.coin_map@.subrange(0, i + 1 as int), obs) =~= observe_all(
                    self.coin_map@.subrange(0, i as int),
                    obs,
                ).push(observed_handle(self.coin_map@[i as int], obs)));
            }
            i += 1;
        }
        proof {
            assert(self.coin_map@.subrange(0, self.coin_map@.len() as int) =~= self.coin_map@);
            lemma_observe_all_ids(self.coin_map@, obs);
        }
        self.coin_map = updated;
        let ghost mid = self.coin_map@;
        let mut kept: Vec<CoinHandle> = Vec::new();
        let mut removed: Vec<CoinId> = Vec::new();
        let mut collected: Vec<(CoinId, Option<PlayerId>)> = Vec::new();
        let mut j: usize = 0;
        while j < self.coin_map.len()
            invariant
                j <= self.coin_map@.len(),
                self.coin_map@ == mid,
                self.config == old(self).config,
                kept@ == surviving(mid.subrange(0, j as int)),
                removed@ == removed_ids(mid.subrange(0, j as int)),
                collected@ == collected_coins(mid.subrange(0, j as int), self.config),
            decreases self.coin_map@.len() - j,
        {
            let c_state = self.coin_map[j].state;
            if c_state.p.y < FLOOR_ESCAPE_Y {
                removed.push(c_state.id);
                if c_state.p.z > self.config.reward_line_z && c_state.p.x < REWARD_HALF_WIDTH_X
                    && c_state.p.x > -REWARD_HALF_WIDTH_X {
                    let owner = clone_owner(&self.coin_map[j].owner);
                    collected.push((c_state.id, owner));
                }
            } else {
                let owner = clone_owner(&self.coin_map[j].owner);
                kept.push(CoinHandle { owner, state: c_state });
            }
            proof {
                assert(mid.subrange(0, j + 1 as int).drop_last() =~= mid.subrange(0, j as int));
                assert(mid.subrange(0, j + 1 as int).last() == mid[j as int]);
            }
            j += 1;
        }
        proof {
            assert(mid.subrange(0, mid.len() as int) =~= mid);
        }
        self.coin_map = kept;
        proof {
            lemma_surviving_wf(mid, old(self)@.coin_id_counter);
            assert(final(self)@ =~= old(self)@.after_step(observed@));
        }
        PhysicsStepResult { collected, removed }
    }

    /// The state of every live coin, in ascending id order.
    pub fn collect_coin_states(&self) -> (r: Vec<CoinState>)
        ensures
            r@ == self@.coins.map_values(|c: CoinHandle| c.state),
    {
        let mut r: Vec<CoinState> = Vec::new();
        let mut i: usize = 0;
        while i < self.coin_map.len()
            invariant
                i <= self.coin_map@.len(),
                r@.len() == i,
                forall|t: int| 0 <= t < i ==> #[trigger] r@[t] == self.coin_map@[t].state,
            decreases self.coin_map@.len() - i,
        {
            let st = self.coin_map[i].state;
            r.push(st);
            i += 1;
        }
        proof {
            assert(r@ =~= self@.coins.map_values(|c: CoinHandle| c.state));
        }
        r
    }

    /// The pusher platform's current Z.
    pub fn get_push_z(&self) -> (z: i32)
        ensures
            z == self@.push_z,
    {
        self.push_z
    }

    /// Hands out the queued body-creation commands and empties the queue.
    pub fn take_pending_spawns(&mut self) -> (r: Vec<SpawnCommand>)
        requires
            old(self)@.wf(),
        ensures
            final(self)@.wf(),
            r@ == old(self)@.pending,
            final(self)@ == (PhysicsView { pending: Seq::empty(), ..old(self)@ }),
    {
        let mut r: Vec<SpawnCommand> = Vec::new();
        let mut i: usize = 0;
        while i < self.pending_spawns.len()
            invariant
                i <= self.pending_spawns@.len(),
                r@ == self.pending_spawns@.subrange(0, i as int),
                self == old(self),
            decreases self.pending_spawns@.len() - i,
        {
            let c = self.pending_spawns[i];
            r.push(c);
            proof {
                assert(self.pending_spawns@.subrange(0, i + 1 as int) =~= self.pending_spawns@
                    .subrange(0, i as int).push(self.pending_spawns@[i as int]));
            }
            i += 1;
        }
        self.pending_spawns.clear();
        proof {
            assert(r@ =~= old(self)@.pending);
            assert(final(self)@ =~= (PhysicsView { pending: Seq::empty(), ..old(self)@ }));
        }
        r
    }
}

} // verus!
