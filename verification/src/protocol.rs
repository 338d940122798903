//! Message shapes exchanged with the gateway, and the per-room configuration.
//!
//! Lengths are fixed-point integers in units of 10^-4 m, so `10000` is one
//! metre. Rates are in units of 10^-4 Hz. The gateway-facing transport turns
//! these into its own floating-point wire form; this crate never holds a
//! float.
use vstd::prelude::*;

verus! {

/// Opaque room identifier, unique within one manager.
pub type RoomId = String;

/// Opaque player identifier, assigned by the gateway.
pub type PlayerId = String;

/// Coin identifier, assigned per physics world starting at 1.
pub type CoinId = u64;

/// Wallet transaction identifier, assigned by the gateway.
pub type TransactionId = String;

/// Fixed-point length units per metre.
pub const UNITS_PER_METER: i32 = 10000;

/// A coin state counts as moved when the L1 sum of the per-axis position
/// deltas exceeds this many length units (0.01 m).
pub const POSITION_CHANGE_THRESHOLD: i64 = 100;

/// A coin state counts as turned when the L1 sum over the four quaternion
/// components exceeds this many units (0.01 in component scale).
pub const ROTATION_CHANGE_THRESHOLD: i64 = 100;

/// A position, in units of 10^-4 m per axis.
#[derive(Clone, Copy, Debug, PartialEq, Eq, Structural)]
pub struct Position {
    pub x: i32,
    pub y: i32,
    pub z: i32,
}

/// A unit quaternion, each component in units of 10^-4.
#[derive(Clone, Copy, Debug, PartialEq, Eq, Structural)]
pub struct Rotation {
    pub x: i32,
    pub y: i32,
    pub z: i32,
    pub w: i32,
}

/// The observable state of one coin.
#[derive(Clone, Copy, Debug, PartialEq, Eq, Structural)]
pub struct CoinState {
    pub id: CoinId,
    pub p: Position,
    pub r: Rotation,
}

/// Per-room configuration, immutable after room creation except for
/// `snapshot_rate`.
#[derive(Clone, Copy, Debug, PartialEq, Eq, Structural)]
pub struct RoomConfig {
    /// Gravitational acceleration in 10^-4 m/s^2; downward is negative.
    pub gravity: i32,
    /// Height above the table at which dropped coins appear, 10^-4 m.
    pub drop_height: i32,
    /// Coin cylinder radius, 10^-4 m.
    pub coin_radius: i32,
    /// Coin cylinder height, 10^-4 m.
    pub coin_height: i32,
    /// Coins removed with Z beyond this line are reward-eligible, 10^-4 m.
    pub reward_line_z: i32,
    /// Lower bound of the pusher's Z oscillation, 10^-4 m.
    pub push_min_z: i32,
    /// Upper bound of the pusher's Z oscillation, 10^-4 m.
    pub push_max_z: i32,
    /// Pusher speed, 10^-4 m/s.
    pub push_speed: i32,
    /// Snapshot emission rate in 10^-4 Hz; 300000 is 30 Hz.
    pub snapshot_rate: u32,
}

/// The default configuration: the stock table used when the gateway does not
/// override it.
pub open spec fn default_config() -> RoomConfig {
    RoomConfig {
        gravity: -200000i32,
        drop_height: 100000,
        coin_radius: 5000,
        coin_height: 1000,
        reward_line_z: -5000i32,
        push_min_z: -88000i32,
        push_max_z: -60000i32,
        push_speed: 15000,
        snapshot_rate: 300000,
    }
}

impl Default for RoomConfig {
    fn default() -> (c: Self)
        ensures
            c == default_config(),
    {
        RoomConfig {
            gravity: -200000,
            drop_height: 100000,
            coin_radius: 5000,
            coin_height: 1000,
            reward_line_z: -5000,
            push_min_z: -88000,
            push_max_z: -60000,
            push_speed: 15000,
            snapshot_rate: 300000,
        }
    }
}

/// Messages from the gateway to the engine.
#[derive(Clone, Debug)]
pub enum FromNode {
    CreateRoom { room_id: RoomId, config: RoomConfig },
    DestroyRoom { room_id: RoomId },
    PlayerJoin { room_id: RoomId, player_id: PlayerId },
    PlayerLeave { room_id: RoomId, player_id: PlayerId },
    PlayerDropCoin {
        room_id: RoomId,
        player_id: PlayerId,
        /// Drop X coordinate, 10^-4 m.
        x: i32,
        /// Advisory client-side tick; accepted and ignored by the core.
        client_tick: Option<u64>,
    },
    WalletResult { room_id: RoomId, player_id: PlayerId, tx_id: TransactionId, ok: bool },
}

/// Messages from the engine to the gateway.
#[derive(Clone, Debug)]
pub enum ToNode {
    /// A full keyframe carrying every live coin.
    Snapshot {
        room_id: RoomId,
        tick: u64,
        /// Pusher Z position, 10^-4 m.
        push_z: i32,
        coins: Vec<CoinState>,
        events: Vec<RoomEvent>,
    },
    /// An incremental snapshot carrying only coin diffs.
    DeltaSnapshot {
        room_id: RoomId,
        tick: u64,
        /// Pusher Z position, 10^-4 m.
        push_z: i32,
        added: Vec<CoinState>,
        updated: Vec<CoinState>,
        removed: Vec<CoinId>,
        events: Vec<RoomEvent>,
    },
    /// A request that the gateway debit a player's wallet.
    NeedDeductGold { room_id: RoomId, player_id: PlayerId, tx_id: TransactionId, amount: i64 },
    /// Defined for the gateway protocol; the core paths never emit it.
    RoomClosed { room_id: RoomId, reason: String },
}

/// Events that happened inside a room during one tick.
#[derive(Clone, Debug)]
pub enum RoomEvent {
    /// A coin fell into the collection area and is credited to its owner.
    CoinDroppedToReward { player_id: PlayerId, coin_id: CoinId, reward_amount: i64 },
    /// All coins removed this tick, credited or not.
    CoinCollected { coin_ids: Vec<CoinId> },
}

/// The magnitude of the difference of two fixed-point values.
pub open spec fn abs_diff(a: int, b: int) -> int {
    if a >= b {
        a - b
    } else {
        b - a
    }
}

/// L1 distance between two positions, in 10^-4 m.
pub open spec fn position_l1(a: Position, b: Position) -> int {
    abs_diff(a.x as int, b.x as int) + abs_diff(a.y as int, b.y as int) + abs_diff(
        a.z as int,
        b.z as int,
    )
}

/// L1 distance between two quaternions, summed over the four components.
pub open spec fn rotation_l1(a: Rotation, b: Rotation) -> int {
    abs_diff(a.x as int, b.x as int) + abs_diff(a.y as int, b.y as int) + abs_diff(
        a.z as int,
        b.z as int,
    ) + abs_diff(a.w as int, b.w as int)
}

/// Whether the step from `old` to `new` is large enough to report in a
/// delta snapshot.
pub open spec fn significant_change(new: CoinState, old: CoinState) -> bool {
    position_l1(new.p, old.p) > POSITION_CHANGE_THRESHOLD || rotation_l1(new.r, old.r)
        > ROTATION_CHANGE_THRESHOLD
}

/// `|a - b|` widened to 64 bits so the subtraction cannot overflow.
fn diff_magnitude(a: i32, b: i32) -> (r: i64)
    ensures
        r == abs_diff(a as int, b as int),
{
    let d: i64 = a as i64 - b as i64;
    if d < 0 {
        -d
    } else {
        d
    }
}

impl CoinState {
    /// Whether this state differs from `other` by more than the reporting
    /// thresholds, in position or in orientation.
    pub fn has_significant_change(&self, other: &CoinState) -> (r: bool)
        ensures
            r == significant_change(*self, *other),
    {
        let pos_diff: i64 = diff_magnitude(self.p.x, other.p.x) + diff_magnitude(
            self.p.y,
            other.p.y,
        ) + diff_magnitude(self.p.z, other.p.z);
        let rot_diff: i64 = diff_magnitude(self.r.x, other.r.x) + diff_magnitude(
            self.r.y,
            other.r.y,
        ) + diff_magnitude(self.r.z, other.r.z) + diff_magnitude(self.r.w, other.r.w);
        pos_diff > POSITION_CHANGE_THRESHOLD || rot_diff > ROTATION_CHANGE_THRESHOLD
    }
}

} // verus!
