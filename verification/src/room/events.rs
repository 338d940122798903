//! Events queued inside a room and applied at the head of each tick.
use vstd::prelude::*;

use crate::protocol::{PlayerId, RoomEvent, TransactionId};
use crate::room::physics::DROP_Z;
use crate::room::room_state::{has_player, remove_player, PlayerInfo, RoomState, RoomView};

verus! {

/// An event queued for a room, applied in arrival order at the next tick.
#[derive(Clone, Debug)]
pub enum Event {
    PlayerJoin { player_id: PlayerId },
    PlayerLeave { player_id: PlayerId },
    PlayerDropCoin { player_id: PlayerId, x: i32 },
    WalletResult { player_id: PlayerId, tx_id: TransactionId, ok: bool },
}

/// What applying one event does to a room.
///
/// Joins insert an absent player and leave a present one alone; leaves
/// remove the player; a coin drop spawns an owned coin at the configured
/// drop height; a wallet result changes nothing at this layer.
pub open spec fn apply_event_spec(v: RoomView, e: Event) -> RoomView {
    match e {
        Event::PlayerJoin { player_id } => {
            if has_player(v.players, player_id) {
                v
            } else {
                RoomView { players: v.players.push(PlayerInfo { id: player_id }), ..v }
            }
        },
        Event::PlayerLeave { player_id } => {
            RoomView { players: remove_player(v.players, player_id), ..v }
        },
        Event::PlayerDropCoin { player_id, x } => {
            if v.physics.coin_id_counter < u64::MAX {
                RoomView {
                    physics: v.physics.spawn_at(
                        x,
                        v.physics.config.drop_height,
                        DROP_Z,
                        Some(player_id),
                    ),
                    ..v
                }
            } else {
                v
            }
        },
        Event::WalletResult { .. } => v,
    }
}

impl Event {
    /// Applies this event to the room. `out_events` is threaded through
    /// for symmetry with the tick pipeline; no event kind writes to it.
    pub fn apply(self, room: &mut RoomState, out_events: &mut Vec<RoomEvent>)
        requires
            old(room)@.wf(),
        ensures
            final(room)@.wf(),
            final(room)@ == apply_event_spec(old(room)@, self),
            *final(out_events) == *old(out_events),
    {
        match self {
            Event::PlayerJoin { player_id } => {
                let mut i: usize = 0;
                let mut found = false;
                while i < room.players.len()
                    invariant
                        i <= room.players@.len(),
                        *room == *old(room),
                        found <==> exists|t: int|
                            0 <= t < i && (#[trigger] room.players@[t].id)@ == player_id@,
                    decreases room.players@.len() - i,
                {
                    if room.players[i].id == player_id {
                        found = true;
                    }
                    i += 1;
                }
                if !found {
                    proof {
                        assert(!has_player(room@.players, player_id));
                    }
                    room.players.push(PlayerInfo { id: player_id });
                    proof {
                        assert(final(room)@ =~= apply_event_spec(old(room)@, self));
                    }
                } else {
                    proof {
                        let t = choose|t: int|
                            0 <= t < room.players@.len() && (#[trigger] room.players@[t].id)@
                                == player_id@;
                        assert(room.players@[t].id@ == player_id@);
                        assert(has_player(room@.players, player_id));
                    }
                }
            },
            Event::PlayerLeave { player_id } => {
                let mut stay: Vec<PlayerInfo> = Vec::new();
                let mut i: usize = 0;
                while i < room.players.len()
                    invariant
                        i <= room.players@.len(),
                        *room == *old(room),
                        stay@ == remove_player(room.players@.subrange(0, i as int), player_id),
                    decreases room.players@.len() - i,
                {
                    proof {
                        assert(room.players@.subrange(0, i + 1 as int).drop_last() =~= room
                            .players@.subrange(0, i as int));
                        assert(room.players@.subrange(0, i + 1 as int).last()
                            == room.players@[i as int]);
                    }
                    if !(room.players[i].id == player_id) {
                        let keep = PlayerInfo { id: room.players[i].id.clone() };
                        stay.push(keep);
                    }
                    i += 1;
                }
                proof {
                    assert(room.players@.subrange(0, room.players@.len() as int) =~= room
                        .players@);
                }
                room.players = stay;
                proof {
                    assert(final(room)@ =~= apply_event_spec(old(room)@, self));
                }
            },
            Event::PlayerDropCoin { player_id, x } => {
                if room.physics.coin_id_counter < u64::MAX {
                    room.physics.spawn_coin(x, Some(player_id));
                    proof {
                        assert(final(room)@ =~= apply_event_spec(
                            old(room)@,
                            Event::PlayerDropCoin { player_id, x },
                        ));
                    }
                }
            },
            Event::WalletResult { .. } => {},
        }
    }
}

/// Copies an event.
pub fn clone_event(e: &Event) -> (r: Event)
    ensures
        r == *e,
{
    match e {
        Event::PlayerJoin { player_id } => Event::PlayerJoin { player_id: player_id.clone() },
        Event::PlayerLeave { player_id } => Event::PlayerLeave { player_id: player_id.clone() },
        Event::PlayerDropCoin { player_id, x } => Event::PlayerDropCoin {
            player_id: player_id.clone(),
            x: *x,
        },
        Event::WalletResult { player_id, tx_id, ok } => Event::WalletResult {
            player_id: player_id.clone(),
            tx_id: tx_id.clone(),
            ok: *ok,
        },
    }
}

} // verus!
