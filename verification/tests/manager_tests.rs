//! Manager-level behavior: room lifecycle, event routing, tick pipeline,
//! and snapshot emission, driven without an integrator.
use room_service::protocol::{FromNode, RoomConfig, ToNode};
use room_service::room::RoomManager;

/// One tick at 30 Hz, in microseconds.
const DT: u64 = 33333;

fn create_test_config() -> RoomConfig {
    RoomConfig {
        gravity: -200000,
        drop_height: 100000,
        coin_radius: 5000,
        coin_height: 1000,
        reward_line_z: -5000,
        push_min_z: -88000,
        push_max_z: -60000,
        push_speed: 15000,
        snapshot_rate: 300000,
    }
}

fn create_room(manager: &mut RoomManager, id: &str) {
    let mut outgoing = Vec::new();
    manager.handle_msg_from_node(
        FromNode::CreateRoom { room_id: id.to_string(), config: create_test_config() },
        &mut outgoing,
    );
    assert!(outgoing.is_empty());
}

/// The number of preloaded table coins, observed from a fresh room's first
/// snapshot rather than hard-coded.
fn initial_coin_count() -> usize {
    let mut manager = RoomManager::new();
    create_room(&mut manager, "probe");
    let mut outgoing = Vec::new();
    manager.tick_all(DT, &mut outgoing);
    assert_eq!(outgoing.len(), 1);
    match &outgoing[0] {
        ToNode::DeltaSnapshot { added, removed, .. } => {
            assert!(removed.is_empty());
            added.len()
        }
        ToNode::Snapshot { coins, .. } => coins.len(),
        _ => panic!("Expected Snapshot or DeltaSnapshot message"),
    }
}

#[test]
fn test_room_manager_creation() {
    let manager = RoomManager::new();
    assert_eq!(manager.room_count(), 0);
}

#[test]
fn test_create_room() {
    let mut manager = RoomManager::new();
    create_room(&mut manager, "room1");
    assert_eq!(manager.room_count(), 1);
}

#[test]
fn test_destroy_room() {
    let mut manager = RoomManager::new();
    let mut outgoing = Vec::new();
    create_room(&mut manager, "room1");
    assert_eq!(manager.room_count(), 1);
    manager.handle_msg_from_node(
        FromNode::DestroyRoom { room_id: "room1".to_string() },
        &mut outgoing,
    );
    assert_eq!(manager.room_count(), 0);
}

#[test]
fn test_multiple_rooms() {
    let mut manager = RoomManager::new();
    for i in 1..=3 {
        create_room(&mut manager, &format!("room{}", i));
    }
    assert_eq!(manager.room_count(), 3);
}

#[test]
fn test_player_join() {
    let mut manager = RoomManager::new();
    let mut outgoing = Vec::new();
    create_room(&mut manager, "room1");
    manager.handle_msg_from_node(
        FromNode::PlayerJoin { room_id: "room1".to_string(), player_id: "player1".to_string() },
        &mut outgoing,
    );
    assert_eq!(manager.room_count(), 1);
}

#[test]
fn test_drop_coin() {
    let base = initial_coin_count();
    let mut manager = RoomManager::new();
    let mut outgoing = Vec::new();
    create_room(&mut manager, "room1");
    manager.handle_msg_from_node(
        FromNode::PlayerJoin { room_id: "room1".to_string(), player_id: "player1".to_string() },
        &mut outgoing,
    );
    manager.handle_msg_from_node(
        FromNode::PlayerDropCoin {
            room_id: "room1".to_string(),
            player_id: "player1".to_string(),
            x: 25000,
            client_tick: None,
        },
        &mut outgoing,
    );
    outgoing.clear();
    manager.tick_all(DT, &mut outgoing);
    assert!(!outgoing.is_empty());
    match &outgoing[0] {
        ToNode::DeltaSnapshot { added, .. } => {
            // The preloaded table coins plus the one just dropped.
            assert_eq!(added.len(), base + 1);
            let dropped: Vec<_> = added.iter().filter(|c| c.p.x == 25000).collect();
            assert_eq!(dropped.len(), 1);
        }
        ToNode::Snapshot { coins, .. } => {
            assert_eq!(coins.len(), base + 1);
        }
        _ => panic!("Expected Snapshot or DeltaSnapshot message"),
    }
}

#[test]
fn test_tick_generates_snapshots() {
    let mut manager = RoomManager::new();
    let mut outgoing = Vec::new();
    create_room(&mut manager, "room1");
    create_room(&mut manager, "room2");
    outgoing.clear();
    manager.tick_all(DT, &mut outgoing);
    assert_eq!(outgoing.len(), 2);
    assert!(matches!(outgoing[0], ToNode::Snapshot { .. } | ToNode::DeltaSnapshot { .. }));
    assert!(matches!(outgoing[1], ToNode::Snapshot { .. } | ToNode::DeltaSnapshot { .. }));
}

#[test]
fn test_tick_increments() {
    let mut manager = RoomManager::new();
    let mut outgoing = Vec::new();
    create_room(&mut manager, "room1");
    for _ in 0..10 {
        outgoing.clear();
        manager.tick_all(DT, &mut outgoing);
    }
    match &outgoing[0] {
        ToNode::Snapshot { tick, .. } => assert_eq!(*tick, 10),
        ToNode::DeltaSnapshot { tick, .. } => assert_eq!(*tick, 10),
        _ => panic!("Expected Snapshot or DeltaSnapshot message"),
    }
}

#[test]
fn scenario_create_join_drop_snapshot() {
    let mut manager = RoomManager::new();
    let mut outgoing = Vec::new();
    create_room(&mut manager, "r1");
    manager.handle_msg_from_node(
        FromNode::PlayerJoin { room_id: "r1".to_string(), player_id: "p1".to_string() },
        &mut outgoing,
    );
    manager.handle_msg_from_node(
        FromNode::PlayerDropCoin {
            room_id: "r1".to_string(),
            player_id: "p1".to_string(),
            x: 25000,
            client_tick: None,
        },
        &mut outgoing,
    );
    manager.tick_all(DT, &mut outgoing);
    assert_eq!(outgoing.len(), 1);
    match &outgoing[0] {
        ToNode::DeltaSnapshot { room_id, tick, added, removed, .. } => {
            assert_eq!(room_id, "r1");
            assert_eq!(*tick, 1);
            assert!(removed.is_empty());
            // Exactly one added coin at the drop position; it still sits at
            // drop height (within 0.5 m) on its first reported tick.
            let dropped: Vec<_> = added.iter().filter(|c| c.p.x == 25000).collect();
            assert_eq!(dropped.len(), 1);
            assert!((dropped[0].p.y - 100000).abs() < 5000);
        }
        _ => panic!("Expected a DeltaSnapshot for the first tick"),
    }
}

#[test]
fn scenario_destroy_silences_room() {
    let mut manager = RoomManager::new();
    let mut outgoing = Vec::new();
    create_room(&mut manager, "r1");
    manager.tick_all(DT, &mut outgoing);
    assert_eq!(outgoing.len(), 1);
    manager.handle_msg_from_node(FromNode::DestroyRoom { room_id: "r1".to_string() }, &mut outgoing);
    outgoing.clear();
    manager.tick_all(DT, &mut outgoing);
    assert!(outgoing.is_empty());
}

#[test]
fn scenario_pusher_oscillates() {
    let mut manager = RoomManager::new();
    create_room(&mut manager, "r1");
    let mut pushes: Vec<i32> = Vec::new();
    for _ in 0..300 {
        let mut outgoing = Vec::new();
        manager.tick_all(DT, &mut outgoing);
        for msg in &outgoing {
            match msg {
                ToNode::Snapshot { push_z, .. } => pushes.push(*push_z),
                ToNode::DeltaSnapshot { push_z, .. } => pushes.push(*push_z),
                _ => {}
            }
        }
    }
    // Within 0.05 m (500 units) of each end of the travel, max first.
    let hi = pushes.iter().position(|&z| z >= -60000 - 500).expect("pusher never neared its top");
    let lo = pushes[hi..].iter().position(|&z| z <= -88000 + 500);
    assert!(lo.is_some(), "pusher never returned near its bottom");
    // And it never leaves the configured interval.
    assert!(pushes.iter().all(|&z| -88000 <= z && z <= -60000));
}

#[test]
fn scenario_keyframe_after_thirty_deltas() {
    let mut manager = RoomManager::new();
    create_room(&mut manager, "r1");
    let mut fulls = 0;
    let mut deltas = 0;
    for _ in 0..31 {
        let mut outgoing = Vec::new();
        manager.tick_all(DT, &mut outgoing);
        for msg in &outgoing {
            match msg {
                ToNode::Snapshot { .. } => fulls += 1,
                ToNode::DeltaSnapshot { .. } => deltas += 1,
                _ => {}
            }
        }
    }
    assert_eq!(fulls + deltas, 31);
    assert!(fulls >= 1, "31 emissions must include a full keyframe");
}

#[test]
fn snapshot_rate_zero_emits_nothing() {
    let mut manager = RoomManager::new();
    let mut outgoing = Vec::new();
    let mut config = create_test_config();
    config.snapshot_rate = 0;
    manager.handle_msg_from_node(
        FromNode::CreateRoom { room_id: "quiet".to_string(), config },
        &mut outgoing,
    );
    for _ in 0..10 {
        manager.tick_all(DT, &mut outgoing);
    }
    assert!(outgoing.is_empty());
}

#[test]
fn unknown_room_messages_are_dropped() {
    let mut manager = RoomManager::new();
    let mut outgoing = Vec::new();
    manager.handle_msg_from_node(
        FromNode::PlayerJoin { room_id: "ghost".to_string(), player_id: "p".to_string() },
        &mut outgoing,
    );
    manager.handle_msg_from_node(
        FromNode::WalletResult {
            room_id: "ghost".to_string(),
            player_id: "p".to_string(),
            tx_id: "t1".to_string(),
            ok: true,
        },
        &mut outgoing,
    );
    assert_eq!(manager.room_count(), 0);
    assert!(outgoing.is_empty());
}

#[test]
fn create_room_replaces_existing() {
    let base = initial_coin_count();
    let mut manager = RoomManager::new();
    let mut outgoing = Vec::new();
    create_room(&mut manager, "room1");
    manager.tick_all(DT, &mut outgoing);
    // Re-creating the room discards its coins and restarts its tick count.
    create_room(&mut manager, "room1");
    assert_eq!(manager.room_count(), 1);
    outgoing.clear();
    manager.tick_all(DT, &mut outgoing);
    match &outgoing[0] {
        ToNode::DeltaSnapshot { tick, added, .. } => {
            assert_eq!(*tick, 1);
            assert_eq!(added.len(), base);
        }
        _ => panic!("Expected a DeltaSnapshot from the fresh room"),
    }
}
