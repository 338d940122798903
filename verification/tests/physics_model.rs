//! The simulation model around the integrator: id assignment, spawn
//! commands, the pusher state machine, and removal/collection decisions.
use room_service::protocol::{CoinState, Position, RoomConfig, Rotation};
use room_service::room::physics::PhysicsWorld;

/// One tick at 30 Hz, in microseconds.
const DT: u64 = 33333;

fn create_test_config() -> RoomConfig {
    RoomConfig {
        gravity: -200000,
        drop_height: 100000,
        coin_radius: 5000,
        coin_height: 1000,
        reward_line_z: -5000,
        push_min_z: -88000,
        push_max_z: -60000,
        push_speed: 15000,
        snapshot_rate: 300000,
    }
}

fn strong_gravity_config() -> RoomConfig {
    RoomConfig { gravity: -500000, ..create_test_config() }
}

/// A report that places coin `id` at the given position.
fn observed(id: u64, x: i32, y: i32, z: i32) -> CoinState {
    CoinState { id, p: Position { x, y, z }, r: Rotation { x: 0, y: 0, z: 0, w: 10000 } }
}

#[test]
fn test_physics_world_creation() {
    let world = PhysicsWorld::new(create_test_config());
    // The preloaded table coins are there, each with a queued
    // body-creation command, and ids start at 1.
    let table = world.collect_coin_states();
    assert!(!table.is_empty());
    assert_eq!(world.coin_id_counter, table.len() as u64 + 1);
    assert_eq!(world.pending_spawns.len(), table.len());
    assert!(table.iter().all(|c| c.p.y == 1700));
    assert_eq!(table[0].id, 1);
}

#[test]
fn test_spawn_coin() {
    let mut world = PhysicsWorld::new(create_test_config());
    let before = world.collect_coin_states().len() as u64;
    let coin_id = world.spawn_coin(25000, Some("player1".to_string()));
    assert_eq!(coin_id, before + 1);
    assert_eq!(world.coin_id_counter, before + 2);
    let states = world.collect_coin_states();
    assert_eq!(states.len() as u64, before + 1);
    let coin = states.iter().find(|c| c.id == coin_id).unwrap();
    // The dropped coin sits at the drop position over the table's back edge.
    assert_eq!(coin.p.x, 25000);
    assert_eq!(coin.p.y, 100000);
    assert_eq!(coin.p.z, -60000);
}

#[test]
fn test_multiple_coins() {
    let mut world = PhysicsWorld::new(create_test_config());
    let before = world.collect_coin_states().len() as u64;
    let id1 = world.spawn_coin(-20000, Some("player1".to_string()));
    let id2 = world.spawn_coin(0, Some("player2".to_string()));
    let id3 = world.spawn_coin(20000, Some("player1".to_string()));
    // Ids are assigned in strictly increasing order and never reused.
    assert_eq!(id1, before + 1);
    assert_eq!(id2, before + 2);
    assert_eq!(id3, before + 3);
    assert_eq!(world.collect_coin_states().len() as u64, before + 3);
}

#[test]
fn coin_ids_stay_unique_after_removal() {
    let mut world = PhysicsWorld::new(create_test_config());
    let id1 = world.spawn_coin(0, Some("player1".to_string()));
    // The coin escapes the floor and is removed.
    let report = vec![observed(id1, 0, -60000, -60000)];
    let result = world.step(&report);
    assert_eq!(result.removed, vec![id1]);
    // The next coin still gets a fresh id, not the released one.
    let id2 = world.spawn_coin(0, Some("player1".to_string()));
    assert!(id2 > id1);
}

#[test]
fn test_push_platform_movement() {
    let mut world = PhysicsWorld::new(create_test_config());
    let initial_z = world.get_push_z();
    // The pusher starts at the lower end of its travel.
    assert_eq!(initial_z, -88000);
    for _ in 0..60 {
        world.update_push_platform(DT);
    }
    assert!(world.get_push_z() > initial_z, "Push platform should move forward");
}

#[test]
fn test_push_platform_boundary() {
    let config = create_test_config();
    let mut world = PhysicsWorld::new(config);
    for _ in 0..300 {
        world.update_push_platform(DT);
        let z = world.get_push_z();
        assert!(
            z >= config.push_min_z && z <= config.push_max_z,
            "Push platform Z ({}) should be within bounds [{}, {}]",
            z,
            config.push_min_z,
            config.push_max_z
        );
    }
}

#[test]
fn pusher_turns_around_at_both_ends() {
    let mut world = PhysicsWorld::new(create_test_config());
    let mut zs = Vec::new();
    for _ in 0..300 {
        world.update_push_platform(DT);
        zs.push(world.get_push_z());
    }
    // It reaches both ends exactly: the step clamps at the bounds.
    assert!(zs.contains(&-60000));
    assert!(zs.contains(&-88000));
}

#[test]
fn test_coin_removal() {
    let mut world = PhysicsWorld::new(strong_gravity_config());
    let before = world.collect_coin_states().len();
    // Dropped far right, it slides off and falls below the escape line,
    // outside the collection corridor.
    let coin_id = world.spawn_coin(150000, Some("player1".to_string()));
    let report = vec![observed(coin_id, 150000, -51000, -60000)];
    let result = world.step(&report);
    assert_eq!(result.removed.len(), 1);
    assert_eq!(result.removed[0], coin_id);
    assert!(result.collected.is_empty());
    assert_eq!(world.collect_coin_states().len(), before);
}

#[test]
fn test_coin_collection() {
    let mut world = PhysicsWorld::new(strong_gravity_config());
    let coin_id = world.spawn_coin(0, Some("player1".to_string()));
    // It ends past the reward line, inside the corridor, below the floor.
    let report = vec![observed(coin_id, 0, -51000, 0)];
    let result = world.step(&report);
    assert_eq!(result.collected.len(), 1);
    assert_eq!(result.collected[0].0, coin_id);
    assert_eq!(result.collected[0].1, Some("player1".to_string()));
    assert_eq!(result.removed, vec![coin_id]);
}

#[test]
fn collection_requires_the_corridor() {
    let mut world = PhysicsWorld::new(create_test_config());
    let id1 = world.spawn_coin(0, Some("p1".to_string()));
    let id2 = world.spawn_coin(0, Some("p2".to_string()));
    let id3 = world.spawn_coin(0, None);
    let report = vec![
        // Past the reward line but too far left: removed, not collected.
        observed(id1, -15000, -51000, 0),
        // Short of the reward line: removed, not collected.
        observed(id2, 0, -51000, -5000),
        // In the corridor but unowned: collected with no owner.
        observed(id3, 14999, -51000, -4999),
    ];
    let result = world.step(&report);
    assert_eq!(result.removed, vec![id1, id2, id3]);
    assert_eq!(result.collected.len(), 1);
    assert_eq!(result.collected[0], (id3, None));
}

#[test]
fn unreported_coins_keep_their_state() {
    let mut world = PhysicsWorld::new(create_test_config());
    let id = world.spawn_coin(25000, Some("p1".to_string()));
    let result = world.step(&Vec::new());
    assert!(result.removed.is_empty());
    let states = world.collect_coin_states();
    let coin = states.iter().find(|c| c.id == id).unwrap();
    assert_eq!(coin.p.y, 100000);
}
