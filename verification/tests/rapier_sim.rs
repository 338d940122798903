//! The engine driven by a real rigid-body integrator: the begin/finish
//! tick pair with rapier3d supplying the coin observations.
use std::collections::HashMap;

use rapier3d::prelude::{ColliderBuilder, PhysicsWorld, RigidBodyBuilder, RigidBodyHandle, Vec3};
use room_service::protocol::{CoinState, FromNode, Position, RoomConfig, Rotation, ToNode};
use room_service::room::{RoomManager, RoomObservation, RoomRemovals, RoomTickPlan};

/// One tick at 30 Hz, in microseconds.
const DT: u64 = 33333;

fn fx(v: i32) -> f32 {
    v as f32 / 10000.0
}

fn fi(v: f32) -> i32 {
    (v * 10000.0) as i32
}

fn create_test_config() -> RoomConfig {
    RoomConfig {
        gravity: -200000,
        drop_height: 100000,
        coin_radius: 5000,
        coin_height: 1000,
        reward_line_z: -5000,
        push_min_z: -88000,
        push_max_z: -60000,
        push_speed: 15000,
        snapshot_rate: 300000,
    }
}

/// One room's integrator state: the static table, the pusher body, and a
/// body per live coin.
struct SimRoom {
    world: PhysicsWorld,
    coins: HashMap<u64, RigidBodyHandle>,
    pusher: RigidBodyHandle,
    config: RoomConfig,
}

fn wall(world: &mut PhysicsWorld, x: f32, y: f32, z: f32, hx: f32, hy: f32, hz: f32) {
    let body = world.bodies.insert(
        RigidBodyBuilder::fixed().translation(Vec3::new(x, y, z)).build(),
    );
    world.colliders.insert_with_parent(
        ColliderBuilder::cuboid(hx, hy, hz).friction(0.1).build(),
        body,
        &mut world.bodies,
    );
}

fn new_sim_room(config: RoomConfig) -> SimRoom {
    let mut world = PhysicsWorld::new();
    world.gravity = Vec3::new(0.0, fx(config.gravity), 0.0);
    let ground = world.bodies.insert(
        RigidBodyBuilder::fixed().translation(Vec3::new(0.0, -0.1, -5.0)).build(),
    );
    world.colliders.insert_with_parent(
        ColliderBuilder::cuboid(10.0, 0.1, 10.0).friction(0.5).restitution(0.2).build(),
        ground,
        &mut world.bodies,
    );
    wall(&mut world, -6.0, 2.0, -5.0, 0.5, 2.0, 10.0);
    wall(&mut world, 6.0, 2.0, -5.0, 0.5, 2.0, 10.0);
    wall(&mut world, 0.0, 2.0, -11.0, 10.0, 2.0, 0.5);
    let pusher = world.bodies.insert(
        RigidBodyBuilder::kinematic_position_based()
            .translation(Vec3::new(0.0, 0.5, fx(config.push_min_z)))
            .build(),
    );
    world.colliders.insert_with_parent(
        ColliderBuilder::cuboid(4.0, 0.4, 2.0).friction(0.3).restitution(0.1).build(),
        pusher,
        &mut world.bodies,
    );
    SimRoom { world, coins: HashMap::new(), pusher, config }
}

/// Runs one room's share of a tick: create the commanded coin bodies, move
/// the pusher toward its target, integrate, and report every coin's state.
fn apply_plan(sim: &mut SimRoom, plan: &RoomTickPlan, dt_us: u64) -> RoomObservation {
    for cmd in plan.spawns.iter() {
        let body = sim.world.bodies.insert(
            RigidBodyBuilder::dynamic()
                .translation(Vec3::new(fx(cmd.x), fx(cmd.y), fx(cmd.z)))
                .ccd_enabled(true)
                .build(),
        );
        sim.world.colliders.insert_with_parent(
            ColliderBuilder::cylinder(fx(sim.config.coin_height) / 2.0, fx(sim.config.coin_radius))
                .friction(0.4)
                .restitution(0.3)
                .density(5.0)
                .build(),
            body,
            &mut sim.world.bodies,
        );
        sim.coins.insert(cmd.coin_id, body);
    }
    if let Some(body) = sim.world.bodies.get_mut(sim.pusher) {
        let t = body.translation();
        body.set_next_kinematic_translation(Vec3::new(t.x, t.y, fx(plan.push_z)));
    }
    sim.world.integration_parameters.dt = dt_us as f32 / 1_000_000.0;
    sim.world.step();
    let mut coins = Vec::new();
    for (&id, &handle) in sim.coins.iter() {
        if let Some(body) = sim.world.bodies.get(handle) {
            let p = body.translation();
            let r = body.rotation();
            coins.push(CoinState {
                id,
                p: Position { x: fi(p.x), y: fi(p.y), z: fi(p.z) },
                r: Rotation { x: fi(r.x), y: fi(r.y), z: fi(r.z), w: fi(r.w) },
            });
        }
    }
    RoomObservation { room_id: plan.room_id.clone(), coins }
}

/// Drops the bodies of the coins the engine removed.
fn apply_removals(sim: &mut SimRoom, removals: &RoomRemovals) {
    for id in removals.removed.iter() {
        if let Some(handle) = sim.coins.remove(id) {
            sim.world.bodies.remove(
                handle,
                &mut sim.world.islands,
                &mut sim.world.colliders,
                &mut sim.world.impulse_joints,
                &mut sim.world.multibody_joints,
                &mut sim.world.soft_bodies,
                true,
            );
        }
    }
}

/// One whole engine tick against the integrator.
fn run_tick(
    manager: &mut RoomManager,
    sims: &mut HashMap<String, SimRoom>,
    dt_us: u64,
    outgoing: &mut Vec<ToNode>,
) {
    let plans = manager.tick_all_begin(dt_us);
    let mut observations = Vec::new();
    for plan in plans.iter() {
        if let Some(sim) = sims.get_mut(&plan.room_id) {
            observations.push(apply_plan(sim, plan, dt_us));
        }
    }
    let removals = manager.tick_all_finish(&observations, outgoing);
    for removal in removals.iter() {
        if let Some(sim) = sims.get_mut(&removal.room_id) {
            apply_removals(sim, removal);
        }
    }
}

fn coin_y(msg_list: &[ToNode], id: u64) -> Option<i32> {
    for msg in msg_list {
        let (added, updated) = match msg {
            ToNode::Snapshot { coins, .. } => (coins, coins),
            ToNode::DeltaSnapshot { added, updated, .. } => (added, updated),
            _ => continue,
        };
        if let Some(c) = added.iter().chain(updated.iter()).find(|c| c.id == id) {
            return Some(c.p.y);
        }
    }
    None
}

#[test]
fn test_physics_step() {
    let mut manager = RoomManager::new();
    let mut sims: HashMap<String, SimRoom> = HashMap::new();
    let mut outgoing = Vec::new();
    let config = create_test_config();
    manager.handle_msg_from_node(
        FromNode::CreateRoom { room_id: "r1".to_string(), config },
        &mut outgoing,
    );
    sims.insert("r1".to_string(), new_sim_room(config));
    manager.handle_msg_from_node(
        FromNode::PlayerDropCoin {
            room_id: "r1".to_string(),
            player_id: "player1".to_string(),
            x: 0,
            client_tick: None,
        },
        &mut outgoing,
    );
    // First tick: the coin body is created at drop height, then integrated.
    let mut first = Vec::new();
    run_tick(&mut manager, &mut sims, DT, &mut first);
    let dropped_id = *sims.get("r1").unwrap().coins.keys().max().unwrap();
    let y1 = coin_y(&first, dropped_id).expect("dropped coin missing from first snapshot");
    assert!(y1 < 100000, "Coin should fall due to gravity");
    // And it keeps falling.
    let mut second = Vec::new();
    run_tick(&mut manager, &mut sims, DT, &mut second);
    if let Some(y2) = coin_y(&second, dropped_id) {
        assert!(y2 < y1, "Coin should fall due to gravity");
    }
}

#[test]
fn integrator_driven_snapshots_flow() {
    let mut manager = RoomManager::new();
    let mut sims: HashMap<String, SimRoom> = HashMap::new();
    let mut outgoing = Vec::new();
    let config = create_test_config();
    manager.handle_msg_from_node(
        FromNode::CreateRoom { room_id: "r1".to_string(), config },
        &mut outgoing,
    );
    sims.insert("r1".to_string(), new_sim_room(config));
    let mut snapshots = 0;
    for _ in 0..30 {
        let mut out = Vec::new();
        run_tick(&mut manager, &mut sims, DT, &mut out);
        snapshots += out.len();
        for msg in &out {
            match msg {
                ToNode::Snapshot { push_z, .. } | ToNode::DeltaSnapshot { push_z, .. } => {
                    assert!(-88000 <= *push_z && *push_z <= -60000);
                }
                _ => {}
            }
        }
    }
    assert_eq!(snapshots, 30);
}
