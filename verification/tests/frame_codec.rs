//! The frame layer and the snapshot differ, including a MessagePack
//! payload carried through a frame unchanged.
use room_service::net::{FrameError, MessageCodec, MessageFormat};
use room_service::protocol::{CoinState, Position, RoomConfig, Rotation};
use room_service::room::room_state::RoomState;

fn coin(id: u64, x: i32, y: i32, z: i32, w: i32) -> CoinState {
    CoinState { id, p: Position { x, y, z }, r: Rotation { x: 0, y: 0, z: 0, w } }
}

#[test]
fn frame_round_trip() {
    let mut codec = MessageCodec { encoding: MessageFormat::MessagePack };
    let payload: Vec<u8> = vec![1, 2, 3, 250, 255, 0, 42];
    let mut buf: Vec<u8> = Vec::new();
    codec.encode(&payload, &mut buf).unwrap();
    assert_eq!(buf.len(), 5 + payload.len());
    assert_eq!(buf[0], 1);
    assert_eq!(&buf[1..5], &[0, 0, 0, 7]);
    let decoded = codec.decode(&mut buf).unwrap().unwrap();
    assert!(matches!(decoded.0, MessageFormat::MessagePack));
    assert_eq!(decoded.1, payload);
    assert!(buf.is_empty());
}

#[test]
fn frame_round_trip_json_tag() {
    let mut codec = MessageCodec { encoding: MessageFormat::Json };
    let payload: Vec<u8> = b"{\"type\":\"DestroyRoom\",\"room_id\":\"r1\"}".to_vec();
    let mut buf: Vec<u8> = Vec::new();
    codec.encode(&payload, &mut buf).unwrap();
    assert_eq!(buf[0], 0);
    let decoded = codec.decode(&mut buf).unwrap().unwrap();
    assert!(matches!(decoded.0, MessageFormat::Json));
    assert_eq!(decoded.1, payload);
}

#[test]
fn decode_waits_for_more_bytes() {
    let mut codec = MessageCodec { encoding: MessageFormat::MessagePack };
    // Fewer than the five header bytes.
    let mut buf: Vec<u8> = vec![1, 0, 0];
    assert!(codec.decode(&mut buf).unwrap().is_none());
    assert_eq!(buf, vec![1, 0, 0]);
    // A full header promising five payload bytes, of which two arrived.
    let mut buf2: Vec<u8> = vec![1, 0, 0, 0, 5, 9, 9];
    assert!(codec.decode(&mut buf2).unwrap().is_none());
    assert_eq!(buf2.len(), 7);
}

#[test]
fn decode_rejects_unknown_format() {
    let mut codec = MessageCodec { encoding: MessageFormat::MessagePack };
    let mut buf: Vec<u8> = vec![9, 0, 0, 0, 0];
    match codec.decode(&mut buf) {
        Err(FrameError::UnknownFormat { tag }) => assert_eq!(tag, 9),
        _ => panic!("a tag of 9 names no format"),
    }
    assert_eq!(buf.len(), 5);
}

#[test]
fn decode_leaves_following_frames() {
    let mut codec = MessageCodec { encoding: MessageFormat::MessagePack };
    let mut buf: Vec<u8> = Vec::new();
    codec.encode(&vec![7, 7], &mut buf).unwrap();
    codec.encode(&vec![8], &mut buf).unwrap();
    let first = codec.decode(&mut buf).unwrap().unwrap();
    assert_eq!(first.1, vec![7, 7]);
    let second = codec.decode(&mut buf).unwrap().unwrap();
    assert_eq!(second.1, vec![8]);
    assert!(buf.is_empty());
    assert!(codec.decode(&mut buf).unwrap().is_none());
}

/// A snapshot-shaped MessagePack document survives framing byte for byte
/// and parses back to the same document.
#[test]
fn scenario_msgpack_snapshot_frame() {
    let mut pos = serde_json::Map::new();
    pos.insert("x".to_string(), serde_json::Value::from(0.0));
    pos.insert("y".to_string(), serde_json::Value::from(0.0));
    pos.insert("z".to_string(), serde_json::Value::from(0.0));
    let mut rot = serde_json::Map::new();
    rot.insert("x".to_string(), serde_json::Value::from(0.0));
    rot.insert("y".to_string(), serde_json::Value::from(0.0));
    rot.insert("z".to_string(), serde_json::Value::from(0.0));
    rot.insert("w".to_string(), serde_json::Value::from(1.0));
    let mut coin_doc = serde_json::Map::new();
    coin_doc.insert("id".to_string(), serde_json::Value::from(1u64));
    coin_doc.insert("p".to_string(), serde_json::Value::Object(pos));
    coin_doc.insert("r".to_string(), serde_json::Value::Object(rot));
    let mut doc = serde_json::Map::new();
    doc.insert("type".to_string(), serde_json::Value::from("Snapshot"));
    doc.insert("room_id".to_string(), serde_json::Value::from("r"));
    doc.insert("tick".to_string(), serde_json::Value::from(7u64));
    doc.insert("push_z".to_string(), serde_json::Value::from(-7.5));
    doc.insert(
        "coins".to_string(),
        serde_json::Value::Array(vec![serde_json::Value::Object(coin_doc)]),
    );
    doc.insert("events".to_string(), serde_json::Value::Array(Vec::new()));
    let msg = serde_json::Value::Object(doc);

    let payload = rmp_serde::to_vec(&msg).unwrap();
    let mut codec = MessageCodec { encoding: MessageFormat::MessagePack };
    let mut buf: Vec<u8> = Vec::new();
    codec.encode(&payload, &mut buf).unwrap();
    assert_eq!(buf[0], 1);
    let (format, recovered) = codec.decode(&mut buf).unwrap().unwrap();
    assert!(matches!(format, MessageFormat::MessagePack));
    assert_eq!(recovered, payload);
    let parsed: serde_json::Value = rmp_serde::from_slice(&recovered).unwrap();
    assert_eq!(parsed, msg);
}

#[test]
fn significant_change_thresholds_are_exact() {
    let a = coin(1, 0, 0, 0, 10000);
    // An L1 position change of exactly the threshold is not significant.
    let b = coin(1, 40, 30, 30, 10000);
    assert!(!b.has_significant_change(&a));
    // One unit more is.
    let c = coin(1, 40, 30, 31, 10000);
    assert!(c.has_significant_change(&a));
    // Same for the quaternion components.
    let d = coin(1, 0, 0, 0, 10000 - 100);
    assert!(!d.has_significant_change(&a));
    let e = coin(1, 0, 0, 0, 10000 - 101);
    assert!(e.has_significant_change(&a));
}

#[test]
fn compute_delta_splits_added_updated_removed() {
    let mut room = RoomState::new("r".to_string(), RoomConfig::default());
    let cached = vec![coin(1, 0, 0, 0, 10000), coin(2, 500, 0, 0, 10000), coin(3, 0, 0, 0, 10000)];
    room.update_snapshot_cache(&cached);
    let current = vec![
        // Coin 1 drifted below the threshold: suppressed.
        coin(1, 60, 40, 0, 10000),
        // Coin 2 moved past it: updated.
        coin(2, 650, 0, 0, 10000),
        // Coin 4 is new: added. Coin 3 is gone: removed.
        coin(4, 0, 0, 0, 10000),
    ];
    let (added, updated, removed) = room.compute_delta(&current);
    assert_eq!(added.len(), 1);
    assert_eq!(added[0].id, 4);
    assert_eq!(updated.len(), 1);
    assert_eq!(updated[0].id, 2);
    assert_eq!(updated[0].p.x, 650);
    assert_eq!(removed, vec![3]);
}

#[test]
fn default_config_values() {
    let c = RoomConfig::default();
    assert_eq!(c.gravity, -200000);
    assert_eq!(c.drop_height, 100000);
    assert_eq!(c.coin_radius, 5000);
    assert_eq!(c.coin_height, 1000);
    assert_eq!(c.reward_line_z, -5000);
    assert_eq!(c.push_min_z, -88000);
    assert_eq!(c.push_max_z, -60000);
    assert_eq!(c.push_speed, 15000);
    assert_eq!(c.snapshot_rate, 300000);
}

#[test]
fn snapshot_rate_is_clamped() {
    let mut room = RoomState::new("r".to_string(), RoomConfig::default());
    room.set_snapshot_rate(10000);
    assert_eq!(room.config.snapshot_rate, 50000);
    room.set_snapshot_rate(900000);
    assert_eq!(room.config.snapshot_rate, 600000);
    room.set_snapshot_rate(150000);
    assert_eq!(room.config.snapshot_rate, 150000);
}
