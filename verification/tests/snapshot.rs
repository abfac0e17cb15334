use bevy_ggrs::checksum::checksum;
use bevy_ggrs::world::Serialized;
use bevy_ggrs::world_snapshot::checksum_of_world;
use bevy_ggrs::world_snapshot::restore_plan;
use bevy_ggrs::world_snapshot::Restore;
use bevy_ggrs::Rollback;
use bevy_ggrs::WorldSnapshot;
use bevy_ggrs::WorldState;

fn value(type_id: u64, bytes: &[u8]) -> Serialized {
    Serialized { type_id, bytes: bytes.to_vec() }
}

fn sample_world() -> WorldState {
    let mut world = WorldState::new();
    world.spawn(Rollback::new(4), vec![value(1, &[1, 2, 3]), value(2, &[])]);
    world.spawn(Rollback::new(2), vec![value(1, &[7])]);
    world.spawn(Rollback::new(9), Vec::new());
    world.set_resources(vec![value(100, &[5, 5]), value(101, &[6])]);
    world
}

#[test]
fn capture_then_restore_changes_nothing() {
    let mut world = sample_world();
    let before = world.clone();
    let snapshot = WorldSnapshot::from_world(&world);
    snapshot.write_to_world(&mut world);
    assert_eq!(world, before);
    assert_eq!(snapshot.world(), &before);
}

#[test]
fn restore_overwrites_removes_and_brings_back() {
    let world = sample_world();
    let snapshot = WorldSnapshot::from_world(&world);

    let mut live = world.clone();
    // changed after the capture
    live.set_components(4, vec![value(1, &[0])]);
    // spawned after the capture
    live.spawn(Rollback::new(30), vec![value(1, &[1])]);
    // despawned after the capture
    live.despawn(2);
    live.set_resources(vec![value(100, &[0, 0])]);

    snapshot.write_to_world(&mut live);
    assert_eq!(live, world);
    assert!(!live.contains(30));
    assert_eq!(live.components(2), Some(&vec![value(1, &[7])]));
    assert_eq!(live.components(4), Some(&vec![value(1, &[1, 2, 3]), value(2, &[])]));
    assert_eq!(live.resources(), &vec![value(100, &[5, 5]), value(101, &[6])]);
}

#[test]
fn checksum_ignores_spawn_order() {
    let mut one = WorldState::new();
    one.spawn(Rollback::new(1), vec![value(1, &[1])]);
    one.spawn(Rollback::new(2), vec![value(1, &[2])]);
    one.spawn(Rollback::new(3), vec![value(1, &[3])]);
    let mut other = WorldState::new();
    other.spawn(Rollback::new(3), vec![value(1, &[3])]);
    other.spawn(Rollback::new(1), vec![value(1, &[1])]);
    other.spawn(Rollback::new(2), vec![value(1, &[2])]);
    let a = WorldSnapshot::from_world(&one);
    let b = WorldSnapshot::from_world(&other);
    assert_eq!(a.checksum(), b.checksum());
    assert_eq!(a, b);
}

#[test]
fn checksum_tells_different_states_apart() {
    let world = sample_world();
    let base = WorldSnapshot::from_world(&world).checksum();

    let mut changed = world.clone();
    changed.set_components(2, vec![value(1, &[8])]);
    assert_ne!(WorldSnapshot::from_world(&changed).checksum(), base);

    let mut fewer = world.clone();
    fewer.despawn(9);
    assert_ne!(WorldSnapshot::from_world(&fewer).checksum(), base);

    let mut other_id = WorldState::new();
    other_id.spawn(Rollback::new(1), vec![value(1, &[7])]);
    let mut this_id = WorldState::new();
    this_id.spawn(Rollback::new(2), vec![value(1, &[7])]);
    assert_ne!(
        WorldSnapshot::from_world(&other_id).checksum(),
        WorldSnapshot::from_world(&this_id).checksum()
    );

    let mut resources = world.clone();
    resources.set_resources(vec![value(100, &[5, 5])]);
    assert_ne!(WorldSnapshot::from_world(&resources).checksum(), base);
}

#[test]
fn checksum_is_the_hash_of_the_canonical_bytes() {
    let mut world = WorldState::new();
    world.spawn(Rollback::new(0x0102_0304), vec![value(7, &[1, 2, 3])]);
    world.spawn(Rollback::new(1), Vec::new());
    world.set_resources(vec![value(9, &[])]);

    let mut bytes: Vec<u8> = Vec::new();
    // entity 1: id, number of components
    bytes.extend_from_slice(&[1, 0, 0, 0]);
    bytes.extend_from_slice(&[0, 0, 0, 0, 0, 0, 0, 0]);
    // entity 0x01020304: id, number of components
    bytes.extend_from_slice(&[4, 3, 2, 1]);
    bytes.extend_from_slice(&[1, 0, 0, 0, 0, 0, 0, 0]);
    // its component: type, length, bytes
    bytes.extend_from_slice(&[7, 0, 0, 0, 0, 0, 0, 0]);
    bytes.extend_from_slice(&[3, 0, 0, 0, 0, 0, 0, 0]);
    bytes.extend_from_slice(&[1, 2, 3]);
    // number of resources
    bytes.extend_from_slice(&[1, 0, 0, 0, 0, 0, 0, 0]);
    // the resource: type, length, no bytes
    bytes.extend_from_slice(&[9, 0, 0, 0, 0, 0, 0, 0]);
    bytes.extend_from_slice(&[0, 0, 0, 0, 0, 0, 0, 0]);

    let expected = checksum(&bytes);
    assert_eq!(checksum_of_world(&world), expected);
    assert_eq!(WorldSnapshot::from_world(&world).checksum(), expected);
}

#[test]
fn default_snapshot_is_the_empty_world() {
    let snapshot = WorldSnapshot::default();
    assert_eq!(snapshot.world(), &WorldState::new());
    assert_eq!(snapshot.checksum(), checksum(&vec![0, 0, 0, 0, 0, 0, 0, 0]));
    assert_eq!(snapshot, WorldSnapshot::from_world(&WorldState::new()));
    assert_eq!(snapshot.clone(), snapshot);
}

#[test]
fn plan_despawns_overwrites_and_spawns() {
    // the restored state holds 2, 4 and 9
    let restored = sample_world();
    let plan = restore_plan(&vec![30, 4, 2, 7], &restored);
    assert_eq!(
        plan,
        vec![
            Restore::Despawn(30),
            Restore::Overwrite(4),
            Restore::Overwrite(2),
            Restore::Despawn(7),
            Restore::Spawn(9),
        ]
    );
}

#[test]
fn plan_for_an_empty_world_spawns_everything() {
    let restored = sample_world();
    assert_eq!(
        restore_plan(&Vec::new(), &restored),
        vec![Restore::Spawn(2), Restore::Spawn(4), Restore::Spawn(9)]
    );
}

#[test]
fn plan_for_an_empty_state_despawns_everything() {
    let plan = restore_plan(&vec![5, 1], &WorldState::new());
    assert_eq!(plan, vec![Restore::Despawn(5), Restore::Despawn(1)]);
    assert!(restore_plan(&Vec::new(), &WorldState::new()).is_empty());
}

#[test]
fn plan_for_the_same_entities_overwrites_them() {
    let restored = sample_world();
    assert_eq!(
        restore_plan(&vec![2, 4, 9], &restored),
        vec![Restore::Overwrite(2), Restore::Overwrite(4), Restore::Overwrite(9)]
    );
}
