//! Point-in-time captures of a world's rollback-tracked state.
//!
//! A snapshot keeps the state and its checksum. The checksum is the hash of
//! the state's canonical byte form, in which the entities follow each other
//! in ascending order of their rollback ids: two worlds that hold the same
//! entities have the same checksum, in whichever order the entities were
//! spawned.
use crate::checksum::fnv1a;
use crate::checksum::fnv1a_extend;
use crate::checksum::fnv1a_from;
use crate::checksum::lemma_fnv1a_concat;
use crate::checksum::FNV_OFFSET_BASIS;
use crate::world::ascending;
use crate::world::entity_map;
use crate::world::distinct_ids;
use crate::world::has_id;
use crate::world::index_of;
use crate::world::lemma_entity_map_at;
use crate::world::lemma_spawn_order_does_not_matter;
use crate::world::spawned_all;
use crate::world::views;
use crate::world::RollbackEntity;
use crate::world::Serialized;
use crate::world::SerializedView;
use crate::world::WorldState;
use crate::world::WorldView;
use vstd::bytes::spec_u32_to_le_bytes;
use vstd::bytes::spec_u64_to_le_bytes;
use vstd::bytes::u32_to_le_bytes;
use vstd::bytes::u64_to_le_bytes;
use vstd::prelude::*;

verus! {

/// One more than the largest rollback id.
pub open spec fn id_bound() -> nat {
    0x1_0000_0000
}

/// The byte form of one serialized value: its type identifier, the number of
/// its bytes, and the bytes; the two numbers as eight bytes each, least
/// significant first.
pub open spec fn value_bytes(value: SerializedView) -> Seq<u8> {
    spec_u64_to_le_bytes(value.type_id) + spec_u64_to_le_bytes(value.bytes.len() as u64)
        + value.bytes
}

/// The byte form of a bag: its values one after the other.
pub open spec fn bag_bytes(bag: Seq<SerializedView>) -> Seq<u8>
    decreases bag.len(),
{
    if bag.len() == 0 {
        Seq::empty()
    } else {
        bag_bytes(bag.drop_last()) + value_bytes(bag.last())
    }
}

/// The byte form of an entity: its rollback id as four bytes, the number of
/// its components as eight bytes, both least significant first, and its bag.
pub open spec fn entity_bytes(id: u32, bag: Seq<SerializedView>) -> Seq<u8> {
    spec_u32_to_le_bytes(id) + spec_u64_to_le_bytes(bag.len() as u64) + bag_bytes(bag)
}

/// The byte form of the entities whose rollback id is below `bound`, in
/// ascending order of their ids.
pub open spec fn entities_bytes(entities: Map<u32, Seq<SerializedView>>, bound: nat) -> Seq<u8>
    decreases bound,
{
    if bound == 0 {
        Seq::empty()
    } else {
        let id = (bound - 1) as u32;
        let below = entities_bytes(entities, (bound - 1) as nat);
        if entities.contains_key(id) {
            below + entity_bytes(id, entities[id])
        } else {
            below
        }
    }
}

/// The canonical byte form of a world: all entities in ascending order of
/// their rollback ids, then the number of resources as eight bytes, least
/// significant first, and the resources.
pub open spec fn world_bytes(world: WorldView) -> Seq<u8> {
    entities_bytes(world.entities, id_bound()) + spec_u64_to_le_bytes(world.resources.len() as u64)
        + bag_bytes(world.resources)
}

/// The checksum of a world: the hash of its canonical byte form.
pub open spec fn world_checksum(world: WorldView) -> u64 {
    fnv1a(world_bytes(world))
}

/// The byte form of the first `count` entities of a sequence.
pub open spec fn prefix_bytes(entities: Seq<RollbackEntity>, count: nat) -> Seq<u8>
    decreases count,
{
    if count == 0 {
        Seq::empty()
    } else {
        prefix_bytes(entities, (count - 1) as nat) + entity_bytes(
            entities[count - 1].id(),
            entities[count - 1].bag(),
        )
    }
}

/// The ids up to which the first `count` entities of an ascending sequence
/// reach: one more than the id of the last of them.
pub open spec fn reach(entities: Seq<RollbackEntity>, count: nat) -> nat {
    if count == 0 {
        0
    } else {
        (entities[count - 1].id() + 1) as nat
    }
}

/// Where no entity has an id from `low` up to `high`, the entities below
/// `high` are those below `low`.
proof fn lemma_entities_bytes_gap(entities: Map<u32, Seq<SerializedView>>, low: nat, high: nat)
    requires
        low <= high <= id_bound(),
        forall|id: u32| low <= id < high ==> !entities.contains_key(id),
    ensures
        entities_bytes(entities, high) == entities_bytes(entities, low),
    decreases high - low,
{
    if low < high {
        lemma_entities_bytes_gap(entities, low, (high - 1) as nat);
        let id = (high - 1) as u32;
        assert(low <= id < high);
    }
}

/// The first `count` entities of an ascending sequence, one after the other,
/// are the canonical byte form of all entities up to their reach.
proof fn lemma_prefix_bytes(entities: Seq<RollbackEntity>, count: nat)
    requires
        ascending(entities),
        count <= entities.len(),
    ensures
        reach(entities, count) <= id_bound(),
        prefix_bytes(entities, count) == entities_bytes(
            entity_map(entities),
            reach(entities, count),
        ),
    decreases count,
{
    if count > 0 {
        let m = entity_map(entities);
        let last = entities[count - 1];
        let low = reach(entities, (count - 1) as nat);
        lemma_prefix_bytes(entities, (count - 1) as nat);
        lemma_entity_map_at(entities, count - 1);
        if count > 1 {
            assert(entities[count - 2].id() < entities[count - 1].id());
        }
        assert(low <= last.id());
        assert forall|id: u32| low <= id < last.id() implies !m.contains_key(id) by {
            if m.contains_key(id) {
                lemma_no_id_between(entities, count, id);
            }
        }
        lemma_entities_bytes_gap(m, low, last.id() as nat);
        assert((reach(entities, count) - 1) as u32 == last.id());
    }
}

/// An id of an ascending sequence lies below the reach of the entities
/// before a given place, or is not below the id at that place.
proof fn lemma_no_id_between(entities: Seq<RollbackEntity>, count: nat, id: u32)
    requires
        ascending(entities),
        0 < count <= entities.len(),
        has_id(entities, id),
    ensures
        id < reach(entities, (count - 1) as nat) || id >= entities[count - 1].id(),
{
    let j = index_of(entities, id);
    assert(0 <= j < entities.len() && entities[j].id() == id);
    if j < count - 1 {
        if j < count - 2 {
            assert(entities[j].id() < entities[count - 2].id());
        }
    } else if j > count - 1 {
        assert(entities[count - 1].id() < entities[j].id());
    }
}

/// An ascending sequence of entities, one after the other, is the canonical
/// byte form of the mapping it stands for.
pub proof fn lemma_ascending_is_canonical(entities: Seq<RollbackEntity>)
    requires
        ascending(entities),
    ensures
        prefix_bytes(entities, entities.len()) == entities_bytes(
            entity_map(entities),
            id_bound(),
        ),
{
    let m = entity_map(entities);
    let count = entities.len();
    lemma_prefix_bytes(entities, count);
    let low = reach(entities, count);
    assert forall|id: u32| low <= id < id_bound() implies !m.contains_key(id) by {
        if m.contains_key(id) {
            let j = index_of(entities, id);
            assert(0 <= j < entities.len() && entities[j].id() == id);
            if j < count - 1 {
                assert(entities[j].id() < entities[count - 1].id());
            }
        }
    }
    lemma_entities_bytes_gap(m, low, id_bound());
}

/// Hashes the byte form of one serialized value on from `state`.
fn hash_value(state: u64, value: &Serialized) -> (next: u64)
    ensures
        next == fnv1a_from(state, value_bytes(value@)),
{
    let type_id = u64_to_le_bytes(value.type_id);
    let len = u64_to_le_bytes(value.bytes.len() as u64);
    let h1 = fnv1a_extend(state, &type_id);
    let h2 = fnv1a_extend(h1, &len);
    let h3 = fnv1a_extend(h2, &value.bytes);
    proof {
        lemma_fnv1a_concat(state, type_id@, len@);
        lemma_fnv1a_concat(state, type_id@ + len@, value.bytes@);
    }
    h3
}

/// Hashes the byte form of a bag on from `state`.
fn hash_bag(state: u64, bag: &Vec<Serialized>) -> (next: u64)
    ensures
        next == fnv1a_from(state, bag_bytes(views(bag@))),
{
    let mut h: u64 = state;
    let mut i: usize = 0;
    while i < bag.len()
        invariant
            i <= bag.len(),
            h == fnv1a_from(state, bag_bytes(views(bag@).take(i as int))),
        decreases bag.len() - i,
    {
        proof {
            let next = views(bag@).take(i + 1);
            assert(next.drop_last() =~= views(bag@).take(i as int));
            assert(next.last() == bag@[i as int]@);
            lemma_fnv1a_concat(state, bag_bytes(next.drop_last()), value_bytes(next.last()));
        }
        h = hash_value(h, &bag[i]);
        i = i + 1;
    }
    proof {
        assert(views(bag@).take(i as int) =~= views(bag@));
    }
    h
}

/// Hashes the byte form of an entity on from `state`.
fn hash_entity(state: u64, entity: &RollbackEntity) -> (next: u64)
    ensures
        next == fnv1a_from(state, entity_bytes(entity.id(), entity.bag())),
{
    let id = u32_to_le_bytes(entity.rollback.id());
    let len = u64_to_le_bytes(entity.components.len() as u64);
    let h1 = fnv1a_extend(state, &id);
    let h2 = fnv1a_extend(h1, &len);
    let h3 = hash_bag(h2, &entity.components);
    proof {
        lemma_fnv1a_concat(state, id@, len@);
        lemma_fnv1a_concat(state, id@ + len@, bag_bytes(entity.bag()));
    }
    h3
}

/// Computes the checksum of a world.
pub fn checksum_of_world(world: &WorldState) -> (sum: u64)
    requires
        world.wf(),
    ensures
        sum == world_checksum(world@),
{
    let entities = world.entities();
    let mut h: u64 = FNV_OFFSET_BASIS;
    let mut i: usize = 0;
    while i < entities.len()
        invariant
            i <= entities.len(),
            h == fnv1a(prefix_bytes(entities@, i as nat)),
        decreases entities.len() - i,
    {
        proof {
            lemma_fnv1a_concat(
                FNV_OFFSET_BASIS,
                prefix_bytes(entities@, i as nat),
                entity_bytes(entities@[i as int].id(), entities@[i as int].bag()),
            );
        }
        h = hash_entity(h, &entities[i]);
        i = i + 1;
    }
    let resources = world.resources();
    let len = u64_to_le_bytes(resources.len() as u64);
    let h1 = fnv1a_extend(h, &len);
    let h2 = hash_bag(h1, resources);
    proof {
        lemma_ascending_is_canonical(entities@);
        let head = entities_bytes(world@.entities, id_bound());
        lemma_fnv1a_concat(FNV_OFFSET_BASIS, head, len@);
        lemma_fnv1a_concat(FNV_OFFSET_BASIS, head + len@, bag_bytes(world@.resources));
    }
    h2
}

/// What a [`WorldSnapshot`] is: the captured state and its checksum.
pub struct SnapshotView {
    pub world: WorldView,
    pub checksum: u64,
}

/// The snapshot that capturing a world gives.
pub open spec fn captured(world: WorldView) -> SnapshotView {
    SnapshotView { world, checksum: world_checksum(world) }
}

/// The world that restoring a snapshot into a live world gives. Every entity
/// of the live world that the snapshot does not hold is removed; every entity
/// of the snapshot is there with the snapshot's components, overwriting what
/// the live world had under that id; the resources are the snapshot's.
pub open spec fn restored(snapshot: SnapshotView, live: WorldView) -> WorldView {
    WorldView {
        entities: live.entities.restrict(snapshot.world.entities.dom()).union_prefer_right(
            snapshot.world.entities,
        ),
        resources: snapshot.world.resources,
    }
}

/// Restoring leaves exactly the captured state, whatever the live world held.
pub proof fn lemma_restored_is_snapshot(snapshot: SnapshotView, live: WorldView)
    ensures
        restored(snapshot, live) == snapshot.world,
{
    assert(restored(snapshot, live).entities =~= snapshot.world.entities);
}

/// Capturing a world and restoring the snapshot at once into the same world
/// changes nothing: no entity, component or resource differs.
pub proof fn lemma_capture_restore_round_trip(world: WorldView)
    ensures
        restored(captured(world), world) == world,
{
    lemma_restored_is_snapshot(captured(world), world);
}

/// The checksum does not depend on the order in which entities were spawned:
/// two worlds built from the same world by the same spawns, in whichever
/// order, have the same snapshot and so the same checksum.
pub proof fn lemma_checksum_ignores_spawn_order(
    world: WorldView,
    one: Seq<(u32, Seq<SerializedView>)>,
    other: Seq<(u32, Seq<SerializedView>)>,
)
    requires
        distinct_ids(one),
        distinct_ids(other),
        forall|spawn: (u32, Seq<SerializedView>)| one.contains(spawn) <==> other.contains(spawn),
    ensures
        captured(spawned_all(world, one)) == captured(spawned_all(world, other)),
        world_checksum(spawned_all(world, one)) == world_checksum(spawned_all(world, other)),
{
    lemma_spawn_order_does_not_matter(world, one, other);
}

/// A capture of a world's rollback-tracked state at one frame.
#[derive(Debug, PartialEq, Eq)]
pub struct WorldSnapshot {
    world: WorldState,
    checksum: u64,
}

impl View for WorldSnapshot {
    type V = SnapshotView;

    closed spec fn view(&self) -> SnapshotView {
        SnapshotView { world: self.world@, checksum: self.checksum }
    }
}

impl Default for WorldSnapshot {
    /// The snapshot of a world without entities and resources.
    fn default() -> (snapshot: Self)
        ensures
            snapshot.wf(),
            snapshot@ == captured(WorldView::empty()),
    {
        let world = WorldState::new();
        WorldSnapshot::from_world(&world)
    }
}

impl Clone for WorldSnapshot {
    fn clone(&self) -> (copy: Self)
        ensures
            self.wf() ==> copy.wf() && copy@ == self@,
    {
        WorldSnapshot { world: self.world.clone(), checksum: self.checksum }
    }
}

impl WorldSnapshot {
    /// Whether the snapshot is well formed: it holds a well-formed state and
    /// that state's checksum.
    pub closed spec fn wf(&self) -> bool {
        &&& self.world.wf()
        &&& self.checksum == world_checksum(self.world@)
    }

    /// A well-formed snapshot is the capture of the state it holds.
    pub proof fn lemma_wf_is_capture(&self)
        requires
            self.wf(),
        ensures
            self@ == captured(self@.world),
    {
    }

    /// Captures the state of a world.
    pub fn from_world(world: &WorldState) -> (snapshot: Self)
        requires
            world.wf(),
        ensures
            snapshot.wf(),
            snapshot@ == captured(world@),
    {
        let checksum = checksum_of_world(world);
        WorldSnapshot { world: world.clone(), checksum }
    }

    /// The checksum of the captured state.
    pub fn checksum(&self) -> (sum: u64)
        ensures
            sum == self@.checksum,
    {
        self.checksum
    }

    /// The captured state.
    pub fn world(&self) -> (world: &WorldState)
        ensures
            world@ == self@.world,
            self.wf() ==> world.wf(),
    {
        &self.world
    }

    /// Restores the captured state into a live world.
    pub fn write_to_world(&self, world: &mut WorldState)
        requires
            self.wf(),
        ensures
            final(world).wf(),
            final(world)@ == restored(self@, old(world)@),
            final(world)@ == self@.world,
    {
        proof {
            lemma_restored_is_snapshot(self@, world@);
        }
        *world = self.world.clone();
    }
}

/// What the host does to one entity to bring its world in line with a
/// restored state.
#[derive(Clone, Copy, Debug, PartialEq, Eq, Structural)]
pub enum Restore {
    /// The entity of this rollback id lives, but the restored state does
    /// not hold it: it was spawned after the state was saved and is removed.
    Despawn(u32),
    /// The entity of this rollback id lives and the restored state holds
    /// it: its tracked components become those of the restored state.
    Overwrite(u32),
    /// The restored state holds an entity of this rollback id that does not
    /// live: it is spawned with the components of the restored state.
    Spawn(u32),
}

/// A sequence with one more element holds what it held before and that
/// element.
pub proof fn lemma_push_contains<T>(s: Seq<T>, last: T, sought: T)
    ensures
        s.push(last).contains(sought) <==> s.contains(sought) || sought == last,
{
    let longer = s.push(last);
    if longer.contains(sought) {
        let i = choose|i: int| 0 <= i < longer.len() && longer[i] == sought;
        if i < s.len() {
            assert(s[i] == sought);
        }
    }
    if s.contains(sought) {
        let i = choose|i: int| 0 <= i < s.len() && s[i] == sought;
        assert(longer[i] == sought);
    }
    if sought == last {
        assert(longer[s.len() as int] == sought);
    }
}

/// Tells whether a list of rollback ids holds an id.
fn holds_id(ids: &Vec<u32>, id: u32) -> (found: bool)
    ensures
        found == ids@.contains(id),
{
    let mut i: usize = 0;
    while i < ids.len()
        invariant
            i <= ids.len(),
            forall|j: int| 0 <= j < i ==> ids@[j] != id,
        decreases ids.len() - i,
    {
        if ids[i] == id {
            proof {
                assert(ids@[i as int] == id);
            }
            return true;
        }
        i = i + 1;
    }
    false
}

/// Says what the host does to bring its world in line with a restored
/// state, given the rollback ids of the entities that live in it: a living
/// entity that the state does not hold is despawned, one that it holds is
/// overwritten, and an entity of the state that does not live is spawned.
/// The living entities come first, in the order given, then the entities to
/// spawn in ascending order of their ids.
pub fn restore_plan(live: &Vec<u32>, restored: &WorldState) -> (plan: Vec<Restore>)
    requires
        restored.wf(),
    ensures
        forall|id: u32| #[trigger]
            plan@.contains(Restore::Despawn(id)) <==> live@.contains(id)
                && !restored@.entities.contains_key(id),
        forall|id: u32| #[trigger]
            plan@.contains(Restore::Overwrite(id)) <==> live@.contains(id)
                && restored@.entities.contains_key(id),
        forall|id: u32| #[trigger]
            plan@.contains(Restore::Spawn(id)) <==> !live@.contains(id)
                && restored@.entities.contains_key(id),
{
    let mut plan: Vec<Restore> = Vec::new();
    let mut i: usize = 0;
    while i < live.len()
        invariant
            i <= live.len(),
            restored.wf(),
            forall|id: u32| #[trigger]
                plan@.contains(Restore::Despawn(id)) <==> live@.take(i as int).contains(id)
                    && !restored@.entities.contains_key(id),
            forall|id: u32| #[trigger]
                plan@.contains(Restore::Overwrite(id)) <==> live@.take(i as int).contains(id)
                    && restored@.entities.contains_key(id),
            forall|id: u32| !(#[trigger] plan@.contains(Restore::Spawn(id))),
        decreases live.len() - i,
    {
        let id = live[i];
        let held = restored.contains(id);
        let entry = if held {
            Restore::Overwrite(id)
        } else {
            Restore::Despawn(id)
        };
        proof {
            let before = plan@;
            assert(live@.take(i + 1) =~= live@.take(i as int).push(id));
            assert forall|other: u32| #[trigger]
                before.push(entry).contains(Restore::Despawn(other)) <==> live@.take(
                    i + 1,
                ).contains(other) && !restored@.entities.contains_key(other) by {
                lemma_push_contains(before, entry, Restore::Despawn(other));
                lemma_push_contains(live@.take(i as int), id, other);
            }
            assert forall|other: u32| #[trigger]
                before.push(entry).contains(Restore::Overwrite(other)) <==> live@.take(
                    i + 1,
                ).contains(other) && restored@.entities.contains_key(other) by {
                lemma_push_contains(before, entry, Restore::Overwrite(other));
                lemma_push_contains(live@.take(i as int), id, other);
            }
            assert forall|other: u32| !(#[trigger] before.push(entry).contains(
                Restore::Spawn(other),
            )) by {
                lemma_push_contains(before, entry, Restore::Spawn(other));
            }
        }
        plan.push(entry);
        i = i + 1;
    }
    proof {
        assert(live@.take(i as int) =~= live@);
    }
    let entities = restored.entities();
    let ghost living = plan@;
    let mut j: usize = 0;
    while j < entities.len()
        invariant
            j <= entities.len(),
            ascending(entities@),
            entity_map(entities@) == restored@.entities,
            forall|id: u32| #[trigger]
                plan@.contains(Restore::Despawn(id)) <==> living.contains(Restore::Despawn(id)),
            forall|id: u32| #[trigger]
                plan@.contains(Restore::Overwrite(id)) <==> living.contains(
                    Restore::Overwrite(id),
                ),
            forall|id: u32| #[trigger]
                plan@.contains(Restore::Spawn(id)) <==> !live@.contains(id) && has_id(
                    entities@.take(j as int),
                    id,
                ),
        decreases entities.len() - j,
    {
        let id = entities[j].rollback.id();
        let lives = holds_id(live, id);
        proof {
            let shorter = entities@.take(j as int);
            let longer = entities@.take(j + 1);
            assert forall|other: u32| has_id(longer, other) <==> has_id(shorter, other) || other
                == id by {
                if has_id(longer, other) {
                    let k = choose|k: int| 0 <= k < longer.len() && (#[trigger] longer[k]).id()
                        == other;
                    if k < j {
                        assert(shorter[k].id() == other);
                    }
                }
                if has_id(shorter, other) {
                    let k = choose|k: int| 0 <= k < shorter.len() && (#[trigger] shorter[k]).id()
                        == other;
                    assert(longer[k].id() == other);
                }
                if other == id {
                    assert(longer[j as int].id() == other);
                }
            }
        }
        if !lives {
            proof {
                let before = plan@;
                let entry = Restore::Spawn(id);
                assert forall|other: u32| #[trigger]
                    before.push(entry).contains(Restore::Despawn(other)) <==> living.contains(
                        Restore::Despawn(other),
                    ) by {
                    lemma_push_contains(before, entry, Restore::Despawn(other));
                }
                assert forall|other: u32| #[trigger]
                    before.push(entry).contains(Restore::Overwrite(other)) <==> living.contains(
                        Restore::Overwrite(other),
                    ) by {
                    lemma_push_contains(before, entry, Restore::Overwrite(other));
                }
                assert forall|other: u32| #[trigger]
                    before.push(entry).contains(Restore::Spawn(other)) <==> !live@.contains(other)
                        && has_id(entities@.take(j + 1), other) by {
                    lemma_push_contains(before, entry, Restore::Spawn(other));
                }
            }
            plan.push(Restore::Spawn(id));
        }
        j = j + 1;
    }
    proof {
        assert(entities@.take(j as int) =~= entities@);
        assert forall|id: u32| has_id(entities@, id) <==> restored@.entities.contains_key(id) by {}
    }
    plan
}

} // verus!
