//! The rollback-tracked state of the host world: for every entity that
//! carries a [`Rollback`] tag the serialized values of its tracked
//! components, and the serialized tracked resources.
use crate::rollback::Rollback;
use vstd::prelude::*;

verus! {

/// The serialized value of one tracked component or resource.
#[derive(Debug, PartialEq, Eq)]
pub struct Serialized {
    /// Identifies the type of the value.
    pub type_id: u64,
    /// The value, as the host's serializer for that type wrote it.
    pub bytes: Vec<u8>,
}

/// What a [`Serialized`] value is: a type identifier and a byte sequence.
pub struct SerializedView {
    pub type_id: u64,
    pub bytes: Seq<u8>,
}

impl View for Serialized {
    type V = SerializedView;

    open spec fn view(&self) -> SerializedView {
        SerializedView { type_id: self.type_id, bytes: self.bytes@ }
    }
}

impl Clone for Serialized {
    fn clone(&self) -> (copy: Self)
        ensures
            copy@ == self@,
    {
        let bytes = clone_bytes(&self.bytes);
        Serialized { type_id: self.type_id, bytes }
    }
}

/// A bag of serialized values, each taken by its view.
pub open spec fn views(bag: Seq<Serialized>) -> Seq<SerializedView> {
    Seq::new(bag.len(), |i: int| bag[i]@)
}

/// Copies a byte vector.
pub fn clone_bytes(bytes: &Vec<u8>) -> (copy: Vec<u8>)
    ensures
        copy@ == bytes@,
{
    let mut copy: Vec<u8> = Vec::new();
    let mut i: usize = 0;
    while i < bytes.len()
        invariant
            i <= bytes.len(),
            copy@ == bytes@.take(i as int),
        decreases bytes.len() - i,
    {
        copy.push(bytes[i]);
        proof {
            assert(copy@ =~= bytes@.take(i + 1));
        }
        i = i + 1;
    }
    proof {
        assert(bytes@.take(i as int) =~= bytes@);
    }
    copy
}

/// Copies a bag of serialized values.
pub fn clone_bag(bag: &Vec<Serialized>) -> (copy: Vec<Serialized>)
    ensures
        views(copy@) == views(bag@),
{
    let mut copy: Vec<Serialized> = Vec::new();
    let mut i: usize = 0;
    while i < bag.len()
        invariant
            i <= bag.len(),
            copy.len() == i,
            forall|j: int| 0 <= j < i ==> copy@[j]@ == bag@[j]@,
        decreases bag.len() - i,
    {
        copy.push(bag[i].clone());
        i = i + 1;
    }
    proof {
        assert(views(copy@) =~= views(bag@));
    }
    copy
}

/// Looks for the value of a type in a bag: the place of the first value of
/// that type, or nothing where the bag holds none. A tracked type without a
/// value in a restored bag is a component or resource that the host removes.
pub fn find_value(bag: &Vec<Serialized>, type_id: u64) -> (found: Option<usize>)
    ensures
        found is Some ==> found->0 < bag.len() && bag@[found->0 as int].type_id == type_id,
        found is Some ==> forall|j: int| 0 <= j < found->0 ==> bag@[j].type_id != type_id,
        found is None ==> forall|j: int| 0 <= j < bag.len() ==> bag@[j].type_id != type_id,
{
    let mut i: usize = 0;
    while i < bag.len()
        invariant
            i <= bag.len(),
            forall|j: int| 0 <= j < i ==> bag@[j].type_id != type_id,
        decreases bag.len() - i,
    {
        if bag[i].type_id == type_id {
            return Some(i);
        }
        i = i + 1;
    }
    None
}

/// An entity that takes part in rollback, with its tracked components.
#[derive(Debug, PartialEq, Eq)]
pub struct RollbackEntity {
    /// The entity's rollback tag.
    pub rollback: Rollback,
    /// The serialized values of the entity's tracked components.
    pub components: Vec<Serialized>,
}

impl RollbackEntity {
    /// The entity's rollback id.
    pub open spec fn id(self) -> u32 {
        self.rollback@
    }

    /// The entity's component bag.
    pub open spec fn bag(self) -> Seq<SerializedView> {
        views(self.components@)
    }
}

impl Clone for RollbackEntity {
    fn clone(&self) -> (copy: Self)
        ensures
            copy.id() == self.id(),
            copy.bag() == self.bag(),
    {
        RollbackEntity { rollback: self.rollback, components: clone_bag(&self.components) }
    }
}

/// Whether the entities stand in strictly ascending order of their ids, so
/// that no id occurs twice.
pub open spec fn ascending(entities: Seq<RollbackEntity>) -> bool {
    forall|i: int, j: int|
        0 <= i < j < entities.len() ==> (#[trigger] entities[i]).id() < (#[trigger] entities[j]).id()
}

/// Whether some entity of the sequence has the given id.
pub open spec fn has_id(entities: Seq<RollbackEntity>, id: u32) -> bool {
    exists|j: int| 0 <= j < entities.len() && (#[trigger] entities[j]).id() == id
}

/// The place of an entity with the given id, if there is one.
pub open spec fn index_of(entities: Seq<RollbackEntity>, id: u32) -> int {
    choose|j: int| 0 <= j < entities.len() && (#[trigger] entities[j]).id() == id
}

/// The mapping from rollback id to component bag that the entities stand for.
pub open spec fn entity_map(entities: Seq<RollbackEntity>) -> Map<u32, Seq<SerializedView>> {
    Map::new(|id: u32| has_id(entities, id), |id: u32| entities[index_of(entities, id)].bag())
}

/// Every entity of an ascending sequence is found in the mapping under its
/// id, with its own bag.
pub proof fn lemma_entity_map_at(entities: Seq<RollbackEntity>, j: int)
    requires
        ascending(entities),
        0 <= j < entities.len(),
    ensures
        entity_map(entities).contains_key(entities[j].id()),
        entity_map(entities)[entities[j].id()] == entities[j].bag(),
{
    let id = entities[j].id();
    assert(has_id(entities, id));
    let k = index_of(entities, id);
    assert(0 <= k < entities.len() && entities[k].id() == id);
    if k < j {
        assert(entities[k].id() < entities[j].id());
    } else if j < k {
        assert(entities[j].id() < entities[k].id());
    }
}

/// Putting an entity into an ascending sequence, at a place that keeps it
/// ascending, adds its id and bag to the mapping.
pub proof fn lemma_entity_map_insert(entities: Seq<RollbackEntity>, p: int, e: RollbackEntity)
    requires
        0 <= p <= entities.len(),
        ascending(entities),
        ascending(entities.insert(p, e)),
    ensures
        entity_map(entities.insert(p, e)) == entity_map(entities).insert(e.id(), e.bag()),
{
    let after = entities.insert(p, e);
    let lhs = entity_map(after);
    let rhs = entity_map(entities).insert(e.id(), e.bag());
    assert forall|id: u32| lhs.contains_key(id) <==> rhs.contains_key(id) by {
        if lhs.contains_key(id) {
            let j = index_of(after, id);
            assert(0 <= j < after.len() && after[j].id() == id);
            if j < p {
                assert(entities[j].id() == id);
            } else if j > p {
                assert(entities[j - 1].id() == id);
            }
        }
        if rhs.contains_key(id) {
            if id == e.id() {
                assert(after[p].id() == id);
            } else {
                let j = index_of(entities, id);
                assert(0 <= j < entities.len() && entities[j].id() == id);
                if j < p {
                    assert(after[j].id() == id);
                } else {
                    assert(after[j + 1].id() == id);
                }
            }
        }
    }
    assert forall|id: u32| lhs.contains_key(id) implies lhs[id] == rhs[id] by {
        let j = index_of(after, id);
        assert(0 <= j < after.len() && after[j].id() == id);
        lemma_entity_map_at(after, j);
        if j < p {
            assert(after[j].id() < after[p].id());
            assert(after[j] == entities[j]);
            lemma_entity_map_at(entities, j);
        } else if j > p {
            assert(after[p].id() < after[j].id());
            assert(after[j] == entities[j - 1]);
            lemma_entity_map_at(entities, j - 1);
        }
    }
    assert(lhs =~= rhs);
}

/// Taking an entity out of an ascending sequence takes its id out of the
/// mapping.
pub proof fn lemma_entity_map_remove(entities: Seq<RollbackEntity>, p: int)
    requires
        0 <= p < entities.len(),
        ascending(entities),
    ensures
        ascending(entities.remove(p)),
        entity_map(entities.remove(p)) == entity_map(entities).remove(entities[p].id()),
{
    let after = entities.remove(p);
    let gone = entities[p].id();
    assert forall|i: int, j: int| 0 <= i < j < after.len() implies (#[trigger] after[i]).id() < (
    #[trigger] after[j]).id() by {
        let oi = if i < p { i } else { i + 1 };
        let oj = if j < p { j } else { j + 1 };
        assert(entities[oi].id() < entities[oj].id());
    }
    let lhs = entity_map(after);
    let rhs = entity_map(entities).remove(gone);
    assert forall|id: u32| lhs.contains_key(id) <==> rhs.contains_key(id) by {
        if lhs.contains_key(id) {
            let j = index_of(after, id);
            assert(0 <= j < after.len() && after[j].id() == id);
            let oj = if j < p { j } else { j + 1 };
            assert(entities[oj].id() == id);
            if oj < p {
                assert(entities[oj].id() < entities[p].id());
            } else {
                assert(entities[p].id() < entities[oj].id());
            }
        }
        if rhs.contains_key(id) {
            let j = index_of(entities, id);
            assert(0 <= j < entities.len() && entities[j].id() == id);
            if j < p {
                assert(after[j].id() == id);
            } else {
                assert(after[j - 1].id() == id);
            }
        }
    }
    assert forall|id: u32| lhs.contains_key(id) implies lhs[id] == rhs[id] by {
        let j = index_of(after, id);
        assert(0 <= j < after.len() && after[j].id() == id);
        lemma_entity_map_at(after, j);
        let oj = if j < p { j } else { j + 1 };
        lemma_entity_map_at(entities, oj);
    }
    assert(lhs =~= rhs);
}

/// Replacing an entity by one of the same id replaces its bag in the mapping.
pub proof fn lemma_entity_map_update(entities: Seq<RollbackEntity>, p: int, e: RollbackEntity)
    requires
        0 <= p < entities.len(),
        ascending(entities),
        e.id() == entities[p].id(),
    ensures
        ascending(entities.update(p, e)),
        entity_map(entities.update(p, e)) == entity_map(entities).insert(e.id(), e.bag()),
{
    let after = entities.update(p, e);
    assert forall|i: int, j: int| 0 <= i < j < after.len() implies (#[trigger] after[i]).id() < (
    #[trigger] after[j]).id() by {
        assert(entities[i].id() < entities[j].id());
    }
    let lhs = entity_map(after);
    let rhs = entity_map(entities).insert(e.id(), e.bag());
    assert forall|id: u32| lhs.contains_key(id) <==> rhs.contains_key(id) by {
        if lhs.contains_key(id) {
            let j = index_of(after, id);
            assert(0 <= j < after.len() && after[j].id() == id);
            assert(entities[j].id() == id);
        }
        if rhs.contains_key(id) {
            if id == e.id() {
                assert(after[p].id() == id);
            } else {
                let j = index_of(entities, id);
                assert(0 <= j < entities.len() && entities[j].id() == id);
                assert(after[j].id() == id);
            }
        }
    }
    assert forall|id: u32| lhs.contains_key(id) implies lhs[id] == rhs[id] by {
        let j = index_of(after, id);
        assert(0 <= j < after.len() && after[j].id() == id);
        lemma_entity_map_at(after, j);
        if j != p {
            lemma_entity_map_at(entities, j);
        }
    }
    assert(lhs =~= rhs);
}

/// What a [`WorldState`] is: the bag of every tagged entity under its
/// rollback id, and the list of resources.
pub struct WorldView {
    pub entities: Map<u32, Seq<SerializedView>>,
    pub resources: Seq<SerializedView>,
}

impl WorldView {
    /// The world without tagged entities and without resources.
    pub open spec fn empty() -> WorldView {
        WorldView { entities: Map::empty(), resources: Seq::empty() }
    }

    /// The world with one more entity. Spawning under an id that is in use
    /// changes nothing.
    pub open spec fn spawn(self, id: u32, bag: Seq<SerializedView>) -> WorldView {
        if self.entities.contains_key(id) {
            self
        } else {
            WorldView { entities: self.entities.insert(id, bag), resources: self.resources }
        }
    }

    /// The world without the entity of the given id.
    pub open spec fn despawn(self, id: u32) -> WorldView {
        WorldView { entities: self.entities.remove(id), resources: self.resources }
    }

    /// The world with the bag of an existing entity replaced. Without an
    /// entity of that id nothing changes.
    pub open spec fn with_components(self, id: u32, bag: Seq<SerializedView>) -> WorldView {
        if self.entities.contains_key(id) {
            WorldView { entities: self.entities.insert(id, bag), resources: self.resources }
        } else {
            self
        }
    }
}

/// The world after a run of spawns, from first to last. Each is an entity's
/// rollback id and its bag.
pub open spec fn spawned_all(world: WorldView, spawns: Seq<(u32, Seq<SerializedView>)>) -> WorldView
    decreases spawns.len(),
{
    if spawns.len() == 0 {
        world
    } else {
        spawned_all(world, spawns.drop_last()).spawn(spawns.last().0, spawns.last().1)
    }
}

/// Whether no rollback id occurs twice in a run of spawns.
pub open spec fn distinct_ids(spawns: Seq<(u32, Seq<SerializedView>)>) -> bool {
    forall|i: int, j: int|
        0 <= i < j < spawns.len() ==> (#[trigger] spawns[i]).0 != (#[trigger] spawns[j]).0
}

/// What a run of spawns with distinct ids leaves: the entities of the world
/// as they were, every spawned entity whose id was free with its own bag, and
/// nothing else.
pub proof fn lemma_spawned_all(world: WorldView, spawns: Seq<(u32, Seq<SerializedView>)>)
    requires
        distinct_ids(spawns),
    ensures
        spawned_all(world, spawns).resources == world.resources,
        forall|id: u32|
            world.entities.contains_key(id) ==> #[trigger] spawned_all(
                world,
                spawns,
            ).entities.contains_key(id) && spawned_all(world, spawns).entities[id]
                == world.entities[id],
        forall|i: int|
            0 <= i < spawns.len() ==> spawned_all(world, spawns).entities.contains_key(
                (#[trigger] spawns[i]).0,
            ),
        forall|i: int|
            0 <= i < spawns.len() && !world.entities.contains_key((#[trigger] spawns[i]).0)
                ==> spawned_all(world, spawns).entities[spawns[i].0] == spawns[i].1,
        forall|id: u32| #[trigger]
            spawned_all(world, spawns).entities.contains_key(id) ==> world.entities.contains_key(
                id,
            ) || exists|i: int| 0 <= i < spawns.len() && (#[trigger] spawns[i]).0 == id,
    decreases spawns.len(),
{
    if spawns.len() > 0 {
        let before = spawns.drop_last();
        let last = spawns.last();
        assert(distinct_ids(before)) by {
            assert forall|i: int, j: int| 0 <= i < j < before.len() implies (#[trigger] before[i]).0
                != (#[trigger] before[j]).0 by {
                assert(spawns[i].0 != spawns[j].0);
            }
        }
        lemma_spawned_all(world, before);
        let mid = spawned_all(world, before);
        let end = spawned_all(world, spawns);
        assert(end == mid.spawn(last.0, last.1));
        // the id of the last spawn was not spawned before
        assert(mid.entities.contains_key(last.0) ==> world.entities.contains_key(last.0)) by {
            if mid.entities.contains_key(last.0) && !world.entities.contains_key(last.0) {
                let i = choose|i: int| 0 <= i < before.len() && (#[trigger] before[i]).0 == last.0;
                assert(spawns[i].0 != spawns[spawns.len() - 1].0);
            }
        }
        assert forall|i: int| 0 <= i < spawns.len() implies end.entities.contains_key(
            (#[trigger] spawns[i]).0,
        ) by {
            if i < before.len() {
                assert(before[i] == spawns[i]);
            }
        }
        assert forall|i: int|
            0 <= i < spawns.len() && !world.entities.contains_key(
                (#[trigger] spawns[i]).0,
            ) implies end.entities[spawns[i].0] == spawns[i].1 by {
            if i < before.len() {
                assert(before[i] == spawns[i]);
                assert(spawns[i].0 != spawns[spawns.len() - 1].0);
            }
        }
        assert forall|id: u32| #[trigger]
            end.entities.contains_key(id) implies world.entities.contains_key(id) || exists|i: int|
            0 <= i < spawns.len() && (#[trigger] spawns[i]).0 == id by {
            if !world.entities.contains_key(id) {
                if id == last.0 {
                    assert(spawns[spawns.len() - 1].0 == id);
                } else {
                    assert(mid.entities.contains_key(id));
                    let i = choose|i: int| 0 <= i < before.len() && (#[trigger] before[i]).0 == id;
                    assert(spawns[i].0 == id);
                }
            }
        }
    }
}

/// Two runs of spawns that hold the same spawns without a repeated id, in
/// whichever order, leave the same world.
pub proof fn lemma_spawn_order_does_not_matter(
    world: WorldView,
    one: Seq<(u32, Seq<SerializedView>)>,
    other: Seq<(u32, Seq<SerializedView>)>,
)
    requires
        distinct_ids(one),
        distinct_ids(other),
        forall|spawn: (u32, Seq<SerializedView>)| one.contains(spawn) <==> other.contains(spawn),
    ensures
        spawned_all(world, one) == spawned_all(world, other),
{
    lemma_spawned_all(world, one);
    lemma_spawned_all(world, other);
    let a = spawned_all(world, one);
    let b = spawned_all(world, other);
    assert forall|id: u32| a.entities.contains_key(id) implies b.entities.contains_key(id)
        && a.entities[id] == b.entities[id] by {
        if !world.entities.contains_key(id) {
            let i = choose|i: int| 0 <= i < one.len() && (#[trigger] one[i]).0 == id;
            assert(one.contains(one[i]));
            assert(other.contains(one[i]));
            let j = choose|j: int| 0 <= j < other.len() && other[j] == one[i];
            assert(other[j].0 == id);
        }
    }
    assert forall|id: u32| b.entities.contains_key(id) implies a.entities.contains_key(id) by {
        if !world.entities.contains_key(id) {
            let j = choose|j: int| 0 <= j < other.len() && (#[trigger] other[j]).0 == id;
            assert(other.contains(other[j]));
            assert(one.contains(other[j]));
            let i = choose|i: int| 0 <= i < one.len() && one[i] == other[j];
            assert(one[i].0 == id);
        }
    }
    assert(a.entities =~= b.entities);
}

/// The rollback-tracked state of a world. Entities are kept by their rollback
/// id, however and in whichever order they were spawned.
#[derive(Debug, PartialEq, Eq)]
pub struct WorldState {
    entities: Vec<RollbackEntity>,
    resources: Vec<Serialized>,
}

impl View for WorldState {
    type V = WorldView;

    closed spec fn view(&self) -> WorldView {
        WorldView { entities: entity_map(self.entities@), resources: views(self.resources@) }
    }
}

impl Clone for WorldState {
    fn clone(&self) -> (copy: Self)
        ensures
            self.wf() ==> copy.wf() && copy@ == self@,
            copy@.resources == self@.resources,
    {
        let mut entities: Vec<RollbackEntity> = Vec::new();
        let mut i: usize = 0;
        while i < self.entities.len()
            invariant
                i <= self.entities.len(),
                entities.len() == i,
                forall|j: int|
                    0 <= j < i ==> (#[trigger] entities@[j]).id() == self.entities@[j].id()
                        && entities@[j].bag() == self.entities@[j].bag(),
            decreases self.entities.len() - i,
        {
            entities.push(self.entities[i].clone());
            i = i + 1;
        }
        let resources = clone_bag(&self.resources);
        proof {
            if self.wf() {
                lemma_entity_map_same(self.entities@, entities@);
            }
        }
        WorldState { entities, resources }
    }
}

impl WorldState {
    /// Whether the state is well formed: no rollback id occurs twice.
    pub closed spec fn wf(&self) -> bool {
        ascending(self.entities@)
    }

    /// A world without tagged entities and without resources.
    pub fn new() -> (world: Self)
        ensures
            world.wf(),
            world@ == WorldView::empty(),
    {
        let world = WorldState { entities: Vec::new(), resources: Vec::new() };
        proof {
            assert(entity_map(world.entities@) =~= Map::<u32, Seq<SerializedView>>::empty());
            assert(views(world.resources@) =~= Seq::<SerializedView>::empty());
        }
        world
    }

    /// The tagged entities, in ascending order of their rollback ids.
    pub fn entities(&self) -> (entities: &Vec<RollbackEntity>)
        requires
            self.wf(),
        ensures
            ascending(entities@),
            entity_map(entities@) == self@.entities,
    {
        &self.entities
    }

    /// The tracked resources.
    pub fn resources(&self) -> (resources: &Vec<Serialized>)
        ensures
            views(resources@) == self@.resources,
    {
        &self.resources
    }

    /// Replaces the tracked resources.
    pub fn set_resources(&mut self, resources: Vec<Serialized>)
        ensures
            old(self).wf() ==> final(self).wf(),
            final(self)@.entities == old(self)@.entities,
            final(self)@.resources == views(resources@),
    {
        self.resources = resources;
    }

    /// The number of tagged entities.
    pub fn len(&self) -> (n: usize)
        requires
            self.wf(),
        ensures
            n == self@.entities.dom().len(),
            self@.entities.dom().finite(),
    {
        proof {
            lemma_entity_map_dom(self.entities@);
        }
        self.entities.len()
    }

    /// The first place whose entity has an id not below `id`.
    fn lower_bound(&self, id: u32) -> (p: usize)
        requires
            self.wf(),
        ensures
            p <= self.entities.len(),
            forall|j: int| 0 <= j < p ==> (#[trigger] self.entities@[j]).id() < id,
            forall|j: int| p <= j < self.entities.len() ==> (#[trigger] self.entities@[j]).id() >= id,
    {
        let mut p: usize = 0;
        while p < self.entities.len() && self.entities[p].rollback.id() < id
            invariant
                p <= self.entities.len(),
                forall|j: int| 0 <= j < p ==> (#[trigger] self.entities@[j]).id() < id,
            decreases self.entities.len() - p,
        {
            p = p + 1;
        }
        proof {
            if p < self.entities.len() {
                assert forall|j: int| p <= j < self.entities.len() implies (
                #[trigger] self.entities@[j]).id() >= id by {
                    if p < j {
                        assert(self.entities@[p as int].id() < self.entities@[j].id());
                    }
                }
            }
        }
        p
    }

    /// Tells whether the place that `lower_bound` found holds the id itself.
    fn found(&self, p: usize, id: u32) -> (hit: bool)
        requires
            self.wf(),
            p <= self.entities.len(),
            forall|j: int| 0 <= j < p ==> (#[trigger] self.entities@[j]).id() < id,
            forall|j: int| p <= j < self.entities.len() ==> (#[trigger] self.entities@[j]).id() >= id,
        ensures
            hit == self@.entities.contains_key(id),
            hit ==> p < self.entities.len() && self.entities@[p as int].id() == id,
    {
        let hit = p < self.entities.len() && self.entities[p].rollback.id() == id;
        proof {
            if hit {
                lemma_entity_map_at(self.entities@, p as int);
            } else if has_id(self.entities@, id) {
                let j = index_of(self.entities@, id);
                assert(self.entities@[j].id() == id);
                if j < p {
                    assert(self.entities@[j].id() < id);
                } else if j > p {
                    assert(self.entities@[p as int].id() < self.entities@[j].id());
                }
            }
        }
        hit
    }

    /// Tells whether an entity with the given rollback id exists.
    pub fn contains(&self, id: u32) -> (present: bool)
        requires
            self.wf(),
        ensures
            present == self@.entities.contains_key(id),
    {
        let p = self.lower_bound(id);
        self.found(p, id)
    }

    /// The components of the entity with the given rollback id, if it exists.
    pub fn components(&self, id: u32) -> (bag: Option<&Vec<Serialized>>)
        requires
            self.wf(),
        ensures
            bag is Some <==> self@.entities.contains_key(id),
            bag is Some ==> views(bag->0@) == self@.entities[id],
    {
        let p = self.lower_bound(id);
        if self.found(p, id) {
            proof {
                lemma_entity_map_at(self.entities@, p as int);
            }
            Some(&self.entities[p].components)
        } else {
            None
        }
    }

    /// Adds an entity with the given tag and components. Nothing is added,
    /// and `false` is returned, where the tag's id is already in use.
    pub fn spawn(&mut self, rollback: Rollback, components: Vec<Serialized>) -> (spawned: bool)
        requires
            old(self).wf(),
        ensures
            final(self).wf(),
            spawned == !old(self)@.entities.contains_key(rollback@),
            final(self)@ == old(self)@.spawn(rollback@, views(components@)),
    {
        let id = rollback.id();
        let p = self.lower_bound(id);
        if self.found(p, id) {
            return false;
        }
        let entity = RollbackEntity { rollback, components };
        proof {
            let before = self.entities@;
            let after = before.insert(p as int, entity);
            assert forall|i: int, j: int| 0 <= i < j < after.len() implies (#[trigger] after[i]).id()
                < (#[trigger] after[j]).id() by {
                if j < p {
                    assert(before[i].id() < before[j].id());
                } else if j == p {
                    assert(before[i].id() < id);
                } else if i < p {
                    assert(before[i].id() < id);
                    assert(before[j - 1].id() >= id);
                    if before[j - 1].id() == id {
                        lemma_entity_map_at(before, j - 1);
                    }
                } else if i == p {
                    assert(before[j - 1].id() >= id);
                    if before[j - 1].id() == id {
                        lemma_entity_map_at(before, j - 1);
                    }
                } else {
                    assert(before[i - 1].id() < before[j - 1].id());
                }
            }
            lemma_entity_map_insert(before, p as int, entity);
        }
        self.entities.insert(p, entity);
        true
    }

    /// Removes the entity with the given rollback id. Returns `false` where
    /// there is none.
    pub fn despawn(&mut self, id: u32) -> (removed: bool)
        requires
            old(self).wf(),
        ensures
            final(self).wf(),
            removed == old(self)@.entities.contains_key(id),
            final(self)@ == old(self)@.despawn(id),
    {
        let p = self.lower_bound(id);
        if self.found(p, id) {
            proof {
                lemma_entity_map_remove(self.entities@, p as int);
            }
            self.entities.remove(p);
            true
        } else {
            proof {
                assert(self@.entities.remove(id) =~= self@.entities);
            }
            false
        }
    }

    /// Replaces the components of the entity with the given rollback id.
    /// Nothing changes, and `false` is returned, where there is no such
    /// entity.
    pub fn set_components(&mut self, id: u32, components: Vec<Serialized>) -> (replaced: bool)
        requires
            old(self).wf(),
        ensures
            final(self).wf(),
            replaced == old(self)@.entities.contains_key(id),
            final(self)@ == old(self)@.with_components(id, views(components@)),
    {
        let p = self.lower_bound(id);
        if self.found(p, id) {
            let entity = RollbackEntity { rollback: self.entities[p].rollback, components };
            proof {
                lemma_entity_map_update(self.entities@, p as int, entity);
            }
            self.entities.set(p, entity);
            true
        } else {
            false
        }
    }
}

/// The ids of an ascending sequence are as many as its entities.
pub proof fn lemma_entity_map_dom(entities: Seq<RollbackEntity>)
    requires
        ascending(entities),
    ensures
        entity_map(entities).dom().finite(),
        entity_map(entities).dom().len() == entities.len(),
    decreases entities.len(),
{
    if entities.len() == 0 {
        assert(entity_map(entities).dom() =~= Set::<u32>::empty());
    } else {
        let p = entities.len() - 1;
        lemma_entity_map_remove(entities, p);
        let rest = entities.remove(p);
        lemma_entity_map_dom(rest);
        lemma_entity_map_at(entities, p);
        let id = entities[p].id();
        assert(entity_map(entities).dom() =~= entity_map(rest).dom().insert(id));
        assert(!entity_map(rest).dom().contains(id));
    }
}

/// Two ascending sequences that agree place by place on ids and bags stand
/// for the same mapping.
pub proof fn lemma_entity_map_same(a: Seq<RollbackEntity>, b: Seq<RollbackEntity>)
    requires
        ascending(a),
        a.len() == b.len(),
        forall|j: int|
            0 <= j < a.len() ==> (#[trigger] b[j]).id() == a[j].id() && b[j].bag() == a[j].bag(),
    ensures
        ascending(b),
        entity_map(a) == entity_map(b),
{
    assert forall|i: int, j: int| 0 <= i < j < b.len() implies (#[trigger] b[i]).id() < (
    #[trigger] b[j]).id() by {
        assert(a[i].id() < a[j].id());
    }
    assert forall|id: u32| has_id(a, id) <==> has_id(b, id) by {
        if has_id(a, id) {
            let j = index_of(a, id);
            assert(b[j].id() == id);
        }
        if has_id(b, id) {
            let j = index_of(b, id);
            assert(a[j].id() == id);
        }
    }
    assert forall|id: u32| has_id(a, id) implies entity_map(a)[id] == entity_map(b)[id] by {
        let j = index_of(a, id);
        assert(a[j].id() == id);
        assert(b[j].id() == id);
        lemma_entity_map_at(a, j);
        lemma_entity_map_at(b, j);
    }
    assert(entity_map(a) =~= entity_map(b));
}

} // verus!
