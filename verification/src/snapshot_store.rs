//! The ring buffer of world snapshots, one slot for every frame of the
//! session's prediction window.
use crate::world::WorldView;
use crate::world_snapshot::captured;
use crate::world_snapshot::SnapshotView;
use crate::world_snapshot::WorldSnapshot;
use vstd::prelude::*;

verus! {

/// The slot of a frame in a store of `slots` slots: the frame modulo the
/// number of slots.
pub open spec fn slot_of(frame: i32, slots: nat) -> int {
    frame as int % slots as int
}

/// A fixed number of snapshot slots. The snapshot of a frame is kept in the
/// slot of that frame and stays there until a frame of the same slot is
/// saved; the store does not check how far apart two frames are.
#[derive(Debug)]
pub struct SnapshotStore {
    slots: Vec<WorldSnapshot>,
}

impl View for SnapshotStore {
    type V = Seq<SnapshotView>;

    closed spec fn view(&self) -> Seq<SnapshotView> {
        Seq::new(self.slots@.len(), |i: int| self.slots@[i]@)
    }
}

impl SnapshotStore {
    /// Whether every slot holds a well-formed snapshot.
    pub closed spec fn wf(&self) -> bool {
        forall|i: int| 0 <= i < self.slots@.len() ==> (#[trigger] self.slots@[i]).wf()
    }

    /// A store without slots.
    pub fn new() -> (store: Self)
        ensures
            store.wf(),
            store@.len() == 0,
    {
        SnapshotStore { slots: Vec::new() }
    }

    /// The number of slots.
    pub fn len(&self) -> (n: usize)
        ensures
            n == self@.len(),
    {
        self.slots.len()
    }

    /// Tells whether the store has no slots.
    pub fn is_empty(&self) -> (empty: bool)
        ensures
            empty == (self@.len() == 0),
    {
        self.slots.len() == 0
    }

    /// Gives a store without slots `size` slots, each with the snapshot of
    /// the empty world. A store that has slots is left as it is.
    pub fn initialize(&mut self, size: usize)
        requires
            old(self).wf(),
        ensures
            final(self).wf(),
            old(self)@.len() > 0 ==> final(self)@ == old(self)@,
            old(self)@.len() == 0 ==> final(self)@ == Seq::new(
                size as nat,
                |i: int| captured(WorldView::empty()),
            ),
    {
        if self.slots.len() == 0 {
            let mut i: usize = 0;
            while i < size
                invariant
                    i <= size,
                    self.slots@.len() == i,
                    self.wf(),
                    forall|j: int|
                        0 <= j < i ==> (#[trigger] self.slots@[j])@ == captured(WorldView::empty()),
                decreases size - i,
            {
                self.slots.push(WorldSnapshot::default());
                i = i + 1;
            }
            proof {
                assert(self@ =~= Seq::new(size as nat, |i: int| captured(WorldView::empty())));
            }
        }
    }

    /// Removes all slots.
    pub fn clear(&mut self)
        ensures
            final(self).wf(),
            final(self)@.len() == 0,
    {
        self.slots = Vec::new();
    }

    /// Puts the snapshot of a frame into the slot of that frame.
    pub fn save(&mut self, frame: i32, snapshot: WorldSnapshot)
        requires
            old(self).wf(),
            snapshot.wf(),
            frame >= 0,
            old(self)@.len() > 0,
        ensures
            final(self).wf(),
            final(self)@ == old(self)@.update(slot_of(frame, old(self)@.len()), snapshot@),
    {
        let pos: usize = frame as usize % self.slots.len();
        self.slots.set(pos, snapshot);
        proof {
            assert(self@ =~= old(self)@.update(slot_of(frame, old(self)@.len()), snapshot@));
        }
    }

    /// The snapshot in the slot of a frame.
    pub fn load(&self, frame: i32) -> (snapshot: &WorldSnapshot)
        requires
            self.wf(),
            frame >= 0,
            self@.len() > 0,
        ensures
            snapshot.wf(),
            0 <= slot_of(frame, self@.len()) < self@.len(),
            snapshot@ == self@[slot_of(frame, self@.len())],
    {
        let pos: usize = frame as usize % self.slots.len();
        &self.slots[pos]
    }

    /// A snapshot that was saved is what loading its frame gives, until a
    /// frame of the same slot is saved; the other slots are untouched.
    pub proof fn lemma_saved_is_loaded(slots: Seq<SnapshotView>, frame: i32, snapshot: SnapshotView)
        requires
            slots.len() > 0,
            frame >= 0,
        ensures
            slots.update(slot_of(frame, slots.len()), snapshot)[slot_of(frame, slots.len())]
                == snapshot,
            forall|other: i32|
                other >= 0 && slot_of(other, slots.len()) != slot_of(frame, slots.len())
                    ==> slots.update(slot_of(frame, slots.len()), snapshot)[#[trigger] slot_of(
                    other,
                    slots.len(),
                )] == slots[slot_of(other, slots.len())],
    {
    }
}

} // verus!
