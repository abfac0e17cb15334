//! Stable identifiers for the entities that take part in rollback.
use vstd::prelude::*;

verus! {

/// The tag of an entity that is saved and restored on rollback. It carries the
/// entity's rollback id, which must be unique among the tagged entities of a
/// world.
#[derive(Clone, Copy, Debug, PartialEq, Eq, Hash)]
pub struct Rollback {
    id: u32,
}

impl View for Rollback {
    type V = u32;

    closed spec fn view(&self) -> u32 {
        self.id
    }
}

impl Rollback {
    /// Creates a new rollback tag with the given id.
    pub fn new(id: u32) -> (tag: Self)
        ensures
            tag@ == id,
    {
        Rollback { id }
    }

    /// Returns the rollback id.
    pub fn id(&self) -> (id: u32)
        ensures
            id == self@,
    {
        self.id
    }
}

/// Issues rollback ids: every id handed out is larger than all ids handed
/// out before, so none is ever used twice. The view is the id that is
/// issued next.
#[derive(Debug)]
pub struct RollbackIdProvider {
    next_id: u32,
}

impl View for RollbackIdProvider {
    type V = u32;

    closed spec fn view(&self) -> u32 {
        self.next_id
    }
}

impl Default for RollbackIdProvider {
    fn default() -> (provider: Self)
        ensures
            provider@ == 0,
    {
        RollbackIdProvider { next_id: 0 }
    }
}

impl RollbackIdProvider {
    /// The id that the `k`-th call of [`RollbackIdProvider::next_id`] from
    /// this state on returns, counting from zero.
    pub open spec fn issued(self, k: nat) -> int {
        self@ + k
    }

    /// Whether the provider has ids left. Once `u32::MAX` has been reached
    /// no further id can be issued.
    pub open spec fn has_next(self) -> bool {
        self@ < u32::MAX
    }

    /// Tells whether another id can be issued.
    pub fn is_exhausted(&self) -> (exhausted: bool)
        ensures
            exhausted == !self.has_next(),
    {
        self.next_id == u32::MAX
    }

    /// Returns an unused, unique id.
    pub fn next_id(&mut self) -> (id: u32)
        requires
            old(self).has_next(),
        ensures
            id == old(self)@,
            id == old(self).issued(0),
            final(self)@ == old(self)@ + 1,
            forall|k: nat| #[trigger] final(self).issued(k) == old(self).issued(k + 1),
    {
        let ret: u32 = self.next_id;
        self.next_id = self.next_id + 1;
        ret
    }

    /// Returns a [`Rollback`] tag with the next unused id.
    pub fn next(&mut self) -> (tag: Rollback)
        requires
            old(self).has_next(),
        ensures
            tag@ == old(self)@,
            final(self)@ == old(self)@ + 1,
    {
        Rollback::new(self.next_id())
    }

    /// Ids are issued in strictly increasing order: a later call returns a
    /// larger id than any earlier call, so the ids of any number of calls are
    /// pairwise distinct.
    pub proof fn lemma_issued_strictly_increasing(self, i: nat, j: nat)
        requires
            i < j,
        ensures
            self.issued(i) < self.issued(j),
            self.issued(i) != self.issued(j),
    {
    }
}

} // verus!
