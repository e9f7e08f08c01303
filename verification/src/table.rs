//! The connection table: a growable list of slots whose indices double as
//! reactor identifiers. An index is handed out once, when its connection
//! is added, and never reassigned: clearing a slot leaves it permanently
//! vacant, so an outstanding readiness report can never name the wrong
//! connection.

use vstd::prelude::*;
use crate::driver::Connection;

verus! {

/// The table of connection slots, owned by the reactor loop.
pub struct ConnTable {
    slots: Vec<Option<Connection>>,
}

impl ConnTable {
    /// The slots as the contracts speak of them.
    pub closed spec fn slots(self) -> Seq<Option<Connection>> {
        self.slots@
    }

    /// The table's invariant: every occupied slot holds a well-formed
    /// connection.
    pub open spec fn wf(self) -> bool {
        forall|i: int|
            0 <= i < self.slots().len() ==> ((#[trigger] self.slots()[i]) matches Some(c)
                ==> c.wf())
    }

    /// An empty table.
    pub fn new() -> (r: ConnTable)
        ensures
            r.wf(),
            r.slots().len() == 0,
    {
        ConnTable { slots: Vec::new() }
    }

    /// How many slots the table has ever held, occupied or vacant.
    pub fn slot_count(&self) -> (r: usize)
        ensures
            r == self.slots().len(),
    {
        self.slots.len()
    }

    /// Adds a connection in a fresh slot and hands out its identifier:
    /// the next index, never one used before, so existing identifiers
    /// stay valid.
    pub fn add(&mut self, c: Connection) -> (id: usize)
        requires
            old(self).wf(),
            c.wf(),
            old(self).slots().len() < usize::MAX,
        ensures
            final(self).wf(),
            id == old(self).slots().len(),
            final(self).slots() == old(self).slots().push(Some(c)),
    {
        let id = self.slots.len();
        self.slots.push(Some(c));
        id
    }

    /// Whether the slot named by `id` currently holds a connection.
    pub fn is_occupied(&self, id: usize) -> (r: bool)
        requires
            id < self.slots().len(),
        ensures
            r == (self.slots()[id as int] is Some),
    {
        self.slots[id].is_some()
    }

    /// Whether any slot is still occupied; the run ends when none is.
    pub fn any_occupied(&self) -> (r: bool)
        ensures
            r == exists|i: int| 0 <= i < self.slots().len() && self.slots()[i] is Some,
    {
        let mut i: usize = 0;
        while i < self.slots.len()
            invariant
                0 <= i <= self.slots().len(),
                forall|k: int| 0 <= k < i ==> self.slots()[k] is None,
            decreases self.slots().len() - i,
        {
            if self.slots[i].is_some() {
                return true;
            }
            i = i + 1;
        }
        false
    }

    /// Takes the connection out of its slot for one resumption step,
    /// leaving the slot vacant until it is put back or cleared for good.
    pub fn take_conn(&mut self, id: usize) -> (r: Connection)
        requires
            old(self).wf(),
            id < old(self).slots().len(),
            old(self).slots()[id as int] is Some,
        ensures
            final(self).wf(),
            Some(r) == old(self).slots()[id as int],
            r.wf(),
            final(self).slots() == old(self).slots().update(id as int, None),
    {
        self.slots[id].take().unwrap()
    }

    /// Puts a connection back into its vacant slot after a resumption
    /// step that left it pending.
    pub fn put_conn(&mut self, id: usize, c: Connection)
        requires
            old(self).wf(),
            c.wf(),
            id < old(self).slots().len(),
            old(self).slots()[id as int] is None,
        ensures
            final(self).wf(),
            final(self).slots() == old(self).slots().update(id as int, Some(c)),
    {
        let slot = &mut self.slots[id];
        *slot = Some(c);
    }

    /// Clears the slot named by `id` for good. Every other slot — its
    /// occupancy, its connection's protocol state and queued output — is
    /// left exactly as it was, so clearing one connection never disturbs
    /// another.
    pub fn clear(&mut self, id: usize) -> (cleared: Option<Connection>)
        requires
            old(self).wf(),
            id < old(self).slots().len(),
        ensures
            final(self).wf(),
            cleared == old(self).slots()[id as int],
            final(self).slots() == old(self).slots().update(id as int, None),
            final(self).slots().len() == old(self).slots().len(),
            forall|j: int|
                0 <= j < old(self).slots().len() && j != id ==> final(self).slots()[j] == old(
                    self,
                ).slots()[j],
    {
        self.slots[id].take()
    }
}

} // verus!
