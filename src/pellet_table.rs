use vstd::prelude::*;

use crate::pellet::Pellet;

verus! {

/// The pellets on the field, each under an id that the table issued and never issues again.
pub struct PelletTable {
    pub entries: Vec<(u64, Pellet)>,
    /// Every id issued so far is below this one.
    pub next_id: u64,
}

impl PelletTable {
    pub open spec fn wf(&self) -> bool {
        &&& forall|i: int| 0 <= i < self.entries@.len() ==> (#[trigger] self.entries@[i]).1.wf()
        &&& forall|i: int| 0 <= i < self.entries@.len() ==> (#[trigger] self.entries@[i]).0 < self.next_id
        &&& forall|i: int, j: int|
            0 <= i < j < self.entries@.len() ==> (#[trigger] self.entries@[i]).0 != (#[trigger] self.entries@[j]).0
    }

    pub open spec fn contains_id(&self, id: u64) -> bool {
        exists|i: int| 0 <= i < self.entries@.len() && (#[trigger] self.entries@[i]).0 == id
    }

    /// How many more pellets can still be given an id.
    pub open spec fn ids_left(&self) -> int {
        u64::MAX - self.next_id
    }

    pub fn new() -> (r: PelletTable)
        ensures
            r.wf(),
            r.entries@.len() == 0,
            r.next_id == 0,
    {
        PelletTable { entries: Vec::new(), next_id: 0 }
    }

    pub fn len(&self) -> (r: usize)
        ensures
            r == self.entries@.len(),
    {
        self.entries.len()
    }

    /// Adds `p` under a fresh id, when one is left.
    pub fn insert(&mut self, p: Pellet) -> (added: bool)
        requires
            old(self).wf(),
            p.wf(),
        ensures
            final(self).wf(),
            added == (old(self).next_id < u64::MAX),
            added ==> final(self).entries@ == old(self).entries@.push((old(self).next_id, p)),
            added ==> final(self).next_id == old(self).next_id + 1,
            !added ==> *final(self) == *old(self),
    {
        if self.next_id == u64::MAX {
            return false;
        }
        let id = self.next_id;
        self.entries.push((id, p));
        self.next_id = id + 1;
        true
    }
}

} // verus!
