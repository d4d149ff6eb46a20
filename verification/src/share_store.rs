//! Records kept by key id: the shares of server keys that one node keeps,
//! and the entries of the keys that the cluster knows.

use vstd::prelude::*;
use crate::types::{Secret, ServerKeyId};

verus! {

/// One node's share of a server key: the point at which the sharing
/// polynomial was evaluated for this node, and its value there.
#[derive(Clone, Copy, Debug, PartialEq, Eq)]
pub struct ShareRecord {
    pub number: u64,
    pub share: Secret,
}

/// Records by key id. At most one record is kept under an id.
pub struct Records<R> {
    ids: Vec<ServerKeyId>,
    records: Vec<R>,
}

/// A node's store of shares.
pub type ShareStore = Records<ShareRecord>;

/// A place at which the id stands among the ids.
pub open spec fn position_of(ids: Seq<ServerKeyId>, id: Seq<u8>) -> int {
    choose|i: int| 0 <= i < ids.len() && ids[i]@ == id
}

/// Whether the id is among the ids.
pub open spec fn holds(ids: Seq<ServerKeyId>, id: Seq<u8>) -> bool {
    exists|i: int| 0 <= i < ids.len() && ids[i]@ == id
}

impl<R> View for Records<R> {
    type V = Map<Seq<u8>, R>;

    closed spec fn view(&self) -> Map<Seq<u8>, R> {
        Map::new(
            |id: Seq<u8>| holds(self.ids@, id),
            |id: Seq<u8>| self.records@[position_of(self.ids@, id)],
        )
    }
}

impl<R: Copy> Records<R> {
    /// No id is kept twice.
    pub closed spec fn wf(&self) -> bool {
        &&& self.ids@.len() == self.records@.len()
        &&& forall|i: int, j: int|
            0 <= i < j < self.ids@.len() ==> self.ids@[i]@ != self.ids@[j]@
    }

    /// The ids under which records are kept, in the order in which they
    /// came.
    pub closed spec fn ids(&self) -> Seq<Seq<u8>> {
        Seq::new(self.ids@.len(), |i: int| self.ids@[i]@)
    }

    /// The ids are those of the records, each once.
    pub proof fn lemma_ids(&self)
        requires
            self.wf(),
        ensures
            forall|i: int, j: int|
                0 <= i < j < self.ids().len() ==> self.ids()[i] != self.ids()[j],
            forall|id: Seq<u8>| self@.contains_key(id) <==> self.ids().contains(id),
    {
        assert forall|id: Seq<u8>| self@.contains_key(id) <==> self.ids().contains(id) by {
            if self@.contains_key(id) {
                let p = position_of(self.ids@, id);
                assert(self.ids()[p] == id);
            }
            if self.ids().contains(id) {
                let p = choose|p: int| 0 <= p < self.ids().len() && self.ids()[p] == id;
                assert(self.ids@[p]@ == id);
            }
        }
    }

    /// The number of records.
    pub fn len(&self) -> (n: usize)
        ensures
            n == self.ids().len(),
    {
        self.ids.len()
    }

    /// The id of the record at a position.
    pub fn id_at(&self, position: usize) -> (id: ServerKeyId)
        requires
            position < self.ids().len(),
        ensures
            id@ == self.ids()[position as int],
    {
        self.ids[position]
    }

    /// Records of nothing.
    pub fn new() -> (store: Records<R>)
        ensures
            store.wf(),
            store@ == Map::<Seq<u8>, R>::empty(),
    {
        let store = Records { ids: Vec::new(), records: Vec::new() };
        assert(store@ =~= Map::<Seq<u8>, R>::empty());
        store
    }

    fn find(&self, id: &ServerKeyId) -> (r: Option<usize>)
        requires
            self.wf(),
        ensures
            r is Some <==> holds(self.ids@, id@),
            r matches Some(i) ==> i < self.ids@.len() && self.ids@[i as int]@ == id@
                && position_of(self.ids@, id@) == i,
    {
        let mut i: usize = 0;
        while i < self.ids.len()
            invariant
                self.wf(),
                i <= self.ids@.len(),
                forall|k: int| 0 <= k < i ==> self.ids@[k]@ != id@,
            decreases self.ids@.len() - i,
        {
            if self.ids[i].same(id) {
                return Some(i);
            }
            i += 1;
        }
        None
    }

    /// Whether a record is kept under the id.
    pub fn contains(&self, id: &ServerKeyId) -> (r: bool)
        requires
            self.wf(),
        ensures
            r == self@.contains_key(id@),
    {
        self.find(id).is_some()
    }

    /// The record kept under the id.
    pub fn get(&self, id: &ServerKeyId) -> (r: Option<R>)
        requires
            self.wf(),
        ensures
            r is Some <==> self@.contains_key(id@),
            r matches Some(record) ==> record == self@[id@],
    {
        match self.find(id) {
            Some(i) => Some(self.records[i]),
            None => None,
        }
    }

    /// Keeps the record under the id, in place of the one kept there before.
    pub fn put(&mut self, id: ServerKeyId, record: R)
        requires
            old(self).wf(),
        ensures
            final(self).wf(),
            final(self)@ == old(self)@.insert(id@, record),
    {
        match self.find(&id) {
            Some(i) => {
                self.records[i] = record;
                assert forall|k: Seq<u8>| holds(self.ids@, k) implies #[trigger] self@[k] == old(
                    self,
                )@.insert(id@, record)[k] by {
                    let p = position_of(self.ids@, k);
                    if k != id@ {
                        assert(p != i);
                    }
                }
                assert(self@ =~= old(self)@.insert(id@, record));
            },
            None => {
                let ghost before = self.ids@;
                self.ids.push(id);
                self.records.push(record);
                assert(self.ids@[before.len() as int]@ == id@);
                assert forall|k: Seq<u8>| holds(self.ids@, k) <==> (k == id@ || holds(before, k)) by {
                    if holds(before, k) {
                        let p = position_of(before, k);
                        assert(self.ids@[p]@ == k);
                    }
                    if holds(self.ids@, k) && k != id@ {
                        let p = position_of(self.ids@, k);
                        assert(before[p]@ == k);
                    }
                }
                assert forall|k: Seq<u8>| holds(self.ids@, k) implies #[trigger] self@[k] == old(
                    self,
                )@.insert(id@, record)[k] by {
                    let p = position_of(self.ids@, k);
                    if k != id@ {
                        let q = position_of(before, k);
                        assert(self.ids@[q]@ == k);
                        assert(p == q);
                    } else {
                        assert(p == before.len());
                    }
                }
                assert(self@ =~= old(self)@.insert(id@, record));
            },
        }
    }

    /// Forgets the record kept under the id, and says whether there was one.
    pub fn delete(&mut self, id: &ServerKeyId) -> (removed: bool)
        requires
            old(self).wf(),
        ensures
            final(self).wf(),
            removed == old(self)@.contains_key(id@),
            final(self)@ == old(self)@.remove(id@),
    {
        match self.find(id) {
            Some(i) => {
                let ghost before = self.ids@;
                self.ids.remove(i);
                self.records.remove(i);
                assert forall|k: Seq<u8>| holds(self.ids@, k) <==> (k != id@ && holds(before, k)) by {
                    if holds(self.ids@, k) {
                        let p = position_of(self.ids@, k);
                        if p < i {
                            assert(before[p]@ == k);
                        } else {
                            assert(before[p + 1]@ == k);
                        }
                    }
                    if k != id@ && holds(before, k) {
                        let q = position_of(before, k);
                        if q < i {
                            assert(self.ids@[q]@ == k);
                        } else {
                            assert(self.ids@[q - 1]@ == k);
                        }
                    }
                }
                assert forall|k: Seq<u8>| holds(self.ids@, k) implies #[trigger] self@[k] == old(
                    self,
                )@.remove(id@)[k] by {
                    let p = position_of(self.ids@, k);
                    let q = position_of(before, k);
                    if p < i {
                        assert(before[p]@ == k);
                        assert(q == p);
                    } else {
                        assert(before[p + 1]@ == k);
                        assert(q == p + 1);
                    }
                }
                assert(self@ =~= old(self)@.remove(id@));
                true
            },
            None => {
                assert(self@ =~= old(self)@.remove(id@));
                false
            },
        }
    }
}

} // verus!
