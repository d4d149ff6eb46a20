//! The servers set: the nodes that hold the shares. The set keeps its nodes in
//! ascending order of their ids, so that the same nodes are always described
//! by the same digest.

use vstd::prelude::*;
use crate::curve;
use crate::types::{NodeId, H256};

verus! {

/// A set of nodes, in ascending order of their ids.
pub struct ServersSet {
    nodes: Vec<NodeId>,
}

/// The bytes of the ids.
pub open spec fn node_views(nodes: Seq<NodeId>) -> Seq<Seq<u8>> {
    Seq::new(nodes.len(), |i: int| nodes[i]@)
}

/// No id occurs twice.
pub open spec fn distinct(ids: Seq<Seq<u8>>) -> bool {
    forall|i: int, j: int| 0 <= i < j < ids.len() ==> ids[i] != ids[j]
}

/// `a` comes before `b` in the order of the ids: at the first byte in which
/// they differ, `a` has the smaller one.
pub open spec fn precedes(a: Seq<u8>, b: Seq<u8>) -> bool {
    exists|k: int| first_difference(a, b, k) && a[k] < b[k]
}

/// `a` and `b` agree before the place `k`, and differ there.
pub open spec fn first_difference(a: Seq<u8>, b: Seq<u8>, k: int) -> bool {
    &&& 0 <= k < a.len()
    &&& k < b.len()
    &&& a[k] != b[k]
    &&& forall|i: int| 0 <= i < k ==> a[i] == b[i]
}

/// The ids ascend.
pub open spec fn ascending(ids: Seq<Seq<u8>>) -> bool {
    forall|i: int, j: int| 0 <= i < j < ids.len() ==> precedes(ids[i], ids[j])
}

/// The ascending ids with one more id in its place, unless it is among them.
pub open spec fn inserted(ids: Seq<Seq<u8>>, id: Seq<u8>) -> Seq<Seq<u8>>
    decreases ids.len(),
{
    if ids.len() == 0 {
        seq![id]
    } else if ids.last() == id {
        ids
    } else if precedes(ids.last(), id) {
        ids.push(id)
    } else {
        inserted(ids.drop_last(), id).push(ids.last())
    }
}

/// Two ids differ first in one place.
pub proof fn lemma_one_first_difference(a: Seq<u8>, b: Seq<u8>, j: int, k: int)
    requires
        first_difference(a, b, j),
        first_difference(a, b, k),
    ensures
        j == k,
{
}

/// No id comes before itself, and of two ids at most one comes before the
/// other.
pub proof fn lemma_precedes_is_strict(a: Seq<u8>, b: Seq<u8>)
    requires
        precedes(a, b),
    ensures
        a != b,
        !precedes(b, a),
{
    let k = choose|k: int| first_difference(a, b, k) && a[k] < b[k];
    if precedes(b, a) {
        let j = choose|j: int| first_difference(b, a, j) && b[j] < a[j];
        assert(first_difference(a, b, j));
        lemma_one_first_difference(a, b, j, k);
    }
}

/// What comes before an id comes before what the id comes before.
pub proof fn lemma_precedes_is_transitive(a: Seq<u8>, b: Seq<u8>, c: Seq<u8>)
    requires
        precedes(a, b),
        precedes(b, c),
    ensures
        precedes(a, c),
{
    let j = choose|j: int| first_difference(a, b, j) && a[j] < b[j];
    let k = choose|k: int| first_difference(b, c, k) && b[k] < c[k];
    if j <= k {
        assert(first_difference(a, c, j) && a[j] < c[j]);
    } else {
        assert(first_difference(a, c, k) && a[k] < c[k]);
    }
}

/// Where the ids before a place come before an id, and the id comes before
/// those from the place on, the id is inserted at the place.
pub proof fn lemma_inserted_at(ids: Seq<Seq<u8>>, id: Seq<u8>, place: int)
    requires
        0 <= place <= ids.len(),
        forall|i: int| 0 <= i < place ==> precedes(#[trigger] ids[i], id),
        forall|i: int| place <= i < ids.len() ==> precedes(id, #[trigger] ids[i]),
    ensures
        inserted(ids, id) == ids.insert(place, id),
    decreases ids.len(),
{
    if ids.len() == 0 {
        assert(ids.insert(place, id) =~= seq![id]);
    } else if place == ids.len() {
        lemma_precedes_is_strict(ids.last(), id);
        assert(ids.insert(place, id) =~= ids.push(id));
    } else {
        lemma_precedes_is_strict(id, ids.last());
        lemma_inserted_at(ids.drop_last(), id, place);
        assert(ids.insert(place, id) =~= ids.drop_last().insert(place, id).push(ids.last()));
    }
}

/// An id that is among ascending ids is not inserted again.
pub proof fn lemma_inserted_again(ids: Seq<Seq<u8>>, id: Seq<u8>, place: int)
    requires
        ascending(ids),
        0 <= place < ids.len(),
        ids[place] == id,
    ensures
        inserted(ids, id) == ids,
    decreases ids.len(),
{
    if place < ids.len() - 1 {
        lemma_precedes_is_strict(id, ids.last());
        let shorter = ids.drop_last();
        assert forall|i: int, j: int| 0 <= i < j < shorter.len() implies precedes(
            shorter[i],
            shorter[j],
        ) by {
            assert(precedes(ids[i], ids[j]));
        }
        lemma_inserted_again(shorter, id, place);
        assert(shorter.push(ids.last()) =~= ids);
    }
}

/// How two ids stand to each other.
#[derive(Clone, Copy, Debug, PartialEq, Eq, Structural)]
pub enum Rank {
    Before,
    Same,
    After,
}

/// Compares two ids.
pub fn rank(a: &NodeId, b: &NodeId) -> (r: Rank)
    ensures
        r == Rank::Before <==> precedes(a@, b@),
        r == Rank::Same <==> a@ == b@,
        r == Rank::After <==> precedes(b@, a@),
{
    let mut i: usize = 0;
    while i < 64
        invariant
            i <= 64,
            forall|k: int| 0 <= k < i ==> a@[k] == b@[k],
        decreases 64 - i,
    {
        if a.bytes[i] < b.bytes[i] {
            assert(first_difference(a@, b@, i as int));
            proof {
                lemma_precedes_is_strict(a@, b@);
            }
            return Rank::Before;
        }
        if a.bytes[i] > b.bytes[i] {
            assert(first_difference(b@, a@, i as int));
            proof {
                lemma_precedes_is_strict(b@, a@);
            }
            return Rank::After;
        }
        i += 1;
    }
    assert(a@ =~= b@);
    Rank::Same
}

/// The ids, one after the other: what is hashed to describe a servers set.
pub open spec fn concatenated(ids: Seq<Seq<u8>>, count: nat) -> Seq<u8>
    decreases count,
{
    if count == 0 {
        Seq::empty()
    } else {
        concatenated(ids, (count - 1) as nat) + ids[count - 1]
    }
}

/// The digest that stands for a servers set in an authorization.
pub open spec fn set_digest(ids: Seq<Seq<u8>>) -> Seq<u8> {
    curve::keccak256(concatenated(ids, ids.len()))
}

/// Hashes the ids of a servers set, in their order.
pub fn hash_nodes(nodes: &Vec<NodeId>) -> (digest: H256)
    ensures
        digest@ == set_digest(node_views(nodes@)),
{
    let mut data: Vec<u8> = Vec::new();
    let mut i: usize = 0;
    while i < nodes.len()
        invariant
            i <= nodes@.len(),
            data@ == concatenated(node_views(nodes@), i as nat),
        decreases nodes@.len() - i,
    {
        let ghost before = data@;
        let mut k: usize = 0;
        while k < 64
            invariant
                k <= 64,
                i < nodes@.len(),
                data@ == before + nodes@[i as int]@.take(k as int),
            decreases 64 - k,
        {
            data.push(nodes[i].bytes[k]);
            assert(data@ =~= before + nodes@[i as int]@.take(k as int + 1));
            k += 1;
        }
        assert(nodes@[i as int]@.take(64) =~= nodes@[i as int]@);
        i += 1;
    }
    curve::keccak(&data)
}

impl View for ServersSet {
    type V = Seq<Seq<u8>>;

    closed spec fn view(&self) -> Seq<Seq<u8>> {
        node_views(self.nodes@)
    }
}

impl ServersSet {
    /// The nodes ascend, so that no node occurs twice.
    pub open spec fn wf(&self) -> bool {
        ascending(self@)
    }

    /// No node occurs twice.
    pub proof fn lemma_distinct(&self)
        requires
            self.wf(),
        ensures
            distinct(self@),
    {
        assert forall|i: int, j: int| 0 <= i < j < self@.len() implies self@[i] != self@[j] by {
            lemma_precedes_is_strict(self@[i], self@[j]);
        }
    }

    /// The empty set.
    pub fn new() -> (set: ServersSet)
        ensures
            set.wf(),
            set@ == Seq::<Seq<u8>>::empty(),
    {
        let set = ServersSet { nodes: Vec::new() };
        assert(set@ =~= Seq::<Seq<u8>>::empty());
        set
    }

    /// The number of nodes.
    pub fn len(&self) -> (n: usize)
        ensures
            n == self@.len(),
    {
        self.nodes.len()
    }

    /// The node at a position.
    pub fn get(&self, position: usize) -> (node: NodeId)
        requires
            position < self@.len(),
        ensures
            node@ == self@[position as int],
    {
        self.nodes[position]
    }

    /// Where the node stands in the set, if it belongs to it.
    pub fn position(&self, node: &NodeId) -> (r: Option<usize>)
        ensures
            r is Some <==> self@.contains(node@),
            r matches Some(p) ==> p < self@.len() && self@[p as int] == node@,
    {
        let mut i: usize = 0;
        while i < self.nodes.len()
            invariant
                i <= self.nodes@.len(),
                forall|k: int| 0 <= k < i ==> self@[k] != node@,
            decreases self.nodes@.len() - i,
        {
            if self.nodes[i].same(node) {
                assert(self@[i as int] == node@);
                return Some(i);
            }
            i += 1;
        }
        None
    }

    /// Whether the node belongs to the set.
    pub fn contains(&self, node: &NodeId) -> (r: bool)
        ensures
            r == self@.contains(node@),
    {
        self.position(node).is_some()
    }

    /// Adds a node in its place, unless it belongs to the set already; says
    /// whether it was added.
    pub fn insert(&mut self, node: NodeId) -> (added: bool)
        requires
            old(self).wf(),
        ensures
            final(self).wf(),
            added == !old(self)@.contains(node@),
            final(self)@ == inserted(old(self)@, node@),
            final(self)@.len() == old(self)@.len() + if added {
                1int
            } else {
                0int
            },
            forall|id: Seq<u8>|
                final(self)@.contains(id) <==> old(self)@.contains(id) || id == node@,
    {
        let ghost before = self@;
        let mut place: usize = 0;
        let mut found = false;
        while place < self.nodes.len() && !found
            invariant
                place <= self.nodes@.len(),
                self@ == before,
                ascending(before),
                forall|i: int| 0 <= i < place ==> precedes(#[trigger] before[i], node@),
                found ==> place < before.len() && precedes(node@, before[place as int]),
            decreases self.nodes@.len() - place + if found {
                0int
            } else {
                1int
            },
        {
            match rank(&self.nodes[place], &node) {
                Rank::Before => {
                    assert(precedes(before[place as int], node@));
                    place += 1;
                },
                Rank::Same => {
                    assert(before[place as int] == node@);
                    proof {
                        lemma_inserted_again(before, node@, place as int);
                    }
                    return false;
                },
                Rank::After => {
                    assert(precedes(node@, before[place as int]));
                    found = true;
                },
            }
        }
        proof {
            assert forall|i: int| place <= i < before.len() implies precedes(
                node@,
                #[trigger] before[i],
            ) by {
                if i > place {
                    lemma_precedes_is_transitive(node@, before[place as int], before[i]);
                }
            }
            lemma_inserted_at(before, node@, place as int);
            assert forall|i: int| 0 <= i < before.len() implies before[i] != node@ by {
                if i < place {
                    lemma_precedes_is_strict(before[i], node@);
                } else {
                    lemma_precedes_is_strict(node@, before[i]);
                }
            }
        }
        self.nodes.insert(place, node);
        proof {
            let after = before.insert(place as int, node@);
            assert(self@ =~= after);
            assert forall|i: int, j: int| 0 <= i < j < after.len() implies precedes(
                after[i],
                after[j],
            ) by {
                if j < place {
                    assert(precedes(before[i], before[j]));
                } else if j == place {
                    assert(precedes(before[i], node@));
                } else if i < place {
                    assert(precedes(before[i], before[j - 1]));
                } else if i == place {
                    assert(precedes(node@, before[j - 1]));
                } else {
                    assert(precedes(before[i - 1], before[j - 1]));
                }
            }
            assert forall|id: Seq<u8>| after.contains(id) <==> before.contains(id) || id
                == node@ by {
                if after.contains(id) {
                    let p = choose|p: int| 0 <= p < after.len() && after[p] == id;
                    if p < place {
                        assert(before[p] == id);
                    } else if p > place {
                        assert(before[p - 1] == id);
                    }
                }
                if before.contains(id) {
                    let p = choose|p: int| 0 <= p < before.len() && before[p] == id;
                    if p < place {
                        assert(after[p] == id);
                    } else {
                        assert(after[p + 1] == id);
                    }
                }
                assert(after[place as int] == node@);
            }
        }
        true
    }

    /// The digest that an authorization of this set signs.
    pub fn digest(&self) -> (digest: H256)
        ensures
            digest@ == set_digest(self@),
    {
        hash_nodes(&self.nodes)
    }
}

} // verus!
