//! Changing the servers set of the cluster.

use vstd::prelude::*;
use crate::cluster::{Cluster, ClusterNode};
use crate::curve;
use crate::error::Error;
use crate::math::{generation_point, GENERATION_POINT};
use crate::math::secret_views;
use crate::model::{
    cannot_move, key_kept, key_moved, key_settled, membership_changed, migration, moved_by,
    moved_by_resharing, moved_with, no_tails, node_ids, not_moved_by_resharing,
    servers_rearranged, staged, ClusterModel, ServerKey,
};
use crate::quorum::{
    count_reachable, count_valid, lemma_more_timeouts, lemma_reached_are_valid,
    lemma_valid_positions_bounds, lemma_valid_positions_prefix, reachable_count, valid_positions,
    verdict, Outcome,
};
use crate::resharing::reshare;
use crate::servers_set::{set_digest, ServersSet};
use crate::servers_set_change::{ChangeState, ServersSetChangeSession};
use crate::share_store::{Records, ShareRecord};
use crate::sharing::{polynomial_views, random_polynomial};
use crate::traits::{AdminSessionsServer, KeyServer};
use crate::types::{NodeId, RequestSignature, Secret, ServerKeyId};

verus! {

/// The numbers of the nodes that receive a share: those whose tag is valid.
fn receiver_numbers(tags: &Vec<Outcome>) -> (numbers: Vec<u64>)
    ensures
        numbers@.len() == count_valid(tags@),
        forall|k: int|
            0 <= k < numbers@.len() ==> #[trigger] numbers@[k] == valid_positions(
                tags@,
                tags@.len(),
            )[k] + 1,
{
    let mut numbers: Vec<u64> = Vec::new();
    let mut i: usize = 0;
    while i < tags.len()
        invariant
            i <= tags@.len(),
            numbers@.len() == valid_positions(tags@, i as nat).len(),
            forall|k: int|
                0 <= k < numbers@.len() ==> #[trigger] numbers@[k] == valid_positions(
                    tags@,
                    i as nat,
                )[k] + 1,
        decreases tags@.len() - i,
    {
        if tags[i] == Outcome::Valid {
            numbers.push((i + 1) as u64);
        }
        i += 1;
    }
    numbers
}

/// Hands each node whose tag is valid the next of the fresh shares.
fn assign(tags: &Vec<Outcome>, fresh: &Vec<Secret>) -> (assigned: Vec<Option<Secret>>)
    requires
        fresh@.len() == count_valid(tags@),
    ensures
        assigned@.len() == tags@.len(),
        forall|i: int|
            0 <= i < tags@.len() ==> (#[trigger] assigned@[i]) == if tags@[i] == Outcome::Valid {
                Some(fresh@[valid_positions(tags@, i as nat).len() as int])
            } else {
                None
            },
{
    let mut assigned: Vec<Option<Secret>> = Vec::new();
    let mut next: usize = 0;
    let mut i: usize = 0;
    while i < tags.len()
        invariant
            i <= tags@.len(),
            fresh@.len() == count_valid(tags@),
            assigned@.len() == i,
            next <= i,
            next == valid_positions(tags@, i as nat).len(),
            forall|k: int|
                0 <= k < i ==> (#[trigger] assigned@[k]) == if tags@[k] == Outcome::Valid {
                    Some(fresh@[valid_positions(tags@, k as nat).len() as int])
                } else {
                    None
                },
        decreases tags@.len() - i,
    {
        if tags[i] == Outcome::Valid {
            proof {
                lemma_valid_positions_prefix(tags@, (i + 1) as nat, tags@.len());
            }
            assigned.push(Some(fresh[next]));
            next += 1;
        } else {
            assigned.push(None);
        }
        i += 1;
    }
    assigned
}

/// Draws the coefficients that each of `count` members of a quorum deals
/// beyond its weighted share: as many as the threshold.
fn draw_tails(count: usize, threshold: usize) -> (tails: Vec<Vec<Secret>>)
    ensures
        tails@.len() == count,
        forall|i: int| 0 <= i < count ==> (#[trigger] tails@[i])@.len() == threshold,
{
    let mut tails: Vec<Vec<Secret>> = Vec::new();
    let mut i: usize = 0;
    while i < count
        invariant
            i <= count,
            tails@.len() == i,
            forall|k: int| 0 <= k < i ==> (#[trigger] tails@[k])@.len() == threshold,
        decreases count - i,
    {
        if threshold == 0 {
            tails.push(Vec::new());
        } else {
            tails.push(random_polynomial(threshold - 1));
        }
        i += 1;
    }
    tails
}

impl Cluster {
    /// Gives the nodes their shares of a key anew: a node with a share
    /// assigned keeps it under its number, and any other node keeps none.
    fn replace_shares(&mut self, key_id: &ServerKeyId, assigned: &Vec<Option<Secret>>)
        requires
            old(self).wf(),
            assigned@.len() == old(self)@.nodes.len(),
            old(self)@.keys.contains_key(key_id@),
        ensures
            final(self).wf(),
            final(self).keys == old(self).keys,
            final(self)@.keys == old(self)@.keys,
            final(self)@.delegates == old(self)@.delegates,
            final(self)@.administrator == old(self)@.administrator,
            final(self)@.nodes.len() == old(self)@.nodes.len(),
            forall|i: int|
                0 <= i < old(self)@.nodes.len() ==> {
                    &&& (#[trigger] final(self)@.nodes[i]).id == old(self)@.nodes[i].id
                    &&& final(self)@.nodes[i].online == old(self)@.nodes[i].online
                    &&& final(self)@.nodes[i].member == old(self)@.nodes[i].member
                    &&& final(self)@.nodes[i].shares == match assigned@[i] {
                        Some(share) => old(self)@.nodes[i].shares.insert(
                            key_id@,
                            ShareRecord { number: (i + 1) as u64, share },
                        ),
                        None => old(self)@.nodes[i].shares.remove(key_id@),
                    }
                },
    {
        let ghost start = self.nodes@;
        let mut j: usize = 0;
        while j < self.nodes.len()
            invariant
                j <= self.nodes@.len(),
                self.wf(),
                start == old(self).nodes@,
                assigned@.len() == start.len(),
                self.nodes@.len() == start.len(),
                self.keys == old(self).keys,
                self.delegates == old(self).delegates,
                self.administrator == old(self).administrator,
                self.keys@.contains_key(key_id@),
                forall|i: int|
                    0 <= i < j ==> {
                        &&& (#[trigger] self.nodes@[i]).id == start[i].id
                        &&& self.nodes@[i].online == start[i].online
                        &&& self.nodes@[i].member == start[i].member
                        &&& self.nodes@[i].shares@ == match assigned@[i] {
                            Some(share) => start[i].shares@.insert(
                                key_id@,
                                ShareRecord { number: (i + 1) as u64, share },
                            ),
                            None => start[i].shares@.remove(key_id@),
                        }
                    },
                forall|i: int| j <= i < start.len() ==> #[trigger] self.nodes@[i] == start[i],
            decreases self.nodes@.len() - j,
        {
            let ghost before = self.nodes@;
            let ghost registry = self.keys@;
            match assigned[j] {
                Some(share) => {
                    self.nodes[j].shares.put(
                        *key_id,
                        ShareRecord { number: (j + 1) as u64, share },
                    );
                },
                None => {
                    self.nodes[j].shares.delete(key_id);
                },
            }
            assert(self.nodes@.len() == before.len());
            assert(forall|i: int| 0 <= i < before.len() && i != j ==> self.nodes@[i] == before[i]);
            assert(self.nodes@[j as int].id == before[j as int].id);
            assert forall|i: int, key: Seq<u8>|
                0 <= i < self.nodes@.len() && (#[trigger] self.nodes@[i].shares@.contains_key(
                    key,
                )) implies registry.contains_key(key) by {
                if i != j {
                    assert(before[i].shares@.contains_key(key));
                } else if key != key_id@ {
                    assert(before[i].shares@.contains_key(key));
                }
            }
            j += 1;
        }
    }

    /// Moves a key to the members of the servers set that are online, and
    /// says whether it did. A key that is not moved is left as it was. The
    /// members of the key's quorum draw the coefficients that they deal; with
    /// a threshold of zero there is nothing to draw.
    pub(crate) fn migrate_key(&mut self, key_id: &ServerKeyId, entry: &ServerKey) -> (moved: bool)
        requires
            old(self).wf(),
            old(self)@.keys.contains_key(key_id@),
            old(self)@.keys[key_id@] == *entry,
        ensures
            final(self).wf(),
            final(self).keys == old(self).keys,
            final(self)@.keys == old(self)@.keys,
            final(self)@.delegates == old(self)@.delegates,
            final(self)@.administrator == old(self)@.administrator,
            final(self)@.nodes.len() == old(self)@.nodes.len(),
            forall|i: int|
                0 <= i < old(self)@.nodes.len() ==> {
                    &&& (#[trigger] final(self)@.nodes[i]).id == old(self)@.nodes[i].id
                    &&& final(self)@.nodes[i].online == old(self)@.nodes[i].online
                    &&& final(self)@.nodes[i].member == old(self)@.nodes[i].member
                    &&& final(self)@.nodes[i].shares.remove(key_id@) == old(
                        self,
                    )@.nodes[i].shares.remove(key_id@)
                },
            moved ==> key_moved(final(self)@, key_id@),
            moved ==> moved_by_resharing(old(self)@, final(self)@, key_id@),
            !moved ==> not_moved_by_resharing(old(self)@, key_id@),
            !moved ==> forall|i: int|
                0 <= i < old(self)@.nodes.len() ==> (#[trigger] final(self)@.nodes[i]).shares
                    == old(self)@.nodes[i].shares,
            count_reachable(old(self)@.availability(key_id@)) <= entry.threshold
                || count_reachable(old(self)@.participation()) <= entry.threshold ==> !moved,
            entry.threshold == 0 ==> moved == (migration(old(self)@, key_id@, no_tails()) is Some),
    {
        proof {
            self@.lemma_answers_reach(key_id@, GENERATION_POINT@);
            lemma_valid_positions_bounds(
                self@.availability(key_id@),
                self@.availability(key_id@).len(),
            );
        }
        let nodes = self.nodes.len();
        let count = match entry.threshold.checked_add(1) {
            Some(count) => count,
            None => {
                proof {
                    lemma_valid_positions_bounds(self@.participation(), self@.nodes.len());
                    assert(migration(self@, key_id@, Seq::empty()) is None);
                }
                return false;
            },
        };
        let tails = draw_tails(count, entry.threshold);
        proof {
            if entry.threshold == 0 {
                assert(secret_views(tails@[0]@) =~= Seq::<Seq<u8>>::empty());
                assert(polynomial_views(tails@) =~= no_tails());
            }
        }
        let moved = self.migrate_key_with(key_id, entry, &tails);
        proof {
            if moved {
                assert(moved_by(old(self)@, self@, key_id@, polynomial_views(tails@)));
            } else {
                assert(migration(old(self)@, key_id@, polynomial_views(tails@)) is None);
            }
        }
        moved
    }

    /// Moves a key to the members of the servers set that are online, with
    /// the coefficients that the members of the key's quorum deal beyond
    /// their weighted shares given, and says whether it did. The key is moved
    /// exactly where the resharing gives fresh shares; then each receiver
    /// keeps its fresh share under its number, and no other node keeps a share
    /// of the key. A key that is not moved is left as it was.
    pub(crate) fn migrate_key_with(
        &mut self,
        key_id: &ServerKeyId,
        entry: &ServerKey,
        tails: &Vec<Vec<Secret>>,
    ) -> (moved: bool)
        requires
            old(self).wf(),
            old(self)@.keys.contains_key(key_id@),
            old(self)@.keys[key_id@] == *entry,
        ensures
            final(self).wf(),
            final(self).keys == old(self).keys,
            final(self)@.keys == old(self)@.keys,
            final(self)@.delegates == old(self)@.delegates,
            final(self)@.administrator == old(self)@.administrator,
            final(self)@.nodes.len() == old(self)@.nodes.len(),
            forall|i: int|
                0 <= i < old(self)@.nodes.len() ==> {
                    &&& (#[trigger] final(self)@.nodes[i]).id == old(self)@.nodes[i].id
                    &&& final(self)@.nodes[i].online == old(self)@.nodes[i].online
                    &&& final(self)@.nodes[i].member == old(self)@.nodes[i].member
                    &&& final(self)@.nodes[i].shares.remove(key_id@) == old(
                        self,
                    )@.nodes[i].shares.remove(key_id@)
                },
            moved == (migration(old(self)@, key_id@, polynomial_views(tails@)) is Some),
            moved ==> moved_with(
                old(self)@,
                final(self)@,
                key_id@,
                migration(old(self)@, key_id@, polynomial_views(tails@))->Some_0,
            ),
            !moved ==> forall|i: int|
                0 <= i < old(self)@.nodes.len() ==> (#[trigger] final(self)@.nodes[i]).shares
                    == old(self)@.nodes[i].shares,
    {
        let (numbers, shares) = match self.quorum_records(
            key_id,
            entry.threshold,
            &generation_point(),
        ) {
            Some(records) => records,
            None => {
                return false;
            },
        };
        let tags = self.participation_tags();
        if reachable_count(&tags) <= entry.threshold {
            return false;
        }
        proof {
            lemma_reached_are_valid(tags@, tags@.len());
            lemma_valid_positions_bounds(tags@, tags@.len());
        }
        let count = tags.len();
        let receivers = receiver_numbers(&tags);
        assert(receivers@ =~= crate::model::receivers(self@));
        let fresh = match reshare(&entry.public, &numbers, &shares, tails, &receivers) {
            Some(fresh) => fresh,
            None => {
                return false;
            },
        };
        let assigned = assign(&tags, &fresh);
        self.replace_shares(key_id, &assigned);
        proof {
            assert forall|i: int| 0 <= i < old(self)@.nodes.len() implies (
            #[trigger] self@.nodes[i]).shares.remove(key_id@) == old(
                self,
            )@.nodes[i].shares.remove(key_id@) by {
                assert(self@.nodes[i].shares.remove(key_id@) =~= old(
                    self,
                )@.nodes[i].shares.remove(key_id@));
            }
            assert forall|i: int| 0 <= i < self@.nodes.len() implies {
                &&& (#[trigger] self@.nodes[i]).shares.contains_key(key_id@)
                    <==> self@.nodes[i].member && self@.nodes[i].online
                &&& self@.nodes[i].shares.contains_key(key_id@)
                    ==> self@.nodes[i].shares[key_id@].number == i + 1
                    && self@.nodes[i].shares[key_id@].share@ == secret_views(
                    fresh@,
                )[valid_positions(old(self)@.participation(), i as nat).len() as int]
            } by {
                assert(i < count);
                assert(tags@[i] == old(self)@.participation()[i]);
                if tags@[i] == Outcome::Valid {
                    lemma_valid_positions_prefix(tags@, (i + 1) as nat, tags@.len());
                }
            }
        }
        true
    }
}

/// How far the keys are done with: the first `done` of them are moved or
/// kept and reported, the others are as they were; nothing else has changed.
pub open spec fn progress(
    mid: ClusterModel,
    now: ClusterModel,
    ids: Seq<Seq<u8>>,
    done: int,
    failed: Seq<Seq<u8>>,
) -> bool {
    &&& now.keys == mid.keys
    &&& now.delegates == mid.delegates
    &&& now.administrator == mid.administrator
    &&& now.nodes.len() == mid.nodes.len()
    &&& forall|i: int|
        0 <= i < mid.nodes.len() ==> (#[trigger] now.nodes[i]).id == mid.nodes[i].id
            && now.nodes[i].online == mid.nodes[i].online && now.nodes[i].member
            == mid.nodes[i].member
    &&& forall|key: Seq<u8>| #[trigger]
        failed.contains(key) ==> exists|j: int| 0 <= j < done && ids[j] == key
    &&& forall|j: int|
        0 <= j < done ==> if failed.contains(#[trigger] ids[j]) {
            key_kept(mid, now, ids[j])
        } else {
            key_moved(now, ids[j])
        }
    &&& forall|j: int| done <= j < ids.len() ==> key_kept(mid, now, #[trigger] ids[j])
    &&& forall|j: int|
        0 <= j < done && cannot_move(mid, mid, #[trigger] ids[j]) ==> failed.contains(ids[j])
}

/// One more key is done with.
proof fn lemma_progress_step(
    mid: ClusterModel,
    now: ClusterModel,
    next: ClusterModel,
    ids: Seq<Seq<u8>>,
    done: int,
    failed: Seq<Seq<u8>>,
    moved: bool,
)
    requires
        0 <= done < ids.len(),
        forall|i: int, j: int| 0 <= i < j < ids.len() ==> ids[i] != ids[j],
        progress(mid, now, ids, done, failed),
        next.keys == now.keys,
        next.delegates == now.delegates,
        next.administrator == now.administrator,
        next.nodes.len() == now.nodes.len(),
        forall|i: int|
            0 <= i < now.nodes.len() ==> {
                &&& (#[trigger] next.nodes[i]).id == now.nodes[i].id
                &&& next.nodes[i].online == now.nodes[i].online
                &&& next.nodes[i].member == now.nodes[i].member
                &&& next.nodes[i].shares.remove(ids[done]) == now.nodes[i].shares.remove(
                    ids[done],
                )
            },
        moved ==> key_moved(next, ids[done]),
        !moved ==> forall|i: int|
            0 <= i < now.nodes.len() ==> (#[trigger] next.nodes[i]).shares == now.nodes[i].shares,
        count_reachable(now.availability(ids[done])) <= mid.keys[ids[done]].threshold
            || count_reachable(now.participation()) <= mid.keys[ids[done]].threshold ==> !moved,
    ensures
        progress(
            mid,
            next,
            ids,
            done + 1,
            if moved {
                failed
            } else {
                failed.push(ids[done])
            },
        ),
{
    let key = ids[done];
    let after = if moved {
        failed
    } else {
        failed.push(key)
    };
    assert(!failed.contains(key)) by {
        if failed.contains(key) {
            let j = choose|j: int| 0 <= j < done && ids[j] == key;
            assert(ids[j] != ids[done]);
        }
    }
    assert forall|other: Seq<u8>| #[trigger] after.contains(other) implies exists|j: int|
        0 <= j < done + 1 && ids[j] == other by {
        if failed.contains(other) {
            let j = choose|j: int| 0 <= j < done && ids[j] == other;
            assert(0 <= j < done + 1 && ids[j] == other);
        } else {
            assert(!moved);
            let p = choose|p: int| 0 <= p < after.len() && after[p] == other;
            assert(p == failed.len());
            assert(ids[done] == other);
        }
    }
    // the shares under the other keys are untouched
    assert forall|j: int, i: int| 0 <= j < ids.len() && j != done && 0 <= i < now.nodes.len() implies (
    #[trigger] next.nodes[i]).shares.contains_key(#[trigger] ids[j])
        == now.nodes[i].shares.contains_key(ids[j]) && (now.nodes[i].shares.contains_key(ids[j])
        ==> next.nodes[i].shares[ids[j]] == now.nodes[i].shares[ids[j]]) by {
        assert(ids[j] != key);
        let a = next.nodes[i].shares.remove(key);
        let b = now.nodes[i].shares.remove(key);
        assert(a.contains_key(ids[j]) == next.nodes[i].shares.contains_key(ids[j]));
        assert(b.contains_key(ids[j]) == now.nodes[i].shares.contains_key(ids[j]));
        if now.nodes[i].shares.contains_key(ids[j]) {
            assert(a[ids[j]] == next.nodes[i].shares[ids[j]]);
            assert(b[ids[j]] == now.nodes[i].shares[ids[j]]);
        }
    }
    assert forall|j: int| 0 <= j < done + 1 implies if after.contains(#[trigger] ids[j]) {
        key_kept(mid, next, ids[j])
    } else {
        key_moved(next, ids[j])
    } by {
        if j == done {
            if moved {
                assert(after == failed);
            } else {
                assert(after[failed.len() as int] == key);
                assert(key_kept(mid, now, ids[done]));
                assert forall|i: int| 0 <= i < next.nodes.len() implies (
                #[trigger] next.nodes[i]).shares == now.nodes[i].shares by {}
            }
        } else {
            assert(after.contains(ids[j]) == failed.contains(ids[j])) by {
                if after.contains(ids[j]) && !failed.contains(ids[j]) {
                    let p = choose|p: int| 0 <= p < after.len() && after[p] == ids[j];
                    assert(p == failed.len());
                }
                if failed.contains(ids[j]) {
                    let p = choose|p: int| 0 <= p < failed.len() && failed[p] == ids[j];
                    assert(after[p] == ids[j]);
                }
            }
            if failed.contains(ids[j]) {
                assert(key_kept(mid, now, ids[j]));
                assert forall|i: int| 0 <= i < next.nodes.len() implies (
                #[trigger] next.nodes[i]).shares.contains_key(ids[j])
                    == now.nodes[i].shares.contains_key(ids[j]) by {}
            } else {
                assert(key_moved(now, ids[j]));
                assert forall|i: int| 0 <= i < next.nodes.len() implies (
                #[trigger] next.nodes[i]).shares.contains_key(ids[j])
                    == now.nodes[i].shares.contains_key(ids[j]) by {}
            }
        }
    }
    assert forall|j: int| done + 1 <= j < ids.len() implies key_kept(
        mid,
        next,
        #[trigger] ids[j],
    ) by {
        assert(key_kept(mid, now, ids[j]));
        assert forall|i: int| 0 <= i < next.nodes.len() implies (
        #[trigger] next.nodes[i]).shares.contains_key(ids[j])
            == now.nodes[i].shares.contains_key(ids[j]) by {}
    }
    assert forall|j: int|
        0 <= j < done + 1 && cannot_move(mid, mid, #[trigger] ids[j]) implies after.contains(
        ids[j],
    ) by {
        if j == done {
            assert(key_kept(mid, now, key));
            assert(now.availability(key) =~= mid.availability(key));
            assert(now.participation() =~= mid.participation());
            assert(!moved);
            assert(after[failed.len() as int] == key);
        } else {
            let p = choose|p: int| 0 <= p < failed.len() && failed[p] == ids[j];
            assert(after[p] == ids[j]);
        }
    }
}

/// Once every key is done with, the servers set is changed.
proof fn lemma_progress_ends(
    before: ClusterModel,
    mid: ClusterModel,
    after: ClusterModel,
    new_servers_set: Seq<Seq<u8>>,
    ids: Seq<Seq<u8>>,
    failed: Seq<Seq<u8>>,
)
    requires
        membership_changed(before, mid, new_servers_set),
        forall|i: int|
            0 <= i < mid.nodes.len() ==> (#[trigger] mid.nodes[i]).shares == if i
                < before.nodes.len() {
                before.nodes[i].shares
            } else {
                Map::empty()
            },
        forall|key: Seq<u8>| before.keys.contains_key(key) <==> ids.contains(key),
        progress(mid, after, ids, ids.len() as int, failed),
    ensures
        servers_rearranged(before, after, new_servers_set, failed),
{
    assert(after.participation() =~= mid.participation());
    assert forall|i: int| 0 <= i < after.nodes.len() implies (#[trigger] after.nodes[i]).member
        == new_servers_set.contains(after.nodes[i].id) by {
        assert(mid.nodes[i].member == new_servers_set.contains(mid.nodes[i].id));
    }
    assert forall|i: int| before.nodes.len() <= i < after.nodes.len() implies (
    #[trigger] after.nodes[i]).online && !node_ids(before).contains(after.nodes[i].id) by {
        assert(mid.nodes[i].online);
    }
    assert forall|j: int| 0 <= j < new_servers_set.len() implies node_ids(after).contains(
        #[trigger] new_servers_set[j],
    ) by {
        assert(node_ids(mid).contains(new_servers_set[j]));
        let p = choose|p: int| 0 <= p < node_ids(mid).len() && node_ids(mid)[p] == new_servers_set[j];
        assert(node_ids(after)[p] == new_servers_set[j]);
    }
    assert forall|i: int| 0 <= i < before.nodes.len() implies (#[trigger] after.nodes[i]).id
        == before.nodes[i].id && after.nodes[i].online == before.nodes[i].online by {
        assert(mid.nodes[i].id == before.nodes[i].id);
    }
    assert forall|key: Seq<u8>| #[trigger] before.keys.contains_key(key) implies if failed.contains(
        key,
    ) {
        key_kept(before, after, key)
    } else {
        key_moved(after, key)
    } by {
        assert(ids.contains(key));
        let j = choose|j: int| 0 <= j < ids.len() && ids[j] == key;
        if failed.contains(ids[j]) {
            assert(key_kept(mid, after, ids[j]));
            assert forall|i: int| 0 <= i < after.nodes.len() implies if i < before.nodes.len() {
                &&& (#[trigger] after.nodes[i]).shares.contains_key(key)
                    == before.nodes[i].shares.contains_key(key)
                &&& after.nodes[i].shares.contains_key(key) ==> after.nodes[i].shares[key]
                    == before.nodes[i].shares[key]
            } else {
                !(#[trigger] after.nodes[i]).shares.contains_key(key)
            } by {
                assert(mid.nodes[i].shares == if i < before.nodes.len() {
                    before.nodes[i].shares
                } else {
                    Map::empty()
                });
            }
        }
    }
    assert forall|key: Seq<u8>| #[trigger] failed.contains(key) implies before.keys.contains_key(
        key,
    ) by {
        let j = choose|j: int| 0 <= j < ids.len() as int && ids[j] == key;
        assert(ids.contains(key));
    }
    assert forall|key: Seq<u8>| #[trigger]
        before.keys.contains_key(key) && cannot_move(before, after, key) implies failed.contains(
        key,
    ) by {
        assert(ids.contains(key));
        let j = choose|j: int| 0 <= j < ids.len() && ids[j] == key;
        let short = before.availability(key);
        let long = mid.availability(key);
        assert forall|i: int| 0 <= i < short.len() implies (short[i] == Outcome::Timeout
            <==> long[i] == Outcome::Timeout) by {
            assert(mid.nodes[i].online == before.nodes[i].online);
            assert(mid.nodes[i].shares == before.nodes[i].shares);
        }
        assert forall|i: int| short.len() <= i < long.len() implies long[i]
            == Outcome::Timeout by {
            assert(mid.nodes[i].shares == Map::<Seq<u8>, ShareRecord>::empty());
        }
        lemma_more_timeouts(short, long, long.len());
        assert(cannot_move(mid, mid, ids[j]));
    }
}

/// How the first `done` keys came out.
pub open spec fn settled(
    mid: ClusterModel,
    now: ClusterModel,
    ids: Seq<Seq<u8>>,
    done: int,
    failed: Seq<Seq<u8>>,
) -> bool {
    forall|j: int|
        0 <= j < done ==> key_settled(mid, now, #[trigger] ids[j], failed.contains(ids[j]))
}

/// Two clusters in which the same nodes are online and members, and hold the
/// same shares of a key, move the key alike.
proof fn lemma_migration_alike(a: ClusterModel, b: ClusterModel, key: Seq<u8>, tails: Seq<
    Seq<Seq<u8>>,
>)
    requires
        a.keys == b.keys,
        a.nodes.len() == b.nodes.len(),
        forall|i: int|
            0 <= i < a.nodes.len() ==> (#[trigger] b.nodes[i]).online == a.nodes[i].online
                && b.nodes[i].member == a.nodes[i].member,
        key_kept(a, b, key),
    ensures
        migration(a, key, tails) == migration(b, key, tails),
        a.participation() == b.participation(),
{
    let probe = GENERATION_POINT@;
    let degree = a.keys[key].threshold as nat;
    assert(a.participation() =~= b.participation());
    assert forall|i: int| 0 <= i < a.nodes.len() implies a.answers(key, probe)[i] == b.answers(
        key,
        probe,
    )[i] by {
        assert(b.nodes[i].online == a.nodes[i].online);
        assert(b.nodes[i].shares.contains_key(key) == a.nodes[i].shares.contains_key(key));
    }
    assert(a.answers(key, probe) =~= b.answers(key, probe));
    let answers = a.answers(key, probe);
    let quorum = a.quorum(key, degree, probe);
    lemma_valid_positions_bounds(answers, answers.len());
    if verdict(answers, degree) is Ok {
        let valid = valid_positions(answers, answers.len());
        assert(valid.len() > degree);
        assert(quorum.len() == degree + 1);
        assert forall|k: int| 0 <= k < quorum.len() implies a.nodes[
            #[trigger] quorum[k]].shares[key] == b.nodes[quorum[k]].shares[key] by {
            let p = quorum[k];
            assert(p == valid[k]);
            assert(answers[p] == Outcome::Valid);
            assert(a.nodes[p].shares.contains_key(key));
            assert(b.nodes[p].shares.contains_key(key));
        }
        assert(a.quorum_numbers(key, degree, probe) =~= b.quorum_numbers(key, degree, probe));
        assert(a.quorum_shares(key, degree, probe) =~= b.quorum_shares(key, degree, probe));
    }
    assert(crate::model::receivers(a) =~= crate::model::receivers(b));
}

/// One more key has come out.
proof fn lemma_settled_step(
    mid: ClusterModel,
    now: ClusterModel,
    next: ClusterModel,
    ids: Seq<Seq<u8>>,
    done: int,
    failed: Seq<Seq<u8>>,
    moved: bool,
)
    requires
        0 <= done < ids.len(),
        forall|i: int, j: int| 0 <= i < j < ids.len() ==> ids[i] != ids[j],
        progress(mid, now, ids, done, failed),
        settled(mid, now, ids, done, failed),
        progress(
            mid,
            next,
            ids,
            done + 1,
            if moved {
                failed
            } else {
                failed.push(ids[done])
            },
        ),
        forall|i: int|
            0 <= i < now.nodes.len() ==> (#[trigger] next.nodes[i]).shares.remove(ids[done])
                == now.nodes[i].shares.remove(ids[done]),
        moved ==> moved_by_resharing(now, next, ids[done]),
        !moved ==> not_moved_by_resharing(now, ids[done]),
        mid.keys[ids[done]].threshold == 0 ==> moved == (migration(now, ids[done], no_tails())
            is Some),
    ensures
        settled(
            mid,
            next,
            ids,
            done + 1,
            if moved {
                failed
            } else {
                failed.push(ids[done])
            },
        ),
{
    let key = ids[done];
    let after = if moved {
        failed
    } else {
        failed.push(key)
    };
    assert(!failed.contains(key)) by {
        if failed.contains(key) {
            let j = choose|j: int| 0 <= j < done && ids[j] == key;
            assert(ids[j] != ids[done]);
        }
    }
    assert(key_kept(mid, now, ids[done]));
    assert forall|tails: Seq<Seq<Seq<u8>>>| migration(mid, key, tails) == #[trigger] migration(
        now,
        key,
        tails,
    ) by {
        lemma_migration_alike(mid, now, key, tails);
    }
    lemma_migration_alike(mid, now, key, no_tails());
    assert forall|j: int| 0 <= j < done + 1 implies key_settled(
        mid,
        next,
        #[trigger] ids[j],
        after.contains(ids[j]),
    ) by {
        if j == done {
            if moved {
                assert(after == failed);
                let tails = choose|tails: Seq<Seq<Seq<u8>>>| moved_by(now, next, key, tails);
                assert(migration(mid, key, tails) == migration(now, key, tails));
                assert(moved_by(mid, next, key, tails));
            } else {
                assert(after[failed.len() as int] == key);
                let tails = choose|tails: Seq<Seq<Seq<u8>>>|
                    (#[trigger] migration(now, key, tails)) is None;
                assert(migration(mid, key, tails) is None);
            }
        } else {
            let other = ids[j];
            assert(other != key);
            assert(after.contains(other) == failed.contains(other)) by {
                if after.contains(other) && !failed.contains(other) {
                    let p = choose|p: int| 0 <= p < after.len() && after[p] == other;
                    assert(p == failed.len());
                }
                if failed.contains(other) {
                    let p = choose|p: int| 0 <= p < failed.len() && failed[p] == other;
                    assert(after[p] == other);
                }
            }
            assert(key_settled(mid, now, ids[j], failed.contains(ids[j])));
            if !failed.contains(other) {
                let tails = choose|tails: Seq<Seq<Seq<u8>>>| moved_by(mid, now, other, tails);
                let fresh = migration(mid, other, tails)->Some_0;
                assert(key_moved(next, ids[j]));
                assert forall|i: int|
                    0 <= i < next.nodes.len() && (#[trigger] next.nodes[i]).shares.contains_key(
                        other,
                    ) implies next.nodes[i].shares[other].share@ == fresh[valid_positions(
                    mid.participation(),
                    i as nat,
                ).len() as int] by {
                    let a = next.nodes[i].shares.remove(key);
                    let b = now.nodes[i].shares.remove(key);
                    assert(a.contains_key(other));
                    assert(b.contains_key(other));
                    assert(a[other] == next.nodes[i].shares[other]);
                    assert(b[other] == now.nodes[i].shares[other]);
                    assert(now.nodes[i].shares.contains_key(other));
                }
                assert(moved_by(mid, next, other, tails));
            }
        }
    }
}

/// Once every key has come out, each has come out of the cluster as it stood
/// when the membership was changed.
proof fn lemma_settled_ends(
    before: ClusterModel,
    mid: ClusterModel,
    after: ClusterModel,
    ids: Seq<Seq<u8>>,
    failed: Seq<Seq<u8>>,
)
    requires
        forall|i: int|
            0 <= i < mid.nodes.len() ==> (#[trigger] mid.nodes[i]).shares == if i
                < before.nodes.len() {
                before.nodes[i].shares
            } else {
                Map::empty()
            },
        forall|key: Seq<u8>| before.keys.contains_key(key) <==> ids.contains(key),
        progress(mid, after, ids, ids.len() as int, failed),
        settled(mid, after, ids, ids.len() as int, failed),
    ensures
        mid == staged(before, after),
        forall|key: Seq<u8>| #[trigger]
            before.keys.contains_key(key) ==> key_settled(
                staged(before, after),
                after,
                key,
                failed.contains(key),
            ),
{
    assert(mid.nodes =~= staged(before, after).nodes);
    assert forall|key: Seq<u8>| #[trigger] before.keys.contains_key(key) implies key_settled(
        mid,
        after,
        key,
        failed.contains(key),
    ) by {
        assert(ids.contains(key));
        let j = choose|j: int| 0 <= j < ids.len() && ids[j] == key;
        assert(key_settled(mid, after, ids[j], failed.contains(ids[j])));
    }
}

impl Cluster {
    /// The servers set: the members among the nodes.
    fn current_servers(&self) -> (servers: ServersSet)
        ensures
            servers.wf(),
            servers@ == self@.servers(),
    {
        let mut servers = ServersSet::new();
        let mut i: usize = 0;
        while i < self.nodes.len()
            invariant
                i <= self.nodes@.len(),
                servers.wf(),
                servers@ == self@.servers_upto(i as nat),
            decreases self.nodes@.len() - i,
        {
            if self.nodes[i].member {
                servers.insert(self.nodes[i].id);
            }
            i += 1;
        }
        servers
    }

    /// Whether both signatures are the administrator's: the one over the
    /// servers set as it is, the other over the set as it is to be.
    fn check_authorization(
        &self,
        old_set_signature: &RequestSignature,
        new_set_signature: &RequestSignature,
        new_servers_set: &ServersSet,
    ) -> (r: (bool, bool))
        ensures
            r.0 == (curve::recovered_public(old_set_signature@, set_digest(self@.servers()))
                == Some(self@.administrator)),
            r.1 == (curve::recovered_public(new_set_signature@, set_digest(new_servers_set@))
                == Some(self@.administrator)),
    {
        let current = self.current_servers().digest();
        let old_set_good = match curve::recover(old_set_signature, &current) {
            Some(signer) => signer.same(&self.administrator),
            None => false,
        };
        let proposed = new_servers_set.digest();
        let new_set_good = match curve::recover(new_set_signature, &proposed) {
            Some(signer) => signer.same(&self.administrator),
            None => false,
        };
        (old_set_good, new_set_good)
    }

    /// Whether a node with the id is known.
    fn knows(&self, id: &NodeId) -> (r: bool)
        ensures
            r == node_ids(self@).contains(id@),
    {
        let mut i: usize = 0;
        while i < self.nodes.len()
            invariant
                i <= self.nodes@.len(),
                forall|k: int| 0 <= k < i ==> node_ids(self@)[k] != id@,
            decreases self.nodes@.len() - i,
        {
            if self.nodes[i].id.same(id) {
                assert(node_ids(self@)[i as int] == id@);
                return true;
            }
            i += 1;
        }
        false
    }

    /// Makes the nodes of the new set the members, and lets those of them
    /// that are not known join.
    fn change_membership(&mut self, new_servers_set: &ServersSet)
        requires
            old(self).wf(),
        ensures
            final(self).wf(),
            final(self).keys == old(self).keys,
            membership_changed(old(self)@, final(self)@, new_servers_set@),
            forall|i: int|
                0 <= i < final(self)@.nodes.len() ==> (#[trigger] final(self)@.nodes[i]).shares
                    == if i < old(self)@.nodes.len() {
                    old(self)@.nodes[i].shares
                } else {
                    Map::empty()
                },
    {
        let known = self.nodes.len();
        let mut i: usize = 0;
        while i < known
            invariant
                i <= known,
                known == old(self).nodes@.len(),
                self.nodes@.len() == known,
                self.wf(),
                self.keys == old(self).keys,
                self.delegates == old(self).delegates,
                self.administrator == old(self).administrator,
                forall|k: int|
                    0 <= k < known ==> (#[trigger] self.nodes@[k]).id == old(self).nodes@[k].id
                        && self.nodes@[k].online == old(self).nodes@[k].online
                        && self.nodes@[k].shares == old(self).nodes@[k].shares,
                forall|k: int|
                    0 <= k < i ==> (#[trigger] self.nodes@[k]).member == new_servers_set@.contains(
                        self.nodes@[k].id@,
                    ),
            decreases known - i,
        {
            let member = new_servers_set.contains(&self.nodes[i].id);
            let ghost before = self.nodes@;
            self.nodes[i].member = member;
            assert(forall|k: int| 0 <= k < known && k != i ==> self.nodes@[k] == before[k]);
            i += 1;
        }
        let mut j: usize = 0;
        while j < new_servers_set.len()
            invariant
                j <= new_servers_set@.len(),
                known == old(self).nodes@.len(),
                known <= self.nodes@.len(),
                self.wf(),
                self.keys == old(self).keys,
                self.delegates == old(self).delegates,
                self.administrator == old(self).administrator,
                forall|k: int|
                    0 <= k < known ==> (#[trigger] self.nodes@[k]).id == old(self).nodes@[k].id
                        && self.nodes@[k].online == old(self).nodes@[k].online
                        && self.nodes@[k].shares == old(self).nodes@[k].shares,
                forall|k: int|
                    0 <= k < self.nodes@.len() ==> (#[trigger] self.nodes@[k]).member
                        == new_servers_set@.contains(self.nodes@[k].id@),
                forall|k: int|
                    known <= k < self.nodes@.len() ==> (#[trigger] self.nodes@[k]).online
                        && self.nodes@[k].shares@ == Map::<Seq<u8>, ShareRecord>::empty()
                        && !node_ids(old(self)@).contains(self.nodes@[k].id@),
                forall|k: int|
                    0 <= k < j ==> node_ids(self@).contains(#[trigger] new_servers_set@[k]),
            decreases new_servers_set@.len() - j,
        {
            let id = new_servers_set.get(j);
            let ghost before = self@;
            if !self.knows(&id) {
                assert(!node_ids(old(self)@).contains(id@)) by {
                    if node_ids(old(self)@).contains(id@) {
                        let p = choose|p: int|
                            0 <= p < node_ids(old(self)@).len() && node_ids(old(self)@)[p] == id@;
                        assert(node_ids(self@)[p] == id@);
                    }
                }
                self.nodes.push(
                    ClusterNode { id, online: true, member: true, shares: Records::new() },
                );
                assert(node_ids(self@)[self.nodes@.len() - 1] == id@);
            }
            assert forall|k: int| 0 <= k < j + 1 implies node_ids(self@).contains(
                #[trigger] new_servers_set@[k],
            ) by {
                if k < j {
                    assert(node_ids(before).contains(new_servers_set@[k]));
                    let p = choose|p: int|
                        0 <= p < node_ids(before).len() && node_ids(before)[p]
                            == new_servers_set@[k];
                    assert(node_ids(self@)[p] == new_servers_set@[k]);
                } else if node_ids(before).contains(id@) {
                    let p = choose|p: int|
                        0 <= p < node_ids(before).len() && node_ids(before)[p] == id@;
                    assert(node_ids(self@)[p] == id@);
                }
            }
            j += 1;
        }
        assert(self@.delegates =~= old(self)@.delegates);
    }

}

impl AdminSessionsServer for Cluster {
    /// Changes the servers set. The change is authorized by the
    /// administrator's signatures over the set as it is and over the set as
    /// it is to be; without them nothing is changed. Then the nodes of the new
    /// set become the members, and every key is moved to those of them that
    /// are online. A key that cannot be moved stays with its old holders, and
    /// is reported.
    fn change_servers_set(
        &mut self,
        old_set_signature: RequestSignature,
        new_set_signature: RequestSignature,
        new_servers_set: &ServersSet,
    ) -> (r: Result<(), Error>)
    {
        let total = self.keys.len();
        let mut session = ServersSetChangeSession::new(total);
        session.start();
        let (old_set_good, new_set_good) = self.check_authorization(
            &old_set_signature,
            &new_set_signature,
            new_servers_set,
        );
        session.on_verified(old_set_good, new_set_good);
        if session.state() == ChangeState::Rejected {
            return Err(Error::BadSignature);
        }
        self.change_membership(new_servers_set);
        let ghost mid = self@;
        let ghost ids = self.keys.ids();
        proof {
            self.keys.lemma_ids();
        }
        let mut done: usize = 0;
        while done < total
            invariant
                done <= total,
                total == ids.len(),
                ids == self.keys.ids(),
                self.keys == old(self).keys,
                self.wf(),
                forall|i: int, j: int| 0 <= i < j < ids.len() ==> ids[i] != ids[j],
                forall|key: Seq<u8>| self.keys@.contains_key(key) <==> ids.contains(key),
                progress(mid, self@, ids, done as int, session@.failed),
                settled(mid, self@, ids, done as int, session@.failed),
                session@.state == (if done == total {
                    ChangeState::Completed
                } else {
                    ChangeState::Migrating
                }),
                session@.waiting == total - done,
                !session@.timed_out,
            decreases total - done,
        {
            let key_id = self.keys.id_at(done);
            assert(ids.contains(ids[done as int]));
            let ghost now = self@;
            let ghost failed = session@.failed;
            match self.keys.get(&key_id) {
                Some(entry) => {
                    let moved = self.migrate_key(&key_id, &entry);
                    session.on_key_done(key_id, moved);
                    proof {
                        lemma_progress_step(mid, now, self@, ids, done as int, failed, moved);
                        lemma_settled_step(mid, now, self@, ids, done as int, failed, moved);
                    }
                },
                None => {
                    assert(false);
                },
            }
            done += 1;
        }
        proof {
            lemma_progress_ends(
                old(self)@,
                mid,
                self@,
                new_servers_set@,
                ids,
                session@.failed,
            );
            lemma_settled_ends(old(self)@, mid, self@, ids, session@.failed);
        }
        match session.into_result() {
            Some(r) => r,
            None => {
                assert(false);
                Err(Error::NetworkTimeout)
            },
        }
    }
}

impl KeyServer for Cluster {

}

} // verus!
