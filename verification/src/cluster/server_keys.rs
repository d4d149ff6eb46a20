//! Generation of server keys in the cluster.

use vstd::prelude::*;
use crate::cluster::Cluster;
use crate::error::Error;
use crate::generation::{
    commitment_outcomes, dealt_views, generated, generation_outcome, round_one, round_two,
    run_generation, share_outcomes, share_views, GeneratedKey, GeneratedModel,
};
use crate::model::{
    generated_from,
    dealing, installed, lemma_installed_is_generated, lemma_rounds_reach, ClusterModel, ServerKey,
};
use crate::quorum::{lemma_valid_positions_bounds, reachable_count, valid_count};
use crate::requester::Requester;
use crate::share_store::ShareRecord;
use crate::sharing::random_polynomial;
use crate::traits::{Served, ServerKeyGenerator};
use crate::types::{Address, Public, Secret, ServerKeyId};

verus! {

impl Cluster {
    /// Leaves the polynomials of the nodes that take part, and none for the
    /// others.
    fn mask_polynomials(&self, polynomials: Vec<Option<Vec<Secret>>>) -> (masked: Vec<
        Option<Vec<Secret>>,
    >)
        ensures
            dealt_views(masked@) == dealing(self@, dealt_views(polynomials@)),
    {
        let mut given = polynomials;
        let mut masked: Vec<Option<Vec<Secret>>> = Vec::new();
        let mut i: usize = 0;
        while i < self.nodes.len()
            invariant
                i <= self.nodes@.len(),
                masked@.len() == i,
                given@.len() == polynomials@.len(),
                forall|k: int|
                    0 <= k < i ==> #[trigger] masked@[k] == (if k < polynomials@.len()
                        && self.nodes@[k].member && self.nodes@[k].online {
                        polynomials@[k]
                    } else {
                        None
                    }),
                forall|k: int| i <= k < given@.len() ==> #[trigger] given@[k] == polynomials@[k],
            decreases self.nodes@.len() - i,
        {
            if i < given.len() && self.nodes[i].member && self.nodes[i].online {
                let taken = given[i].take();
                masked.push(taken);
            } else {
                masked.push(None);
            }
            i += 1;
        }
        assert(dealt_views(masked@) =~= dealing(self@, dealt_views(polynomials@)));
        masked
    }

    /// Draws a polynomial of degree `threshold` for every member that is
    /// online.
    pub(crate) fn sample_polynomials(&self, threshold: usize) -> (polynomials: Vec<Option<Vec<Secret>>>)
        requires
            threshold < usize::MAX,
        ensures
            polynomials@.len() == self@.nodes.len(),
            forall|i: int|
                0 <= i < self@.nodes.len() && self@.nodes[i].member && self@.nodes[i].online
                    ==> (#[trigger] polynomials@[i]) is Some,
    {
        let mut polynomials: Vec<Option<Vec<Secret>>> = Vec::new();
        let mut i: usize = 0;
        while i < self.nodes.len()
            invariant
                i <= self.nodes@.len(),
                threshold < usize::MAX,
                polynomials@.len() == i,
                forall|k: int|
                    0 <= k < i && self.nodes@[k].member && self.nodes@[k].online
                        ==> (#[trigger] polynomials@[k]) is Some,
            decreases self.nodes@.len() - i,
        {
            if self.nodes[i].member && self.nodes[i].online {
                polynomials.push(Some(random_polynomial(threshold)));
            } else {
                polynomials.push(None);
            }
            i += 1;
        }
        polynomials
    }

    /// Hands the nodes their shares of a key that has its entry already.
    fn install_shares(&mut self, key_id: &ServerKeyId, shares: &Vec<Option<Secret>>)
        requires
            old(self).wf(),
            shares@.len() == old(self)@.nodes.len(),
            old(self)@.keys.contains_key(key_id@),
        ensures
            final(self).wf(),
            final(self)@.keys == old(self)@.keys,
            final(self)@.delegates == old(self)@.delegates,
            final(self)@.administrator == old(self)@.administrator,
            final(self)@.nodes.len() == old(self)@.nodes.len(),
            forall|i: int|
                0 <= i < old(self)@.nodes.len() ==> {
                    &&& (#[trigger] final(self)@.nodes[i]).id == old(self)@.nodes[i].id
                    &&& final(self)@.nodes[i].online == old(self)@.nodes[i].online
                    &&& final(self)@.nodes[i].member == old(self)@.nodes[i].member
                    &&& final(self)@.nodes[i].shares == match shares@[i] {
                        Some(share) => old(self)@.nodes[i].shares.insert(
                            key_id@,
                            ShareRecord { number: (i + 1) as u64, share },
                        ),
                        None => old(self)@.nodes[i].shares,
                    }
                },
    {
        let ghost start = self.nodes@;
        let mut j: usize = 0;
        while j < self.nodes.len()
            invariant
                j <= self.nodes@.len(),
                self.wf(),
                start == old(self).nodes@,
                shares@.len() == start.len(),
                self.nodes@.len() == start.len(),
                self.keys == old(self).keys,
                self.delegates == old(self).delegates,
                self.administrator == old(self).administrator,
                self.keys@.contains_key(key_id@),
                forall|i: int|
                    0 <= i < j ==> {
                        &&& (#[trigger] self.nodes@[i]).id == start[i].id
                        &&& self.nodes@[i].online == start[i].online
                        &&& self.nodes@[i].member == start[i].member
                        &&& self.nodes@[i].shares@ == match shares@[i] {
                            Some(share) => start[i].shares@.insert(
                                key_id@,
                                ShareRecord { number: (i + 1) as u64, share },
                            ),
                            None => start[i].shares@,
                        }
                    },
                forall|i: int| j <= i < start.len() ==> #[trigger] self.nodes@[i] == start[i],
            decreases self.nodes@.len() - j,
        {
            match shares[j] {
                Some(share) => {
                    let ghost before = self.nodes@;
                    let ghost registry = self.keys@;
                    self.nodes[j].shares.put(
                        *key_id,
                        ShareRecord { number: (j + 1) as u64, share },
                    );
                    assert(self.nodes@.len() == before.len());
                    assert(forall|i: int|
                        0 <= i < before.len() && i != j ==> self.nodes@[i] == before[i]);
                    assert(self.nodes@[j as int].id == before[j as int].id);
                    assert(self.nodes@[j as int].shares@ == before[j as int].shares@.insert(
                        key_id@,
                        ShareRecord { number: (j + 1) as u64, share },
                    ));
                    assert forall|i: int, key: Seq<u8>|
                        0 <= i < self.nodes@.len() && (#[trigger] self.nodes@[i].shares@.contains_key(
                            key,
                        )) implies registry.contains_key(key) by {
                        if i != j {
                            assert(before[i].shares@.contains_key(key));
                        } else if key != key_id@ {
                            assert(before[i].shares@.contains_key(key));
                        }
                    }
                },
                None => {},
            }
            j += 1;
        }
    }

    /// Decides whether a key may be generated, and runs the generation
    /// among the nodes that take part. Nothing is changed yet.
    pub(crate) fn prepare_generation(
        &self,
        key_id: &ServerKeyId,
        author: &Requester,
        threshold: usize,
        polynomials: Vec<Option<Vec<Secret>>>,
    ) -> (r: Result<(Address, GeneratedKey), Error>)
        requires
            self.wf(),
        ensures
            self@.generation_refusal(
                key_id@,
                author.resolved_address(key_id@),
                threshold as nat,
            ) matches Some(e) ==> (r matches Err(f) && f == e),
            self@.generation_refusal(key_id@, author.resolved_address(key_id@), threshold as nat)
                is None ==> match generation_outcome(
                dealing(self@, dealt_views(polynomials@)),
                threshold as nat,
            ) {
                Ok(generated) => r matches Ok((address, key)) && key@ == generated && Some(
                    address@,
                ) == author.resolved_address(key_id@) && key.shares@.len() == self@.nodes.len(),
                Err(e) => (r matches Err(f) && f == e),
            },
    {
        let members = self.membership_tags();
        proof {
            lemma_valid_positions_bounds(members@, members@.len());
        }
        if threshold >= valid_count(&members) {
            return Err(Error::InvalidThreshold);
        }
        let address = match author.address(key_id) {
            Ok(address) => address,
            Err(e) => {
                return Err(e);
            },
        };
        if self.keys.contains(key_id) {
            return Err(Error::DuplicateKey);
        }
        let participants = self.participation_tags();
        if reachable_count(&participants) <= threshold {
            return Err(Error::InsufficientNodes);
        }
        let masked = self.mask_polynomials(polynomials);
        let key = match run_generation(&masked, threshold) {
            Ok(key) => key,
            Err(e) => {
                return Err(e);
            },
        };
        proof {
            let dealt = dealt_views(masked@);
            let ended = round_two(dealt, threshold as nat, dealt.len() as int);
            assert(generated(ended) == Some(key@));
            assert(key@.shares.len() == share_outcomes(ended).len());
            assert(key.shares@.len() == key@.shares.len());
        }
        Ok((address, key))
    }

    /// Enters a key that was generated: its entry, and the shares of the
    /// nodes that hold one.
    pub(crate) fn install_key(
        &mut self,
        key_id: &ServerKeyId,
        entry: ServerKey,
        shares: &Vec<Option<Secret>>,
    )
        requires
            old(self).wf(),
            shares@.len() == old(self)@.nodes.len(),
            !old(self)@.keys.contains_key(key_id@),
        ensures
            final(self).wf(),
            installed(
                old(self)@,
                final(self)@,
                key_id@,
                entry.author@,
                entry.threshold as nat,
                GeneratedModel { public: entry.public@, shares: share_views(shares@) },
                entry.document_key,
            ),
    {
        let count = self.nodes.len();
        self.keys.put(*key_id, entry);
        assert(self@.nodes =~= old(self)@.nodes);
        assert(self@.delegates =~= old(self)@.delegates);
        let ghost between = self@;
        self.install_shares(key_id, shares);
        proof {
            assert(self@.keys.remove(key_id@) =~= old(self)@.keys.remove(key_id@));
            assert(self@.delegates =~= old(self)@.delegates);
            assert forall|i: int| 0 <= i < old(self)@.nodes.len() implies {
                &&& (#[trigger] self@.nodes[i]).shares.remove(key_id@) == old(
                    self,
                )@.nodes[i].shares.remove(key_id@)
                &&& self@.nodes[i].shares.contains_key(key_id@) <==> share_views(shares@)[i]
                    is Some
                &&& share_views(shares@)[i] matches Some(share)
                    ==> self@.nodes[i].shares[key_id@].number == i + 1
                    && self@.nodes[i].shares[key_id@].share@ == share
            } by {
                assert(i < count);
                assert(between.nodes[i] == old(self)@.nodes[i]);
                assert(!old(self).nodes@[i].shares@.contains_key(key_id@));
                match shares@[i] {
                    Some(share) => {
                        assert(self@.nodes[i].shares.remove(key_id@) =~= old(
                            self,
                        )@.nodes[i].shares.remove(key_id@));
                    },
                    None => {},
                }
            }
        }
    }

    /// Generates a key from polynomials that are given: the node at a position
    /// deals the polynomial at that position, if it is a member of the servers
    /// set and online.
    pub fn generate_key_with(
        &mut self,
        key_id: &ServerKeyId,
        author: &Requester,
        threshold: usize,
        polynomials: Vec<Option<Vec<Secret>>>,
    ) -> (r: Result<Public, Error>)
        requires
            old(self).wf(),
        ensures
            final(self).wf(),
            old(self)@.generation_refusal(
                key_id@,
                author.resolved_address(key_id@),
                threshold as nat,
            ) matches Some(e) ==> r == Err::<Public, Error>(e) && final(self)@ == old(self)@,
            old(self)@.generation_refusal(
                key_id@,
                author.resolved_address(key_id@),
                threshold as nat,
            ) is None ==> match generation_outcome(
                dealing(old(self)@, dealt_views(polynomials@)),
                threshold as nat,
            ) {
                Ok(generated) => r matches Ok(public) && public@ == generated.public && installed(
                    old(self)@,
                    final(self)@,
                    key_id@,
                    author.resolved_address(key_id@)->Some_0,
                    threshold as nat,
                    generated,
                    None,
                ),
                Err(e) => r == Err::<Public, Error>(e) && final(self)@ == old(self)@,
            },
    {
        let (address, key) = match self.prepare_generation(
            key_id,
            author,
            threshold,
            polynomials,
        ) {
            Ok(prepared) => prepared,
            Err(e) => {
                return Err(e);
            },
        };
        let public = key.public;
        self.install_key(
            key_id,
            ServerKey { author: address, threshold, public, document_key: None },
            &key.shares,
        );
        Ok(public)
    }

}

impl Served for Cluster {
    open(crate) spec fn cluster(&self) -> ClusterModel {
        self@
    }

    open(crate) spec fn serving(&self) -> bool {
        self.wf()
    }
}

impl ServerKeyGenerator for Cluster {
    /// Generates a server key: every member of the servers set that is online
    /// deals a random polynomial of degree `threshold`.
    fn generate_key(&mut self, key_id: &ServerKeyId, author: &Requester, threshold: usize) -> (r:
        Result<Public, Error>)
    {
        let polynomials = if threshold < self.nodes.len() {
            self.sample_polynomials(threshold)
        } else {
            Vec::new()
        };
        proof {
            let m = self@;
            let t = threshold as nat;
            lemma_valid_positions_bounds(m.membership(), m.nodes.len());
            if m.generation_refusal(key_id@, author.resolved_address(key_id@), t) is None {
                lemma_rounds_reach(m, dealt_views(polynomials@), t);
                lemma_valid_positions_bounds(
                    commitment_outcomes(
                        round_one(dealing(m, dealt_views(polynomials@)), t, m.nodes.len() as int),
                    ),
                    m.nodes.len(),
                );
            }
        }
        let r = self.generate_key_with(key_id, author, threshold, polynomials);
        proof {
            if r is Ok {
                assert(generated_from(
                    old(self)@,
                    self@,
                    key_id@,
                    author.resolved_address(key_id@)->Some_0,
                    threshold as nat,
                    r->Ok_0@,
                    dealt_views(polynomials@),
                ));
                lemma_installed_is_generated(
                    old(self)@,
                    self@,
                    key_id@,
                    author.resolved_address(key_id@)->Some_0,
                    threshold as nat,
                    dealt_views(polynomials@),
                    generation_outcome(
                        dealing(old(self)@, dealt_views(polynomials@)),
                        threshold as nat,
                    )->Ok_0,
                );
            }
        }
        r
    }

    /// The public point of a server key, for the key's author.
    fn restore_key_public(&self, key_id: &ServerKeyId, author: &Requester) -> (r: Result<
        Public,
        Error,
    >)
    {
        let entry = match self.keys.get(key_id) {
            Some(entry) => entry,
            None => {
                return Err(Error::NotFound);
            },
        };
        if !self.check_author(key_id, &entry, author) {
            return Err(Error::AccessDenied);
        }
        Ok(entry.public)
    }
}

} // verus!
