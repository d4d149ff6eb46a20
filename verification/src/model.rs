//! The cluster as the contracts see it, and what the cluster decides before
//! any arithmetic is done: which request is refused, and with which failure.

use vstd::prelude::*;
use crate::curve;
use crate::document_key::{collective, restored, DocumentKey};
use crate::ecdsa::ecdsa_signature;
use crate::signing::{schnorr_signature, schnorr_valid};
use crate::math::GENERATION_POINT;
use crate::resharing::reshared;
use crate::error::Error;
use crate::generation::{
    commitment_outcomes, generation_outcome, round_one, round_two, share_outcomes, GeneratedModel,
};
use crate::quorum::{
    count_reachable, count_valid, lemma_reached_are_valid, lemma_same_reachability,
    lemma_same_validity, quorum_of, valid_positions, verdict, Outcome,
};
use crate::servers_set::{inserted, set_digest};
use crate::share_store::ShareRecord;
use crate::types::{Address, Public};

verus! {

/// What every node knows of a server key. The author and the threshold are
/// fixed when the key is generated.
#[derive(Clone, Copy, Debug, PartialEq, Eq)]
pub struct ServerKey {
    pub author: Address,
    pub threshold: usize,
    /// The key's public point.
    pub public: Public,
    /// The document key stored under the server key, once there is one.
    pub document_key: Option<DocumentKey>,
}

/// The signing schemes.
#[derive(Clone, Copy, Debug, PartialEq, Eq, Structural)]
pub enum Scheme {
    Schnorr,
    Ecdsa,
}

/// One node of the cluster.
pub struct NodeModel {
    pub id: Seq<u8>,
    /// Whether the node answers.
    pub online: bool,
    /// Whether the node belongs to the servers set.
    pub member: bool,
    /// The shares that the node keeps, by key id.
    pub shares: Map<Seq<u8>, ShareRecord>,
}

/// The cluster: its nodes in the order in which they joined, the keys that it
/// serves, the access list, and the administrator's public key.
pub struct ClusterModel {
    pub nodes: Seq<NodeModel>,
    pub keys: Map<Seq<u8>, ServerKey>,
    /// Pairs of a key id and an address that may use the key beside its author.
    pub delegates: Seq<(Seq<u8>, Seq<u8>)>,
    pub administrator: Seq<u8>,
}

impl ClusterModel {
    /// The tags of the nodes in a round among the servers set: a member that
    /// is online answers.
    pub open spec fn participation(self) -> Seq<Outcome> {
        Seq::new(
            self.nodes.len(),
            |i: int|
                if self.nodes[i].member && self.nodes[i].online {
                    Outcome::Valid
                } else {
                    Outcome::Timeout
                },
        )
    }

    /// The tags of the nodes in a round among the holders of a key's shares.
    pub open spec fn availability(self, key: Seq<u8>) -> Seq<Outcome> {
        Seq::new(
            self.nodes.len(),
            |i: int|
                if self.nodes[i].online && self.nodes[i].shares.contains_key(key) {
                    Outcome::Valid
                } else {
                    Outcome::Timeout
                },
        )
    }

    /// The tags that tell the members of the servers set from the other nodes.
    pub open spec fn membership(self) -> Seq<Outcome> {
        Seq::new(
            self.nodes.len(),
            |i: int|
                if self.nodes[i].member {
                    Outcome::Valid
                } else {
                    Outcome::Timeout
                },
        )
    }

    /// The size of the servers set.
    pub open spec fn members(self) -> nat {
        count_valid(self.membership())
    }

    /// Whether the address is that of the key's author.
    pub open spec fn is_author(self, key: Seq<u8>, address: Option<Seq<u8>>) -> bool {
        address matches Some(a) && self.keys.contains_key(key) && self.keys[key].author@ == a
    }

    /// Whether the address may use the key: as its author, or by the access
    /// list.
    pub open spec fn may_access(self, key: Seq<u8>, address: Option<Seq<u8>>) -> bool {
        self.is_author(key, address) || (address matches Some(a) && self.delegates.contains(
            (key, a),
        ))
    }

    /// Why a key cannot be generated, if it cannot: the threshold must be less
    /// than the size of the servers set, the author must resolve to an
    /// address, the id must be free, and more members than the threshold must
    /// be online.
    pub open spec fn generation_refusal(
        self,
        key: Seq<u8>,
        author: Option<Seq<u8>>,
        threshold: nat,
    ) -> Option<Error> {
        if threshold >= self.members() {
            Some(Error::InvalidThreshold)
        } else if author is None {
            Some(Error::BadSignature)
        } else if self.keys.contains_key(key) {
            Some(Error::DuplicateKey)
        } else if count_reachable(self.participation()) <= threshold {
            Some(Error::InsufficientNodes)
        } else {
            None
        }
    }

    /// What a request for a key's public point gets: the point, for the key's
    /// author. No session is run, so the answer does not depend on which nodes
    /// are online.
    pub open spec fn public_of(self, key: Seq<u8>, author: Option<Seq<u8>>) -> Result<
        Seq<u8>,
        Error,
    > {
        if !self.keys.contains_key(key) {
            Err(Error::NotFound)
        } else if !self.is_author(key, author) {
            Err(Error::AccessDenied)
        } else {
            Ok(self.keys[key].public@)
        }
    }

    /// Why a document key cannot be stored, if it cannot: the server key must
    /// exist, the caller must be its author, no document key may be stored
    /// under it yet, and more holders of its shares than the threshold must
    /// be online.
    pub open spec fn store_refusal(self, key: Seq<u8>, author: Option<Seq<u8>>) -> Option<Error> {
        if !self.keys.contains_key(key) {
            Some(Error::NotFound)
        } else if !self.is_author(key, author) {
            Some(Error::AccessDenied)
        } else if self.keys[key].document_key is Some {
            Some(Error::DuplicateKey)
        } else if count_reachable(self.availability(key)) <= self.keys[key].threshold {
            Some(Error::InsufficientNodes)
        } else {
            None
        }
    }

    /// Why a document key cannot be restored, if it cannot: the server key
    /// must exist, the requester must be allowed to use it, a document key
    /// must be stored under it, and more holders than the threshold must be
    /// online. Whoever may not use the key is denied, whether a document key
    /// is stored or not.
    pub open spec fn restore_refusal(self, key: Seq<u8>, requester: Option<Seq<u8>>) -> Option<
        Error,
    > {
        if !self.keys.contains_key(key) {
            Some(Error::NotFound)
        } else if !self.may_access(key, requester) {
            Some(Error::AccessDenied)
        } else if self.keys[key].document_key is None {
            Some(Error::NotFound)
        } else if count_reachable(self.availability(key)) <= self.keys[key].threshold {
            Some(Error::InsufficientNodes)
        } else {
            None
        }
    }

    /// How many nodes have to take part in a signature: one more than the
    /// threshold for Schnorr, one more than twice the threshold for ECDSA,
    /// whose shares of the signature lie on a polynomial of twice the degree.
    pub open spec fn signers(threshold: nat, scheme: Scheme) -> nat {
        match scheme {
            Scheme::Schnorr => threshold + 1,
            Scheme::Ecdsa => 2 * threshold + 1,
        }
    }

    /// Why a message cannot be signed, if it cannot: the requester's proof
    /// must resolve, the key must exist, the requester must be allowed to use
    /// it, the key's holders must be as many as the scheme needs, and as many
    /// must be online.
    pub open spec fn signing_refusal(
        self,
        key: Seq<u8>,
        requester: Option<Seq<u8>>,
        scheme: Scheme,
    ) -> Option<Error> {
        if requester is None {
            Some(Error::BadSignature)
        } else if !self.keys.contains_key(key) {
            Some(Error::NotFound)
        } else if !self.may_access(key, requester) {
            Some(Error::AccessDenied)
        } else if count_reachable(self.availability(key)) <= self.keys[key].threshold {
            Some(Error::InsufficientNodes)
        } else if self.holders(key) < Self::signers(self.keys[key].threshold as nat, scheme) {
            Some(Error::InvalidThreshold)
        } else if count_reachable(self.availability(key)) < Self::signers(
            self.keys[key].threshold as nat,
            scheme,
        ) {
            Some(Error::InsufficientNodes)
        } else {
            None
        }
    }

    /// The tags of the nodes' answers in a round among the holders of a
    /// key's shares. A holder that is online answers with the point `probe`
    /// times its share; where the curve has no such point, the answer is
    /// inconsistent.
    pub open spec fn answers(self, key: Seq<u8>, probe: Seq<u8>) -> Seq<Outcome> {
        Seq::new(
            self.nodes.len(),
            |i: int|
                if self.nodes[i].online && self.nodes[i].shares.contains_key(key) {
                    if curve::point_mul(probe, self.nodes[i].shares[key].share@) is Some {
                        Outcome::Valid
                    } else {
                        Outcome::Inconsistent
                    }
                } else {
                    Outcome::Timeout
                },
        )
    }

    /// The nodes that take part in a computation with a key: the first of
    /// its holders that answered validly, one more than `degree`.
    pub open spec fn quorum(self, key: Seq<u8>, degree: nat, probe: Seq<u8>) -> Seq<int> {
        quorum_of(self.answers(key, probe), degree)
    }

    /// The numbers under which the nodes of the quorum keep their shares.
    pub open spec fn quorum_numbers(self, key: Seq<u8>, degree: nat, probe: Seq<u8>) -> Seq<u64> {
        Seq::new(
            self.quorum(key, degree, probe).len(),
            |k: int| self.nodes[self.quorum(key, degree, probe)[k]].shares[key].number,
        )
    }

    /// The shares of the nodes of the quorum.
    pub open spec fn quorum_shares(self, key: Seq<u8>, degree: nat, probe: Seq<u8>) -> Seq<
        Seq<u8>,
    > {
        Seq::new(
            self.quorum(key, degree, probe).len(),
            |k: int| self.nodes[self.quorum(key, degree, probe)[k]].shares[key].share@,
        )
    }

    /// The document key that is restored, where it is: the holders that are
    /// online answer with the common point times their shares; a holder whose
    /// answer is inconsistent is left out, and the quorum is taken from the
    /// others, if they are enough; the quorum's partial decryptions are added
    /// to the encrypted point.
    pub open spec fn document_key(self, key: Seq<u8>) -> Option<Seq<u8>> {
        let stored = self.keys[key].document_key->Some_0;
        let threshold = self.keys[key].threshold as nat;
        match verdict(self.answers(key, stored.common_point@), threshold) {
            Err(_) => None,
            Ok(()) => restored(
                stored,
                self.quorum_numbers(key, threshold, stored.common_point@),
                self.quorum_shares(key, threshold, stored.common_point@),
                None,
            ),
        }
    }

    /// What a shadow decryption leaves of the document key, where it leaves
    /// anything: as the document key is restored, but with every member of
    /// the quorum blinding its partial decryption, the first member by the
    /// first of the blindings, and so on.
    pub open spec fn shadow_secret(self, key: Seq<u8>, blindings: Seq<Seq<u8>>) -> Option<
        Seq<u8>,
    > {
        let stored = self.keys[key].document_key->Some_0;
        let threshold = self.keys[key].threshold as nat;
        match verdict(self.answers(key, stored.common_point@), threshold) {
            Err(_) => None,
            Ok(()) => restored(
                stored,
                self.quorum_numbers(key, threshold, stored.common_point@),
                self.quorum_shares(key, threshold, stored.common_point@),
                Some(blindings),
            ),
        }
    }

    /// As many holders answer, validly or not, as are online.
    pub proof fn lemma_answers_reach(self, key: Seq<u8>, probe: Seq<u8>)
        ensures
            count_reachable(self.answers(key, probe)) == count_reachable(self.availability(key)),
    {
        lemma_same_reachability(
            self.answers(key, probe),
            self.availability(key),
            self.nodes.len(),
        );
    }

    /// The ids of the members among the first `upto` nodes, in ascending
    /// order.
    pub open spec fn servers_upto(self, upto: nat) -> Seq<Seq<u8>>
        decreases upto,
    {
        if upto == 0 {
            Seq::empty()
        } else if self.nodes[upto - 1].member {
            inserted(self.servers_upto((upto - 1) as nat), self.nodes[upto - 1].id)
        } else {
            self.servers_upto((upto - 1) as nat)
        }
    }

    /// The servers set.
    pub open spec fn servers(self) -> Seq<Seq<u8>> {
        self.servers_upto(self.nodes.len())
    }

    /// A change of the servers set is authorized by two signatures of the
    /// administrator: one over the set as it is, one over the set as it is
    /// to be.
    pub open spec fn change_authorized(
        self,
        old_set_signature: Seq<u8>,
        new_set_signature: Seq<u8>,
        new_servers_set: Seq<Seq<u8>>,
    ) -> bool {
        &&& curve::recovered_public(old_set_signature, set_digest(self.servers())) == Some(
            self.administrator,
        )
        &&& curve::recovered_public(new_set_signature, set_digest(new_servers_set)) == Some(
            self.administrator,
        )
    }

    /// The cluster with the key's entry as it was before a document key was
    /// stored under it.
    pub open spec fn without_document_key(self, key: Seq<u8>) -> ClusterModel {
        ClusterModel {
            keys: self.keys.insert(key, ServerKey { document_key: None, ..self.keys[key] }),
            ..self
        }
    }

    /// The Schnorr signature that a key's signers make of a message with the
    /// given nonces, where they make one: the signers are the first of the
    /// key's holders that answer validly with the base point times their
    /// shares, the first signer has the first nonce, and so on; a signature
    /// that is not valid is not released.
    pub open spec fn schnorr_signed_with(
        self,
        key: Seq<u8>,
        message: Seq<u8>,
        nonces: Seq<Seq<u8>>,
    ) -> Option<(Seq<u8>, Seq<u8>)> {
        let degree = self.keys[key].threshold as nat;
        let public = self.keys[key].public@;
        match verdict(self.answers(key, GENERATION_POINT@), degree) {
            Err(_) => None,
            Ok(()) => match schnorr_signature(
                public,
                message,
                self.quorum_numbers(key, degree, GENERATION_POINT@),
                self.quorum_shares(key, degree, GENERATION_POINT@),
                nonces,
            ) {
                None => None,
                Some(pair) => if schnorr_valid(public, message, pair.0, pair.1) {
                    Some(pair)
                } else {
                    None
                },
            },
        }
    }

    /// The ECDSA signature that a key's signers make of a message, each of
    /// them dealing one of the given polynomials for the nonce and one for
    /// the mask, where they make one; it recovers the key's public point.
    pub open spec fn ecdsa_signed_with(
        self,
        key: Seq<u8>,
        message: Seq<u8>,
        nonce_polynomials: Seq<Seq<Seq<u8>>>,
        mask_polynomials: Seq<Seq<Seq<u8>>>,
    ) -> Option<Seq<u8>> {
        let degree = 2 * (self.keys[key].threshold as nat);
        match verdict(self.answers(key, GENERATION_POINT@), degree) {
            Err(_) => None,
            Ok(()) => ecdsa_signature(
                self.keys[key].public@,
                message,
                self.quorum_numbers(key, degree, GENERATION_POINT@),
                self.quorum_shares(key, degree, GENERATION_POINT@),
                nonce_polynomials,
                mask_polynomials,
            ),
        }
    }

    /// The tags that tell the holders of a key's shares from the other nodes.
    pub open spec fn holding(self, key: Seq<u8>) -> Seq<Outcome> {
        Seq::new(
            self.nodes.len(),
            |i: int|
                if self.nodes[i].shares.contains_key(key) {
                    Outcome::Valid
                } else {
                    Outcome::Timeout
                },
        )
    }

    /// How many nodes hold a share of the key.
    pub open spec fn holders(self, key: Seq<u8>) -> nat {
        count_valid(self.holding(key))
    }
}

/// The cluster once a document key is stored under a server key: the key's
/// entry holds the pair, and nothing else has changed.
pub open spec fn stored(before: ClusterModel, key: Seq<u8>, document_key: DocumentKey)
    -> ClusterModel {
    ClusterModel {
        keys: before.keys.insert(
            key,
            ServerKey { document_key: Some(document_key), ..before.keys[key] },
        ),
        ..before
    }
}

/// The cluster once a key is generated: the key has its entry, with the
/// document key that was made with it, if one was; the nodes with a share keep
/// it under their number; nothing else has changed.
pub open spec fn installed(
    before: ClusterModel,
    after: ClusterModel,
    key: Seq<u8>,
    author: Seq<u8>,
    threshold: nat,
    generated: GeneratedModel,
    document_key: Option<DocumentKey>,
) -> bool {
    &&& after.keys.contains_key(key)
    &&& after.keys.remove(key) == before.keys.remove(key)
    &&& after.keys[key].author@ == author
    &&& after.keys[key].threshold == threshold
    &&& after.keys[key].public@ == generated.public
    &&& after.keys[key].document_key == document_key
    &&& after.delegates == before.delegates
    &&& after.administrator == before.administrator
    &&& after.nodes.len() == before.nodes.len()
    &&& forall|i: int|
        0 <= i < before.nodes.len() ==> {
            &&& (#[trigger] after.nodes[i]).id == before.nodes[i].id
            &&& after.nodes[i].online == before.nodes[i].online
            &&& after.nodes[i].member == before.nodes[i].member
            &&& after.nodes[i].shares.remove(key) == before.nodes[i].shares.remove(key)
            &&& after.nodes[i].shares.contains_key(key) <==> generated.shares[i] is Some
            &&& generated.shares[i] matches Some(share) ==> after.nodes[i].shares[key].number == i
                + 1 && after.nodes[i].shares[key].share@ == share
        }
}

/// What a successful generation leaves, whatever the nodes dealt: the key has
/// its entry, without a document key; only nodes of the servers set that were
/// online hold a share, each under its number; more of them than the
/// threshold are online; nothing else has changed.
pub open spec fn key_generated(
    before: ClusterModel,
    after: ClusterModel,
    key: Seq<u8>,
    author: Seq<u8>,
    threshold: nat,
    public: Seq<u8>,
) -> bool {
    &&& after.keys.contains_key(key)
    &&& after.keys.remove(key) == before.keys
    &&& after.keys[key].author@ == author
    &&& after.keys[key].threshold == threshold
    &&& after.keys[key].public@ == public
    &&& after.keys[key].document_key is None
    &&& after.delegates == before.delegates
    &&& after.administrator == before.administrator
    &&& after.nodes.len() == before.nodes.len()
    &&& forall|i: int|
        0 <= i < before.nodes.len() ==> {
            &&& (#[trigger] after.nodes[i]).id == before.nodes[i].id
            &&& after.nodes[i].online == before.nodes[i].online
            &&& after.nodes[i].member == before.nodes[i].member
            &&& after.nodes[i].shares.remove(key) == before.nodes[i].shares
            &&& after.nodes[i].shares.contains_key(key) ==> before.nodes[i].member
                && before.nodes[i].online && after.nodes[i].shares[key].number == i + 1
        }
    &&& count_reachable(after.availability(key)) > threshold
}

/// The key was generated by the members that were online dealing the given
/// polynomials: the generation ended well, with the public point, and the
/// key is entered with the shares that the generation gave.
pub open spec fn generated_from(
    before: ClusterModel,
    after: ClusterModel,
    key: Seq<u8>,
    author: Seq<u8>,
    threshold: nat,
    public: Seq<u8>,
    polynomials: Seq<Option<Seq<Seq<u8>>>>,
) -> bool {
    generation_outcome(dealing(before, polynomials), threshold) matches Ok(generated)
        && generated.public == public && installed(
        before,
        after,
        key,
        author,
        threshold,
        generated,
        None,
    )
}

/// The decrypted secret of a shadow decryption is what the key's quorum
/// restores under the given blindings, one for each member.
pub open spec fn shadowed_by(
    m: ClusterModel,
    key: Seq<u8>,
    decrypted_secret: Seq<u8>,
    blindings: Seq<Seq<u8>>,
) -> bool {
    let stored = m.keys[key].document_key->Some_0;
    let threshold = m.keys[key].threshold as nat;
    &&& blindings.len() == threshold + 1
    &&& restored(
        stored,
        m.quorum_numbers(key, threshold, stored.common_point@),
        m.quorum_shares(key, threshold, stored.common_point@),
        Some(blindings),
    ) == Some(decrypted_secret)
}

/// The key was generated with its document key from the given values: the
/// members that were online dealt the polynomials, the contributors gave the
/// parts of the document key and of the blinding; the generation ended well,
/// the document key was made and blinded under the key's public point, and
/// the key is entered with the shares that the generation gave and with the
/// blinded pair.
pub open spec fn document_key_generated_from(
    before: ClusterModel,
    after: ClusterModel,
    key: Seq<u8>,
    author: Seq<u8>,
    threshold: nat,
    polynomials: Seq<Option<Seq<Seq<u8>>>>,
    document_parts: Seq<Seq<u8>>,
    blinding_parts: Seq<Seq<u8>>,
) -> bool {
    match generation_outcome(dealing(before, polynomials), threshold) {
        Err(_) => false,
        Ok(generated) => match collective(document_parts, blinding_parts, generated.public) {
            None => false,
            Some(made) => {
                let stored = after.keys[key].document_key;
                &&& stored is Some
                &&& stored->Some_0.common_point@ == made.1
                &&& stored->Some_0.encrypted_point@ == made.2
                &&& installed(before, after, key, author, threshold, generated, stored)
            },
        },
    }
}

/// The key was generated with its document key from some values.
pub open spec fn document_key_generated_by_dealing(
    before: ClusterModel,
    after: ClusterModel,
    key: Seq<u8>,
    author: Seq<u8>,
    threshold: nat,
) -> bool {
    exists|
        polynomials: Seq<Option<Seq<Seq<u8>>>>,
        document_parts: Seq<Seq<u8>>,
        blinding_parts: Seq<Seq<u8>>,
    |
        document_key_generated_from(
            before,
            after,
            key,
            author,
            threshold,
            polynomials,
            document_parts,
            blinding_parts,
        )
}

/// The key's signers made a valid Schnorr signature of the message, with
/// some nonces.
pub open spec fn schnorr_signed(m: ClusterModel, key: Seq<u8>, message: Seq<u8>) -> bool {
    exists|nonces: Seq<Seq<u8>>| (#[trigger] m.schnorr_signed_with(key, message, nonces)) is Some
}

/// The key's signers made an ECDSA signature of the message that recovers
/// the key's public point, dealing some polynomials.
pub open spec fn ecdsa_signed(m: ClusterModel, key: Seq<u8>, message: Seq<u8>) -> bool {
    exists|nonce_polynomials: Seq<Seq<Seq<u8>>>, mask_polynomials: Seq<Seq<Seq<u8>>>|
        (#[trigger] m.ecdsa_signed_with(key, message, nonce_polynomials, mask_polynomials))
            is Some
}

/// The key was generated by the members that were online dealing some
/// polynomials.
pub open spec fn generated_by_dealing(
    before: ClusterModel,
    after: ClusterModel,
    key: Seq<u8>,
    author: Seq<u8>,
    threshold: nat,
    public: Seq<u8>,
) -> bool {
    exists|polynomials: Seq<Option<Seq<Seq<u8>>>>|
        generated_from(before, after, key, author, threshold, public, polynomials)
}

/// The decrypted secret of a shadow decryption is what the key's quorum
/// restores under some blindings, one for each member.
pub open spec fn shadowed(m: ClusterModel, key: Seq<u8>, decrypted_secret: Seq<u8>) -> bool {
    exists|blindings: Seq<Seq<u8>>| shadowed_by(m, key, decrypted_secret, blindings)
}

/// What a successful generation of a key with its document key leaves: what
/// the generation of the key leaves, and a document key under the key.
pub open spec fn document_key_generated(
    before: ClusterModel,
    after: ClusterModel,
    key: Seq<u8>,
    author: Seq<u8>,
    threshold: nat,
) -> bool {
    &&& after.keys.contains_key(key)
    &&& after.keys[key].document_key is Some
    &&& key_generated(
        before,
        after.without_document_key(key),
        key,
        author,
        threshold,
        after.keys[key].public@,
    )
}

/// The polynomials that count in a generation: those of the members of the
/// servers set that are online.
pub open spec fn dealing(m: ClusterModel, polynomials: Seq<Option<Seq<Seq<u8>>>>) -> Seq<
    Option<Seq<Seq<u8>>>,
> {
    Seq::new(
        m.nodes.len(),
        |i: int|
            if i < polynomials.len() && m.nodes[i].member && m.nodes[i].online {
                polynomials[i]
            } else {
                None
            },
    )
}

/// Where every member that is online deals, both rounds of a generation
/// reach as many nodes as are members and online.
pub proof fn lemma_rounds_reach(m: ClusterModel, polynomials: Seq<Option<Seq<Seq<u8>>>>, t: nat)
    requires
        forall|i: int|
            0 <= i < m.nodes.len() && m.nodes[i].member && m.nodes[i].online ==> i
                < polynomials.len() && (#[trigger] polynomials[i]) is Some,
    ensures
        count_reachable(
            commitment_outcomes(round_one(dealing(m, polynomials), t, m.nodes.len() as int)),
        ) == count_reachable(m.participation()),
        count_reachable(
            share_outcomes(round_two(dealing(m, polynomials), t, m.nodes.len() as int)),
        ) == count_reachable(m.participation()),
{
    let d = dealing(m, polynomials);
    let n = m.nodes.len();
    let first = commitment_outcomes(round_one(d, t, n as int));
    let second = share_outcomes(round_two(d, t, n as int));
    assert forall|i: int| 0 <= i < n implies (first[i] == Outcome::Timeout
        <==> m.participation()[i] == Outcome::Timeout) by {
        assert(m.nodes[i].member && m.nodes[i].online ==> polynomials[i] is Some);
    }
    assert forall|i: int| 0 <= i < n implies (second[i] == Outcome::Timeout
        <==> m.participation()[i] == Outcome::Timeout) by {
        assert(m.nodes[i].member && m.nodes[i].online ==> polynomials[i] is Some);
    }
    lemma_same_reachability(first, m.participation(), n);
    lemma_same_reachability(second, m.participation(), n);
}

/// A generation that ends well among nodes that hold no share of the key yet
/// leaves what `key_generated` says.
pub proof fn lemma_installed_is_generated(
    before: ClusterModel,
    after: ClusterModel,
    key: Seq<u8>,
    author: Seq<u8>,
    threshold: nat,
    polynomials: Seq<Option<Seq<Seq<u8>>>>,
    generated: GeneratedModel,
)
    requires
        generation_outcome(dealing(before, polynomials), threshold) == Ok::<
            GeneratedModel,
            Error,
        >(generated),
        installed(before, after, key, author, threshold, generated, None),
        !before.keys.contains_key(key),
        forall|i: int|
            0 <= i < before.nodes.len() ==> !(#[trigger] before.nodes[i]).shares.contains_key(key),
    ensures
        key_generated(before, after, key, author, threshold, generated.public),
{
    let d = dealing(before, polynomials);
    let n = before.nodes.len();
    let second = share_outcomes(round_two(d, threshold, n as int));
    let available = after.availability(key);
    assert(after.keys.remove(key) =~= before.keys);
    assert forall|i: int| 0 <= i < n implies {
        &&& (#[trigger] after.nodes[i]).shares.remove(key) == before.nodes[i].shares
        &&& after.nodes[i].shares.contains_key(key) ==> before.nodes[i].member
            && before.nodes[i].online
        &&& (available[i] == Outcome::Valid <==> second[i] == Outcome::Valid)
        &&& available[i] != Outcome::Inconsistent
    } by {
        assert(before.nodes[i].shares.remove(key) =~= before.nodes[i].shares);
        assert(generated.shares[i] is Some <==> second[i] == Outcome::Valid);
    }
    lemma_same_validity(available, second, n);
    lemma_reached_are_valid(available, n);
}

/// A key that was generated with its document key was generated.
pub proof fn lemma_installed_without_document_key(
    before: ClusterModel,
    after: ClusterModel,
    key: Seq<u8>,
    author: Seq<u8>,
    threshold: nat,
    generated: GeneratedModel,
    document_key: Option<DocumentKey>,
)
    requires
        installed(before, after, key, author, threshold, generated, document_key),
    ensures
        installed(
            before,
            after.without_document_key(key),
            key,
            author,
            threshold,
            generated,
            None,
        ),
{
    let bare = after.without_document_key(key);
    assert(bare.keys.remove(key) =~= after.keys.remove(key));
    assert forall|i: int| 0 <= i < before.nodes.len() implies (#[trigger] bare.nodes[i])
        == after.nodes[i] by {}
}

/// The key's shares are with the members of the servers set that are
/// online, each under its number, and with no other node.
pub open spec fn key_moved(after: ClusterModel, key: Seq<u8>) -> bool {
    forall|i: int|
        0 <= i < after.nodes.len() ==> {
            &&& (#[trigger] after.nodes[i]).shares.contains_key(key) <==> after.nodes[i].member
                && after.nodes[i].online
            &&& after.nodes[i].shares.contains_key(key) ==> after.nodes[i].shares[key].number == i
                + 1
        }
}

/// The key's shares are where they were, and as they were.
pub open spec fn key_kept(before: ClusterModel, after: ClusterModel, key: Seq<u8>) -> bool {
    forall|i: int|
        0 <= i < after.nodes.len() ==> if i < before.nodes.len() {
            &&& (#[trigger] after.nodes[i]).shares.contains_key(key)
                == before.nodes[i].shares.contains_key(key)
            &&& after.nodes[i].shares.contains_key(key) ==> after.nodes[i].shares[key]
                == before.nodes[i].shares[key]
        } else {
            !(#[trigger] after.nodes[i]).shares.contains_key(key)
        }
}

/// The ids of the nodes.
pub open spec fn node_ids(m: ClusterModel) -> Seq<Seq<u8>> {
    Seq::new(m.nodes.len(), |i: int| m.nodes[i].id)
}

/// The servers set is the new one: the nodes that were known are known
/// still, the nodes of the new set that were not known have joined and are
/// online, and the members are the nodes of the new set. The keys' entries
/// and the access list are as they were.
pub open spec fn membership_changed(
    before: ClusterModel,
    after: ClusterModel,
    new_servers_set: Seq<Seq<u8>>,
) -> bool {
    &&& after.keys == before.keys
    &&& after.delegates == before.delegates
    &&& after.administrator == before.administrator
    &&& before.nodes.len() <= after.nodes.len()
    &&& forall|i: int|
        0 <= i < before.nodes.len() ==> (#[trigger] after.nodes[i]).id == before.nodes[i].id
            && after.nodes[i].online == before.nodes[i].online
    &&& forall|i: int|
        before.nodes.len() <= i < after.nodes.len() ==> (#[trigger] after.nodes[i]).online
            && !node_ids(before).contains(after.nodes[i].id)
    &&& forall|i: int|
        0 <= i < after.nodes.len() ==> (#[trigger] after.nodes[i]).member
            == new_servers_set.contains(after.nodes[i].id)
    &&& forall|j: int|
        0 <= j < new_servers_set.len() ==> node_ids(after).contains(#[trigger] new_servers_set[j])
}

/// The numbers of the nodes that receive a share when a key is moved: the
/// members of the servers set that are online, each by its position plus one.
pub open spec fn receivers(m: ClusterModel) -> Seq<u64> {
    let positions = valid_positions(m.participation(), m.nodes.len());
    Seq::new(positions.len(), |k: int| (positions[k] + 1) as u64)
}

/// The fresh shares of a key that is moved, one for each receiver, where the
/// key can be moved: more of its holders than its threshold answer validly,
/// more members of the servers set than its threshold are online, and the
/// quorum of the holders shares the key anew, each member dealing its
/// weighted share and the coefficients in `tails`.
pub open spec fn migration(m: ClusterModel, key: Seq<u8>, tails: Seq<Seq<Seq<u8>>>) -> Option<
    Seq<Seq<u8>>,
> {
    let threshold = m.keys[key].threshold as nat;
    if verdict(m.answers(key, GENERATION_POINT@), threshold) is Err || count_reachable(
        m.participation(),
    ) <= threshold {
        None
    } else {
        reshared(
            m.keys[key].public@,
            m.quorum_numbers(key, threshold, GENERATION_POINT@),
            m.quorum_shares(key, threshold, GENERATION_POINT@),
            tails,
            receivers(m),
        )
    }
}

/// The key is moved, and the receivers hold the fresh shares: the first
/// receiver the first share, and so on in the order of the nodes.
pub open spec fn moved_with(
    before: ClusterModel,
    after: ClusterModel,
    key: Seq<u8>,
    fresh: Seq<Seq<u8>>,
) -> bool {
    &&& key_moved(after, key)
    &&& forall|i: int|
        0 <= i < after.nodes.len() && (#[trigger] after.nodes[i]).shares.contains_key(key)
            ==> after.nodes[i].shares[key].share@ == fresh[valid_positions(
            before.participation(),
            i as nat,
        ).len() as int]
}

/// The key was moved by its quorum dealing the coefficients in `tails`.
pub open spec fn moved_by(
    before: ClusterModel,
    after: ClusterModel,
    key: Seq<u8>,
    tails: Seq<Seq<Seq<u8>>>,
) -> bool {
    migration(before, key, tails) matches Some(fresh) && moved_with(before, after, key, fresh)
}

/// The key was moved by its quorum dealing some coefficients.
pub open spec fn moved_by_resharing(before: ClusterModel, after: ClusterModel, key: Seq<u8>)
    -> bool {
    exists|tails: Seq<Seq<Seq<u8>>>| moved_by(before, after, key, tails)
}

/// The coefficients that the only member of a quorum deals beyond its
/// weighted share where the threshold is zero: none.
pub open spec fn no_tails() -> Seq<Seq<Seq<u8>>> {
    seq![Seq::empty()]
}

/// A key cannot be moved unless more of its holders than its threshold are
/// online, and more members of the new servers set.
pub open spec fn cannot_move(before: ClusterModel, after: ClusterModel, key: Seq<u8>) -> bool {
    count_reachable(before.availability(key)) <= before.keys[key].threshold || count_reachable(
        after.participation(),
    ) <= before.keys[key].threshold
}

/// The key was not moved by its quorum dealing some coefficients: with them
/// the resharing gives no fresh shares.
pub open spec fn not_moved_by_resharing(m: ClusterModel, key: Seq<u8>) -> bool {
    exists|tails: Seq<Seq<Seq<u8>>>| (#[trigger] migration(m, key, tails)) is None
}

/// The cluster as it stands when the membership is changed and no key is
/// moved yet: the nodes are those of `after`, the nodes that were known hold
/// the shares that they held, and the nodes that joined hold none.
pub open spec fn staged(before: ClusterModel, after: ClusterModel) -> ClusterModel {
    ClusterModel {
        nodes: Seq::new(
            after.nodes.len(),
            |i: int|
                NodeModel {
                    shares: if i < before.nodes.len() {
                        before.nodes[i].shares
                    } else {
                        Map::empty()
                    },
                    ..after.nodes[i]
                },
        ),
        ..after
    }
}

/// How a key came out of a change of the servers set, `mid` being the
/// cluster when the membership was changed and no key was moved yet. A key
/// that is not reported was moved by its quorum resharing it. A key that is
/// reported could not be moved with the coefficients that its quorum drew.
/// Where the threshold is zero nothing is drawn, and the key is reported
/// exactly if the resharing gives no fresh shares.
pub open spec fn key_settled(mid: ClusterModel, after: ClusterModel, key: Seq<u8>, failed: bool)
    -> bool {
    &&& !failed ==> moved_by_resharing(mid, after, key)
    &&& failed ==> not_moved_by_resharing(mid, key)
    &&& mid.keys[key].threshold == 0 ==> (failed <==> migration(mid, key, no_tails()) is None)
}

/// What a change of the servers set leaves: the membership is changed; every
/// key is moved by its quorum resharing it among the members that are online,
/// or kept as it was and reported; a key is reported only if it could not be
/// moved.
pub open spec fn servers_changed(
    before: ClusterModel,
    after: ClusterModel,
    new_servers_set: Seq<Seq<u8>>,
    failed: Seq<Seq<u8>>,
) -> bool {
    &&& servers_rearranged(before, after, new_servers_set, failed)
    &&& forall|key: Seq<u8>| #[trigger]
        before.keys.contains_key(key) ==> key_settled(
            staged(before, after),
            after,
            key,
            failed.contains(key),
        )
}

/// The membership is changed; every key is with the members that are
/// online, or kept as it was and reported; a key that cannot be moved is
/// kept.
pub open spec fn servers_rearranged(
    before: ClusterModel,
    after: ClusterModel,
    new_servers_set: Seq<Seq<u8>>,
    failed: Seq<Seq<u8>>,
) -> bool {
    &&& membership_changed(before, after, new_servers_set)
    &&& forall|key: Seq<u8>| #[trigger]
        before.keys.contains_key(key) ==> if failed.contains(key) {
            key_kept(before, after, key)
        } else {
            key_moved(after, key)
        }
    &&& forall|key: Seq<u8>| #[trigger] failed.contains(key) ==> before.keys.contains_key(key)
    &&& forall|key: Seq<u8>| #[trigger]
        before.keys.contains_key(key) && cannot_move(before, after, key) ==> failed.contains(key)
}

} // verus!
