//! Restoring document keys in the cluster.

use vstd::prelude::*;
use crate::cluster::Cluster;
use crate::curve;
use crate::document_key::{
    collective, collective_document_key, restore, DocumentKey, EncryptedDocumentKey,
    EncryptedDocumentKeyShadow,
};
use crate::error::Error;
use crate::generation::{
    commitment_outcomes, dealt_views, generation_outcome, round_one, GeneratedKey,
};
use crate::math::secret_views;
use crate::model::{
    dealing, document_key_generated_from, lemma_installed_is_generated,
    lemma_installed_without_document_key, lemma_rounds_reach, shadowed_by, ServerKey,
};
use crate::quorum::{
    lemma_valid_positions_bounds, quorum_of, reachable_count, select_quorum, verdict, Outcome,
};
use crate::requester::Requester;
use crate::sharing::random_polynomial;
use crate::traits::{DocumentKeyServer, Served};
use crate::types::{bytes_to_vec, Address, Public, Secret, ServerKeyId};

verus! {

impl Cluster {
    /// Picks a quorum of `degree + 1` nodes for a key among its holders that
    /// are online and answer validly for the `probe`, and reads each
    /// member's number and share from the member's own store.
    pub(crate) fn quorum_records(&self, key_id: &ServerKeyId, degree: usize, probe: &Public) -> (r:
        Option<(Vec<u64>, Vec<Secret>)>)
        requires
            self.wf(),
        ensures
            r is Some <==> verdict(self@.answers(key_id@, probe@), degree as nat) is Ok,
            r matches Some((numbers, shares)) ==> numbers@ == self@.quorum_numbers(
                key_id@,
                degree as nat,
                probe@,
            ) && secret_views(shares@) == self@.quorum_shares(key_id@, degree as nat, probe@)
                && numbers@.len() == degree + 1 && shares@.len() == degree + 1,
    {
        let tags = self.answer_tags(key_id, probe);
        proof {
            lemma_valid_positions_bounds(tags@, tags@.len());
        }
        let quorum = match select_quorum(&tags, degree) {
            Ok(quorum) => quorum,
            Err(_) => {
                return None;
            },
        };
        let ghost positions = quorum_of(tags@, degree as nat);
        let mut numbers: Vec<u64> = Vec::new();
        let mut shares: Vec<Secret> = Vec::new();
        let mut k: usize = 0;
        while k < quorum.len()
            invariant
                self.wf(),
                k <= quorum@.len(),
                tags@ == self@.answers(key_id@, probe@),
                positions == quorum_of(tags@, degree as nat),
                positions.len() == quorum@.len(),
                forall|j: int| 0 <= j < quorum@.len() ==> #[trigger] quorum@[j] == positions[j],
                forall|j: int|
                    0 <= j < positions.len() ==> 0 <= #[trigger] positions[j] < tags@.len()
                        && tags@[positions[j]] == Outcome::Valid,
                numbers@.len() == k,
                shares@.len() == k,
                forall|j: int|
                    0 <= j < k ==> #[trigger] numbers@[j]
                        == self@.nodes[positions[j]].shares[key_id@].number,
                forall|j: int|
                    0 <= j < k ==> (#[trigger] shares@[j])@
                        == self@.nodes[positions[j]].shares[key_id@].share@,
            decreases quorum@.len() - k,
        {
            let position = quorum[k];
            assert(position == positions[k as int]);
            assert(self@.answers(key_id@, probe@)[position as int] == Outcome::Valid);
            match self.nodes[position].shares.get(key_id) {
                Some(record) => {
                    numbers.push(record.number);
                    shares.push(record.share);
                },
                None => {
                    assert(false);
                },
            }
            k += 1;
        }
        assert(numbers@ =~= self@.quorum_numbers(key_id@, degree as nat, probe@));
        assert(secret_views(shares@) =~= self@.quorum_shares(key_id@, degree as nat, probe@));
        Some((numbers, shares))
    }

    /// Decides whether a key may be generated with a document key, and makes
    /// both from the values given: the members that are online deal the
    /// polynomials, and the contributors give the parts of the document key
    /// and of the blinding. Nothing is changed. The result is the author's
    /// address, the key with its shares, the document key, and the pair under
    /// which the document key is to be stored.
    pub(crate) fn prepare_document_key(
        &self,
        key_id: &ServerKeyId,
        author: &Requester,
        threshold: usize,
        polynomials: Vec<Option<Vec<Secret>>>,
        document_parts: &Vec<Secret>,
        blinding_parts: &Vec<Secret>,
    ) -> (r: Result<(Address, GeneratedKey, Public, DocumentKey), Error>)
        requires
            self.wf(),
        ensures
            self@.generation_refusal(
                key_id@,
                author.resolved_address(key_id@),
                threshold as nat,
            ) matches Some(e) ==> (r matches Err(f) && f == e),
            self@.generation_refusal(key_id@, author.resolved_address(key_id@), threshold as nat)
                is None ==> match generation_outcome(
                dealing(self@, dealt_views(polynomials@)),
                threshold as nat,
            ) {
                Err(e) => (r matches Err(f) && f == e),
                Ok(generated) => match collective(
                    secret_views(document_parts@),
                    secret_views(blinding_parts@),
                    generated.public,
                ) {
                    None => (r matches Err(f) && f == Error::InconsistentShare),
                    Some(made) => r matches Ok((address, key, document_key, pair)) && Some(
                        address@,
                    ) == author.resolved_address(key_id@) && key@ == generated
                        && key.shares@.len() == self@.nodes.len() && document_key@ == made.0
                        && pair.common_point@ == made.1 && pair.encrypted_point@ == made.2,
                },
            },
    {
        let (address, key) = match self.prepare_generation(
            key_id,
            author,
            threshold,
            polynomials,
        ) {
            Ok(prepared) => prepared,
            Err(e) => {
                return Err(e);
            },
        };
        match collective_document_key(document_parts, blinding_parts, &key.public) {
            Some((document_key, pair)) => Ok((address, key, document_key, pair)),
            None => Err(Error::InconsistentShare),
        }
    }

    /// Decides whether a document key may be restored for the requester,
    /// and picks the quorum: the holders that are online answer with the
    /// common point times their shares, and the first of them that answer
    /// validly, one more than the threshold, are the quorum.
    pub(crate) fn decryption_quorum(&self, key_id: &ServerKeyId, requester: &Requester) -> (r:
        Result<(DocumentKey, Vec<u64>, Vec<Secret>), Error>)
        requires
            self.wf(),
        ensures
            self@.restore_refusal(key_id@, requester.resolved_address(key_id@)) matches Some(e)
                ==> (r matches Err(f) && f == e),
            self@.restore_refusal(key_id@, requester.resolved_address(key_id@)) is None ==> {
                let stored = self@.keys[key_id@].document_key->Some_0;
                let threshold = self@.keys[key_id@].threshold as nat;
                &&& verdict(self@.answers(key_id@, stored.common_point@), threshold) is Err ==> (
                r matches Err(f) && f == Error::InconsistentShare)
                &&& verdict(self@.answers(key_id@, stored.common_point@), threshold) is Ok ==> (
                r matches Ok((document_key, numbers, shares)) && document_key == stored
                    && numbers@ == self@.quorum_numbers(key_id@, threshold, stored.common_point@)
                    && secret_views(shares@) == self@.quorum_shares(
                    key_id@,
                    threshold,
                    stored.common_point@,
                ))
            },
    {
        let entry = match self.keys.get(key_id) {
            Some(entry) => entry,
            None => {
                return Err(Error::NotFound);
            },
        };
        if !self.check_access(key_id, &entry, requester) {
            return Err(Error::AccessDenied);
        }
        let document_key = match entry.document_key {
            Some(document_key) => document_key,
            None => {
                return Err(Error::NotFound);
            },
        };
        let available = self.availability_tags(key_id);
        if reachable_count(&available) <= entry.threshold {
            return Err(Error::InsufficientNodes);
        }
        match self.quorum_records(key_id, entry.threshold, &document_key.common_point) {
            Some((numbers, shares)) => Ok((document_key, numbers, shares)),
            None => Err(Error::InconsistentShare),
        }
    }

    /// Restores a document key for the requester: the point that the
    /// quorum's partial decryptions leave of the encrypted point.
    pub(crate) fn restore_point(&self, key_id: &ServerKeyId, requester: &Requester) -> (r: Result<
        Public,
        Error,
    >)
        requires
            self.wf(),
        ensures
            self@.restore_refusal(key_id@, requester.resolved_address(key_id@)) matches Some(e)
                ==> r == Err::<Public, Error>(e),
            self@.restore_refusal(key_id@, requester.resolved_address(key_id@)) is None
                ==> match self@.document_key(key_id@) {
                Some(point) => r matches Ok(restored) && restored@ == point,
                None => r == Err::<Public, Error>(Error::InconsistentShare),
            },
    {
        let (document_key, numbers, shares) = match self.decryption_quorum(key_id, requester) {
            Ok(quorum) => quorum,
            Err(e) => {
                return Err(e);
            },
        };
        match restore(&document_key, &numbers, &shares, None) {
            Some(plain) => Ok(plain),
            None => Err(Error::InconsistentShare),
        }
    }

    /// Restores a document key in shadow for the requester, with the
    /// blindings of the quorum's members given: what the blinded partial
    /// decryptions leave of the encrypted point, the common point, and the
    /// coefficients that the requester needs to take the blindings off, which
    /// are the blindings, in the order of the quorum.
    pub(crate) fn restore_shadow_with(
        &self,
        key_id: &ServerKeyId,
        requester: &Requester,
        blindings: Vec<Secret>,
    ) -> (r: Result<(Public, Public, Vec<Secret>), Error>)
        requires
            self.wf(),
        ensures
            self@.restore_refusal(key_id@, requester.resolved_address(key_id@)) matches Some(e)
                ==> (r matches Err(f) && f == e),
            self@.restore_refusal(key_id@, requester.resolved_address(key_id@)) is None
                ==> match self@.shadow_secret(key_id@, secret_views(blindings@)) {
                Some(point) => r matches Ok((decrypted_secret, common_point, coefficients))
                    && decrypted_secret@ == point && common_point
                    == self@.keys[key_id@].document_key->Some_0.common_point && coefficients@
                    == blindings@,
                None => (r matches Err(f) && f == Error::InconsistentShare),
            },
    {
        let (document_key, numbers, shares) = match self.decryption_quorum(key_id, requester) {
            Ok(quorum) => quorum,
            Err(e) => {
                return Err(e);
            },
        };
        match restore(&document_key, &numbers, &shares, Some(&blindings)) {
            Some(decrypted_secret) => Ok((decrypted_secret, document_key.common_point, blindings)),
            None => Err(Error::InconsistentShare),
        }
    }
}

/// Encrypts a plain text for the requester. A requester whose proof gives no
/// key that can be encrypted to is refused.
pub(crate) fn encrypt_for(requester: &Requester, key_id: &ServerKeyId, plain: &Vec<u8>) -> (r:
    Result<Vec<u8>, Error>)
    requires
        plain@.len() <= 1024,
    ensures
        r matches Ok(encrypted) ==> encrypted@.len() == plain@.len() + 113 && encrypted@[0] == 4,
        r matches Err(e) ==> e == Error::BadSignature,
{
    let public = match requester.public(key_id) {
        Ok(public) => public,
        Err(e) => {
            return Err(e);
        },
    };
    let authenticated: Vec<u8> = Vec::new();
    match curve::encrypt(&public, &authenticated, plain) {
        Some(encrypted) => Ok(encrypted),
        None => Err(Error::BadSignature),
    }
}

impl DocumentKeyServer for Cluster {
    /// Stores a document key, blinded by the caller, under a server key.
    fn store_document_key(
        &mut self,
        key_id: &ServerKeyId,
        author: &Requester,
        common_point: Public,
        encrypted_document_key: Public,
    ) -> (r: Result<(), Error>)
    {
        let entry = match self.keys.get(key_id) {
            Some(entry) => entry,
            None => {
                return Err(Error::NotFound);
            },
        };
        if !self.check_author(key_id, &entry, author) {
            return Err(Error::AccessDenied);
        }
        if entry.document_key.is_some() {
            return Err(Error::DuplicateKey);
        }
        let tags = self.availability_tags(key_id);
        if reachable_count(&tags) <= entry.threshold {
            return Err(Error::InsufficientNodes);
        }
        let document_key = DocumentKey { common_point, encrypted_point: encrypted_document_key };
        self.keys.put(
            *key_id,
            ServerKey {
                author: entry.author,
                threshold: entry.threshold,
                public: entry.public,
                document_key: Some(document_key),
            },
        );
        assert(self@.nodes =~= old(self)@.nodes);
        assert(self@.delegates =~= old(self)@.delegates);
        Ok(())
    }

    /// Generates a server key and a document key under it. The document key
    /// is made by as many contributors as it takes to use the server key, and
    /// is returned encrypted for the author.
    fn generate_document_key(
        &mut self,
        key_id: &ServerKeyId,
        author: &Requester,
        threshold: usize,
    ) -> (r: Result<EncryptedDocumentKey, Error>)
    {
        if threshold >= self.nodes.len() {
            proof {
                lemma_valid_positions_bounds(self@.membership(), self@.nodes.len());
            }
            return Err(Error::InvalidThreshold);
        }
        let polynomials = self.sample_polynomials(threshold);
        proof {
            let m = self@;
            let t = threshold as nat;
            if m.generation_refusal(key_id@, author.resolved_address(key_id@), t) is None {
                lemma_rounds_reach(m, dealt_views(polynomials@), t);
                lemma_valid_positions_bounds(
                    commitment_outcomes(
                        round_one(dealing(m, dealt_views(polynomials@)), t, m.nodes.len() as int),
                    ),
                    m.nodes.len(),
                );
            }
        }
        let ghost dealt = dealt_views(polynomials@);
        let document_parts = random_polynomial(threshold);
        let blinding_parts = random_polynomial(threshold);
        let (address, key, document_key, pair) = match self.prepare_document_key(
            key_id,
            author,
            threshold,
            polynomials,
            &document_parts,
            &blinding_parts,
        ) {
            Ok(prepared) => prepared,
            Err(e) => {
                return Err(e);
            },
        };
        let encrypted = match encrypt_for(author, key_id, &bytes_to_vec(&document_key.bytes)) {
            Ok(encrypted) => encrypted,
            Err(e) => {
                return Err(e);
            },
        };
        self.install_key(
            key_id,
            ServerKey { author: address, threshold, public: key.public, document_key: Some(pair) },
            &key.shares,
        );
        proof {
            let before = old(self)@;
            let generated = key@;
            lemma_installed_without_document_key(
                before,
                self@,
                key_id@,
                address@,
                threshold as nat,
                generated,
                Some(pair),
            );
            lemma_installed_is_generated(
                before,
                self@.without_document_key(key_id@),
                key_id@,
                address@,
                threshold as nat,
                dealt,
                generated,
            );
            assert(document_key_generated_from(
                before,
                self.cluster(),
                key_id@,
                address@,
                threshold as nat,
                dealt,
                secret_views(document_parts@),
                secret_views(blinding_parts@),
            ));
        }
        Ok(encrypted)
    }

    /// Restores a document key and encrypts it for the requester.
    fn restore_document_key(&self, key_id: &ServerKeyId, requester: &Requester) -> (r: Result<
        EncryptedDocumentKey,
        Error,
    >)
    {
        let plain = match self.restore_point(key_id, requester) {
            Ok(plain) => plain,
            Err(e) => {
                return Err(e);
            },
        };
        encrypt_for(requester, key_id, &bytes_to_vec(&plain.bytes))
    }

    /// Restores a document key in shadow: every member of the quorum blinds
    /// its partial decryption with a random scalar, and encrypts the scalar
    /// for the requester, who alone can take the blindings off.
    fn restore_document_key_shadow(&self, key_id: &ServerKeyId, requester: &Requester) -> (r:
        Result<EncryptedDocumentKeyShadow, Error>)
    {
        let blindings = match self.keys.get(key_id) {
            Some(entry) => if entry.threshold < usize::MAX {
                random_polynomial(entry.threshold)
            } else {
                Vec::new()
            },
            None => Vec::new(),
        };
        let ghost drawn = secret_views(blindings@);
        let (decrypted_secret, common_point, coefficients) = match self.restore_shadow_with(
            key_id,
            requester,
            blindings,
        ) {
            Ok(shadow) => shadow,
            Err(e) => {
                return Err(e);
            },
        };
        assert(shadowed_by(self@, key_id@, decrypted_secret@, drawn));
        let mut decrypt_shadows: Vec<Vec<u8>> = Vec::new();
        let mut i: usize = 0;
        while i < coefficients.len()
            invariant
                i <= coefficients@.len(),
                shadowed_by(self@, key_id@, decrypted_secret@, drawn),
                self@.restore_refusal(key_id@, requester.resolved_address(key_id@)) is None,
                decrypt_shadows@.len() == i,
                forall|k: int| 0 <= k < i ==> (#[trigger] decrypt_shadows@[k])@.len() == 32 + 113,
            decreases coefficients@.len() - i,
        {
            match encrypt_for(requester, key_id, &bytes_to_vec(&coefficients[i].bytes)) {
                Ok(encrypted) => {
                    decrypt_shadows.push(encrypted);
                },
                Err(e) => {
                    return Err(e);
                },
            }
            i += 1;
        }
        let shadow = EncryptedDocumentKeyShadow { decrypted_secret, common_point, decrypt_shadows };
        assert(shadowed_by(self.cluster(), key_id@, shadow.decrypted_secret@, drawn));
        Ok(shadow)
    }
}

} // verus!
