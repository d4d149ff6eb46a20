//! Signing in the cluster.

use vstd::prelude::*;
use crate::cluster::document_keys::encrypt_for;
use crate::cluster::Cluster;
use crate::ecdsa::sign_ecdsa;
use crate::error::Error;
use crate::math::{generation_point, secret_views, GENERATION_POINT};
use crate::model::{ClusterModel, Scheme, ServerKey};
use crate::quorum::{lemma_valid_positions_bounds, reachable_count, valid_count, verdict};
use crate::requester::Requester;
use crate::sharing::{polynomial_views, random_polynomial, random_polynomials};
use crate::signing::{sign_schnorr, EncryptedMessageSignature, SchnorrSignature};
use crate::traits::{MessageSigner, Served};
use crate::types::{bytes_to_vec, MessageHash, Secret, ServerKeyId, Signature};

verus! {

/// How many nodes have to take part in a signature, if the number can be
/// written.
pub(crate) fn signers_needed(threshold: usize, scheme: Scheme) -> (r: Option<usize>)
    ensures
        r matches Some(n) ==> n == ClusterModel::signers(threshold as nat, scheme),
        r is None ==> ClusterModel::signers(threshold as nat, scheme) > usize::MAX,
{
    match scheme {
        Scheme::Schnorr => threshold.checked_add(1),
        Scheme::Ecdsa => match threshold.checked_mul(2) {
            Some(twice) => twice.checked_add(1),
            None => None,
        },
    }
}

impl Cluster {
    /// Decides whether a message may be signed, and picks the signers: the
    /// holders that are online answer with the base point times their shares,
    /// and the first of them that answer validly, as many as the scheme
    /// needs, are the signers. Each signer's number and share are read from
    /// the signer's own store.
    fn signers(&self, key_id: &ServerKeyId, requester: &Requester, scheme: Scheme) -> (r: Result<
        (ServerKey, Vec<u64>, Vec<Secret>),
        Error,
    >)
        requires
            self.wf(),
        ensures
            self@.signing_refusal(key_id@, requester.resolved_address(key_id@), scheme) matches Some(
                e,
            ) ==> (r matches Err(f) && f == e),
            self@.signing_refusal(key_id@, requester.resolved_address(key_id@), scheme) is None
                ==> {
                let degree = (ClusterModel::signers(
                    self@.keys[key_id@].threshold as nat,
                    scheme,
                ) - 1) as nat;
                &&& verdict(self@.answers(key_id@, GENERATION_POINT@), degree) is Err ==> (
                r matches Err(f) && f == Error::InconsistentShare)
                &&& verdict(self@.answers(key_id@, GENERATION_POINT@), degree) is Ok ==> (
                r matches Ok((entry, numbers, shares)) && entry == self@.keys[key_id@]
                    && numbers@ == self@.quorum_numbers(key_id@, degree, GENERATION_POINT@)
                    && secret_views(shares@) == self@.quorum_shares(
                    key_id@,
                    degree,
                    GENERATION_POINT@,
                ))
            },
    {
        if requester.address(key_id).is_err() {
            return Err(Error::BadSignature);
        }
        let entry = match self.keys.get(key_id) {
            Some(entry) => entry,
            None => {
                return Err(Error::NotFound);
            },
        };
        if !self.check_access(key_id, &entry, requester) {
            return Err(Error::AccessDenied);
        }
        let available = self.availability_tags(key_id);
        let reachable = reachable_count(&available);
        if reachable <= entry.threshold {
            return Err(Error::InsufficientNodes);
        }
        let holding = self.holding_tags(key_id);
        let nodes = holding.len();
        let needed = match signers_needed(entry.threshold, scheme) {
            Some(needed) => needed,
            None => {
                proof {
                    lemma_valid_positions_bounds(holding@, holding@.len());
                }
                return Err(Error::InvalidThreshold);
            },
        };
        if valid_count(&holding) < needed {
            return Err(Error::InvalidThreshold);
        }
        if reachable < needed {
            return Err(Error::InsufficientNodes);
        }
        match self.quorum_records(key_id, needed - 1, &generation_point()) {
            Some((numbers, shares)) => Ok((entry, numbers, shares)),
            None => Err(Error::InconsistentShare),
        }
    }

    /// Signs a message by Schnorr's scheme with the signers' nonces given,
    /// the first signer's first. The signature is the one that the signers
    /// make with these nonces; where they make none, or none that is valid,
    /// the signing fails on the shares.
    pub(crate) fn sign_schnorr_with(
        &self,
        key_id: &ServerKeyId,
        requester: &Requester,
        message: &MessageHash,
        nonces: &Vec<Secret>,
    ) -> (r: Result<SchnorrSignature, Error>)
        requires
            self.wf(),
        ensures
            self@.signing_refusal(
                key_id@,
                requester.resolved_address(key_id@),
                Scheme::Schnorr,
            ) matches Some(e) ==> (r matches Err(f) && f == e),
            self@.signing_refusal(key_id@, requester.resolved_address(key_id@), Scheme::Schnorr)
                is None ==> match self@.schnorr_signed_with(
                key_id@,
                message@,
                secret_views(nonces@),
            ) {
                Some(pair) => r matches Ok(signature) && signature.challenge@ == pair.0
                    && signature.response@ == pair.1,
                None => (r matches Err(f) && f == Error::InconsistentShare),
            },
    {
        let (entry, numbers, shares) = match self.signers(key_id, requester, Scheme::Schnorr) {
            Ok(found) => found,
            Err(e) => {
                return Err(e);
            },
        };
        match sign_schnorr(&entry.public, message, &numbers, &shares, nonces) {
            Some(signature) => Ok(signature),
            None => Err(Error::InconsistentShare),
        }
    }

    /// Signs a message by ECDSA with the polynomials given that the signers
    /// deal for the nonce and for the mask, the first signer's first. The
    /// signature is the one that the signers make with these polynomials;
    /// where they make none that recovers the key's public point, the signing
    /// fails on the shares.
    pub(crate) fn sign_ecdsa_with(
        &self,
        key_id: &ServerKeyId,
        requester: &Requester,
        message: &MessageHash,
        nonce_polynomials: &Vec<Vec<Secret>>,
        mask_polynomials: &Vec<Vec<Secret>>,
    ) -> (r: Result<Signature, Error>)
        requires
            self.wf(),
        ensures
            self@.signing_refusal(
                key_id@,
                requester.resolved_address(key_id@),
                Scheme::Ecdsa,
            ) matches Some(e) ==> (r matches Err(f) && f == e),
            self@.signing_refusal(key_id@, requester.resolved_address(key_id@), Scheme::Ecdsa)
                is None ==> match self@.ecdsa_signed_with(
                key_id@,
                message@,
                polynomial_views(nonce_polynomials@),
                polynomial_views(mask_polynomials@),
            ) {
                Some(bytes) => r matches Ok(signature) && signature@ == bytes,
                None => (r matches Err(f) && f == Error::InconsistentShare),
            },
    {
        let (entry, numbers, shares) = match self.signers(key_id, requester, Scheme::Ecdsa) {
            Ok(found) => found,
            Err(e) => {
                return Err(e);
            },
        };
        match sign_ecdsa(
            &entry.public,
            message,
            &numbers,
            &shares,
            nonce_polynomials,
            mask_polynomials,
        ) {
            Some(signature) => Ok(signature),
            None => Err(Error::InconsistentShare),
        }
    }
}

impl MessageSigner for Cluster {
    /// Signs a message with a server key, by Schnorr's scheme, and encrypts
    /// the signature for the requester. Every signer draws a nonce.
    fn sign_message_schnorr(
        &self,
        key_id: &ServerKeyId,
        requester: &Requester,
        message: MessageHash,
    ) -> (r: Result<EncryptedMessageSignature, Error>)
    {
        let nonces = match self.keys.get(key_id) {
            Some(entry) => if entry.threshold < usize::MAX {
                random_polynomial(entry.threshold)
            } else {
                Vec::new()
            },
            None => Vec::new(),
        };
        let signature = match self.sign_schnorr_with(key_id, requester, &message, &nonces) {
            Ok(signature) => signature,
            Err(e) => {
                return Err(e);
            },
        };
        assert(self.cluster().schnorr_signed_with(key_id@, message@, secret_views(nonces@))
            is Some);
        let mut plain = bytes_to_vec(&signature.challenge.bytes);
        let mut response = bytes_to_vec(&signature.response.bytes);
        plain.append(&mut response);
        encrypt_for(requester, key_id, &plain)
    }

    /// Signs a message with a server key, by ECDSA, and encrypts the
    /// signature for the requester. The requester proves itself by a
    /// signature over the key id. Every signer draws a polynomial for the
    /// nonce and one for the mask.
    fn sign_message_ecdsa(
        &self,
        key_id: &ServerKeyId,
        signature: &Requester,
        message: MessageHash,
    ) -> (r: Result<EncryptedMessageSignature, Error>)
    {
        let (count, degree) = match self.keys.get(key_id) {
            Some(entry) => match signers_needed(entry.threshold, Scheme::Ecdsa) {
                Some(count) => (count, entry.threshold),
                None => (0, 0),
            },
            None => (0, 0),
        };
        let nonce_polynomials = random_polynomials(count, degree);
        let mask_polynomials = random_polynomials(count, degree);
        let signed = match self.sign_ecdsa_with(
            key_id,
            signature,
            &message,
            &nonce_polynomials,
            &mask_polynomials,
        ) {
            Ok(signed) => signed,
            Err(e) => {
                return Err(e);
            },
        };
        assert(self.cluster().ecdsa_signed_with(
            key_id@,
            message@,
            polynomial_views(nonce_polynomials@),
            polynomial_views(mask_polynomials@),
        ) is Some);
        encrypt_for(signature, key_id, &bytes_to_vec(&signed.bytes))
    }
}

} // verus!
