//! The key pair of a node: what the node signs with, and what it derives the
//! keys of its channels to the other nodes from.

use vstd::prelude::*;
use crate::curve;
use crate::math::{generation_point, GENERATION_POINT};
use crate::requester::{address_of, public_to_address};
use crate::types::{Address, Public, Secret, Signature, H256};

verus! {

/// A secret and its public key.
#[derive(Clone, Copy, Debug, PartialEq, Eq)]
pub struct KeyPair {
    pub secret: Secret,
    pub public: Public,
}

/// The failure of an operation on a key: the secret or the point is not one
/// that the curve accepts.
#[derive(Clone, Copy, Debug, PartialEq, Eq, Structural)]
pub enum KeyError {
    InvalidKey,
}

/// The public key of a secret: the base point times the secret.
pub open spec fn public_of(secret: Seq<u8>) -> Option<Seq<u8>> {
    curve::point_mul(GENERATION_POINT@, secret)
}

impl KeyPair {
    /// The pair of a secret.
    pub fn from_secret(secret: Secret) -> (r: Result<KeyPair, KeyError>)
        ensures
            r is Ok <==> public_of(secret@) is Some,
            r matches Ok(pair) ==> pair.secret == secret && public_of(secret@) == Some(
                pair.public@,
            ),
    {
        match curve::mul_point(&generation_point(), &secret) {
            Some(public) => Ok(KeyPair { secret, public }),
            None => Err(KeyError::InvalidKey),
        }
    }
}

/// Node key pair.
pub trait NodeKeyPair: Send + Sync {
    /// The pair that the node holds.
    spec fn pair(&self) -> KeyPair;

    /// Public portion of key.
    fn public(&self) -> (public: &Public)
        ensures
            *public == self.pair().public,
    ;

    /// Address of key owner.
    fn address(&self) -> (address: Address)
        ensures
            address@ == address_of(self.pair().public@),
    ;

    /// Sign data with node key.
    fn sign(&self, data: &H256) -> (r: Result<Signature, KeyError>)
        ensures
            r is Ok <==> curve::signature_of(self.pair().secret@, data@) is Some,
            r matches Ok(signature) ==> curve::signature_of(self.pair().secret@, data@) == Some(
                signature@,
            ),
    ;

    /// Compute shared key to encrypt channel between two nodes.
    fn compute_shared_key(&self, peer_public: &Public) -> (r: Result<KeyPair, KeyError>)
        ensures
            r is Ok <==> channel_key(self.pair().secret@, peer_public@) is Some,
            r matches Ok(shared) ==> channel_key(self.pair().secret@, peer_public@) == Some(
                (shared.secret@, shared.public@),
            ),
    ;
}

/// The key of the channel between the holder of a secret and a peer: the
/// secret that the two agree on, and its public key.
pub open spec fn channel_key(secret: Seq<u8>, peer_public: Seq<u8>) -> Option<(Seq<u8>, Seq<u8>)> {
    match curve::shared_secret(secret, peer_public) {
        None => None,
        Some(shared) => match public_of(shared) {
            None => None,
            Some(public) => Some((shared, public)),
        },
    }
}

/// A node key pair that is held in memory.
pub struct PlainNodeKeyPair {
    key_pair: KeyPair,
}

impl PlainNodeKeyPair {
    /// A node that holds the pair.
    pub fn new(key_pair: KeyPair) -> (node: PlainNodeKeyPair)
        ensures
            node.pair() == key_pair,
    {
        PlainNodeKeyPair { key_pair }
    }
}

impl NodeKeyPair for PlainNodeKeyPair {
    closed spec fn pair(&self) -> KeyPair {
        self.key_pair
    }

    fn public(&self) -> (public: &Public) {
        &self.key_pair.public
    }

    fn address(&self) -> (address: Address) {
        public_to_address(&self.key_pair.public)
    }

    fn sign(&self, data: &H256) -> (r: Result<Signature, KeyError>) {
        match curve::sign(&self.key_pair.secret, data) {
            Some(signature) => Ok(signature),
            None => Err(KeyError::InvalidKey),
        }
    }

    fn compute_shared_key(&self, peer_public: &Public) -> (r: Result<KeyPair, KeyError>) {
        match curve::agree(&self.key_pair.secret, peer_public) {
            Some(shared) => KeyPair::from_secret(shared),
            None => Err(KeyError::InvalidKey),
        }
    }
}

} // verus!
