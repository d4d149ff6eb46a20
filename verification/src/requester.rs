//! Who asks: a caller proves its identity by a public key, or by a signature
//! over the id of the key that the request is about.

use vstd::prelude::*;
use crate::curve;
use crate::error::Error;
use crate::types::{bytes_to_vec, Address, Public, ServerKeyId, Signature};

verus! {

/// The address that belongs to a public key: the last twenty bytes of the
/// key's Keccak-256 digest.
pub open spec fn address_of(public: Seq<u8>) -> Seq<u8> {
    curve::keccak256(public).subrange(12, 32)
}

/// Derives the address of a public key.
pub fn public_to_address(public: &Public) -> (address: Address)
    ensures
        address@ == address_of(public@),
{
    let data = bytes_to_vec(&public.bytes);
    let digest = curve::keccak(&data);
    let mut bytes = [0u8; 20];
    let mut k: usize = 0;
    while k < 20
        invariant
            k <= 20,
            forall|j: int| 0 <= j < k ==> bytes@[j] == digest@[12 + j],
        decreases 20 - k,
    {
        bytes[k] = digest.bytes[12 + k];
        k += 1;
    }
    assert(bytes@ =~= digest@.subrange(12, 32));
    Address { bytes }
}

/// The identity behind a request.
#[derive(Clone, Copy, Debug, PartialEq, Eq)]
pub enum Requester {
    /// A signature over the server key id, made with the caller's secret.
    Signature(Signature),
    /// The caller's public key.
    Public(Public),
}

impl Requester {
    /// The public key that the requester resolves to for a key id, if any.
    pub open spec fn resolved_public(self, server_key_id: Seq<u8>) -> Option<Seq<u8>> {
        match self {
            Requester::Signature(signature) => curve::recovered_public(signature@, server_key_id),
            Requester::Public(public) => Some(public@),
        }
    }

    /// The address that the requester resolves to for a key id, if any.
    pub open spec fn resolved_address(self, server_key_id: Seq<u8>) -> Option<Seq<u8>> {
        match self.resolved_public(server_key_id) {
            Some(public) => Some(address_of(public)),
            None => None,
        }
    }

    /// Two requesters are the same caller when both resolve, and to the same
    /// address.
    pub open spec fn equivalent_to(self, other: Requester, server_key_id: Seq<u8>) -> bool {
        self.resolved_address(server_key_id) is Some && self.resolved_address(server_key_id)
            == other.resolved_address(server_key_id)
    }

    /// The requester's public key. A signature that yields no key is a bad
    /// signature.
    pub fn public(&self, server_key_id: &ServerKeyId) -> (r: Result<Public, Error>)
        ensures
            r is Ok <==> self.resolved_public(server_key_id@) is Some,
            r matches Ok(public) ==> self.resolved_public(server_key_id@) == Some(public@),
            r matches Err(e) ==> e == Error::BadSignature,
    {
        match self {
            Requester::Signature(signature) => match curve::recover(signature, server_key_id) {
                Some(public) => Ok(public),
                None => Err(Error::BadSignature),
            },
            Requester::Public(public) => Ok(*public),
        }
    }

    /// The requester's address.
    pub fn address(&self, server_key_id: &ServerKeyId) -> (r: Result<Address, Error>)
        ensures
            r is Ok <==> self.resolved_address(server_key_id@) is Some,
            r matches Ok(address) ==> self.resolved_address(server_key_id@) == Some(address@),
            r matches Err(e) ==> e == Error::BadSignature,
    {
        match self.public(server_key_id) {
            Ok(public) => Ok(public_to_address(&public)),
            Err(e) => Err(e),
        }
    }

    /// Whether two requesters are the same caller for a key id.
    pub fn equivalent(&self, other: &Requester, server_key_id: &ServerKeyId) -> (r: bool)
        ensures
            r == self.equivalent_to(*other, server_key_id@),
    {
        match (self.address(server_key_id), other.address(server_key_id)) {
            (Ok(a), Ok(b)) => a.same(&b),
            _ => false,
        }
    }
}

} // verus!
