//! The arithmetic of the curve and the primitives built on it. Nothing here is
//! proved: each function hands its arguments to `parity_crypto`, and its
//! contract names what comes back. A failure of the outside function comes
//! back as `None`. The rest of the crate is verified against these contracts.

use vstd::prelude::*;
use crate::types::{Public, Secret, Signature, H256};

verus! {

/// The public key that `publickey::recover` finds for a signature and a
/// message, if it finds one.
pub uninterp spec fn recovered_public(signature: Seq<u8>, message: Seq<u8>) -> Option<Seq<u8>>;

/// The digest that `parity_crypto::Keccak256::keccak256` computes of a byte
/// string.
pub uninterp spec fn keccak256(data: Seq<u8>) -> Seq<u8>;

/// The point that `ec_math_utils::public_mul_secret` leaves for a point and a
/// scalar, if it accepts them.
pub uninterp spec fn point_mul(point: Seq<u8>, scalar: Seq<u8>) -> Option<Seq<u8>>;

/// The point that `ec_math_utils::public_add` leaves for two points, if it
/// accepts them.
pub uninterp spec fn point_add(left: Seq<u8>, right: Seq<u8>) -> Option<Seq<u8>>;

/// The scalar that `Secret::add` leaves, if it accepts its operands.
pub uninterp spec fn scalar_add(left: Seq<u8>, right: Seq<u8>) -> Option<Seq<u8>>;

/// The scalar that `Secret::sub` leaves, if it accepts its operands.
pub uninterp spec fn scalar_sub(left: Seq<u8>, right: Seq<u8>) -> Option<Seq<u8>>;

/// The scalar that `Secret::mul` leaves, if it accepts its operands.
pub uninterp spec fn scalar_mul(left: Seq<u8>, right: Seq<u8>) -> Option<Seq<u8>>;

/// The signature that `publickey::sign` makes with a secret over a message, if
/// it accepts them.
pub uninterp spec fn signature_of(secret: Seq<u8>, message: Seq<u8>) -> Option<Seq<u8>>;

/// The secret that `publickey::ecdh::agree` derives from a secret and a peer's
/// public key, if it accepts them.
pub uninterp spec fn shared_secret(secret: Seq<u8>, public: Seq<u8>) -> Option<Seq<u8>>;

/// Calls `parity_crypto::publickey::recover`. The contract only names the
/// result: success and the key found are those of `recovered_public`.
#[verifier::external_body]
pub(crate) fn recover(signature: &Signature, message: &H256) -> (r: Option<Public>)
    ensures
        r is Some <==> recovered_public(signature@, message@) is Some,
        r matches Some(p) ==> recovered_public(signature@, message@) == Some(p@),
{
    let sig = parity_crypto::publickey::Signature::from(signature.bytes);
    let msg = parity_crypto::publickey::Message::from(message.bytes);
    match parity_crypto::publickey::recover(&sig, &msg) {
        Ok(p) => Some(Public { bytes: p.to_fixed_bytes() }),
        Err(_) => None,
    }
}

/// Calls `parity_crypto::Keccak256::keccak256` on the bytes. The contract
/// names the digest as `keccak256` of the input.
#[verifier::external_body]
pub(crate) fn keccak(data: &Vec<u8>) -> (digest: H256)
    ensures
        digest@ == keccak256(data@),
{
    H256 { bytes: parity_crypto::Keccak256::keccak256(data) }
}

/// Calls `parity_crypto::publickey::ec_math_utils::public_mul_secret` on a
/// copy of the point. Success and the product are those of `point_mul`.
#[verifier::external_body]
pub(crate) fn mul_point(point: &Public, scalar: &Secret) -> (r: Option<Public>)
    ensures
        r is Some <==> point_mul(point@, scalar@) is Some,
        r matches Some(p) ==> point_mul(point@, scalar@) == Some(p@),
{
    let mut p = parity_crypto::publickey::Public::from(point.bytes);
    let s = parity_crypto::publickey::Secret::from(scalar.bytes);
    match parity_crypto::publickey::ec_math_utils::public_mul_secret(&mut p, &s) {
        Ok(()) => Some(Public { bytes: p.to_fixed_bytes() }),
        Err(_) => None,
    }
}

/// Calls `parity_crypto::publickey::ec_math_utils::public_add` on a copy of
/// the left point. Success and the sum are those of `point_add`.
#[verifier::external_body]
pub(crate) fn add_points(left: &Public, right: &Public) -> (r: Option<Public>)
    ensures
        r is Some <==> point_add(left@, right@) is Some,
        r matches Some(p) ==> point_add(left@, right@) == Some(p@),
{
    let mut p = parity_crypto::publickey::Public::from(left.bytes);
    let q = parity_crypto::publickey::Public::from(right.bytes);
    match parity_crypto::publickey::ec_math_utils::public_add(&mut p, &q) {
        Ok(()) => Some(Public { bytes: p.to_fixed_bytes() }),
        Err(_) => None,
    }
}

/// Calls `parity_crypto::publickey::Secret::add` on a copy of the left
/// scalar. Success and the sum are those of `scalar_add`.
#[verifier::external_body]
pub(crate) fn add_scalars(left: &Secret, right: &Secret) -> (r: Option<Secret>)
    ensures
        r is Some <==> scalar_add(left@, right@) is Some,
        r matches Some(s) ==> scalar_add(left@, right@) == Some(s@),
{
    let mut a = parity_crypto::publickey::Secret::from(left.bytes);
    let b = parity_crypto::publickey::Secret::from(right.bytes);
    match a.add(&b) {
        Ok(()) => Some(Secret { bytes: a.to_fixed_bytes() }),
        Err(_) => None,
    }
}

/// Calls `parity_crypto::publickey::Secret::sub` on a copy of the left
/// scalar. Success and the difference are those of `scalar_sub`.
#[verifier::external_body]
pub(crate) fn sub_scalars(left: &Secret, right: &Secret) -> (r: Option<Secret>)
    ensures
        r is Some <==> scalar_sub(left@, right@) is Some,
        r matches Some(s) ==> scalar_sub(left@, right@) == Some(s@),
{
    let mut a = parity_crypto::publickey::Secret::from(left.bytes);
    let b = parity_crypto::publickey::Secret::from(right.bytes);
    match a.sub(&b) {
        Ok(()) => Some(Secret { bytes: a.to_fixed_bytes() }),
        Err(_) => None,
    }
}

/// Calls `parity_crypto::publickey::Secret::mul` on a copy of the left
/// scalar. Success and the product are those of `scalar_mul`.
#[verifier::external_body]
pub(crate) fn mul_scalars(left: &Secret, right: &Secret) -> (r: Option<Secret>)
    ensures
        r is Some <==> scalar_mul(left@, right@) is Some,
        r matches Some(s) ==> scalar_mul(left@, right@) == Some(s@),
{
    let mut a = parity_crypto::publickey::Secret::from(left.bytes);
    let b = parity_crypto::publickey::Secret::from(right.bytes);
    match a.mul(&b) {
        Ok(()) => Some(Secret { bytes: a.to_fixed_bytes() }),
        Err(_) => None,
    }
}

/// Calls `parity_crypto::publickey::sign`, which derives its nonce from the
/// secret and the message. Success and the signature are those of
/// `signature_of`.
#[verifier::external_body]
pub(crate) fn sign(secret: &Secret, message: &H256) -> (r: Option<Signature>)
    ensures
        r is Some <==> signature_of(secret@, message@) is Some,
        r matches Some(s) ==> signature_of(secret@, message@) == Some(s@),
{
    let key = parity_crypto::publickey::Secret::from(secret.bytes);
    let msg = parity_crypto::publickey::Message::from(message.bytes);
    match parity_crypto::publickey::sign(&key, &msg) {
        Ok(s) => Some(Signature { bytes: s.into() }),
        Err(_) => None,
    }
}

/// Calls `parity_crypto::publickey::ecdh::agree`. Success and the secret
/// agreed on are those of `shared_secret`.
#[verifier::external_body]
pub(crate) fn agree(secret: &Secret, public: &Public) -> (r: Option<Secret>)
    ensures
        r is Some <==> shared_secret(secret@, public@) is Some,
        r matches Some(s) ==> shared_secret(secret@, public@) == Some(s@),
{
    let key = parity_crypto::publickey::Secret::from(secret.bytes);
    let peer = parity_crypto::publickey::Public::from(public.bytes);
    match parity_crypto::publickey::ecdh::agree(&key, &peer) {
        Ok(s) => Some(Secret { bytes: s.to_fixed_bytes() }),
        Err(_) => None,
    }
}

/// Calls `parity_crypto::publickey::ecies::encrypt`, which draws a fresh key
/// and a fresh initial vector at every call. What holds of every outcome: a
/// message that comes back starts with the version byte 4 and is 113 bytes
/// longer than the plain text.
#[verifier::external_body]
pub(crate) fn encrypt(public: &Public, auth_data: &Vec<u8>, plain: &Vec<u8>) -> (r: Option<Vec<u8>>)
    requires
        plain@.len() + 113 <= usize::MAX,
    ensures
        r matches Some(message) ==> message@.len() == plain@.len() + 113 && message@[0] == 4,
{
    let key = parity_crypto::publickey::Public::from(public.bytes);
    match parity_crypto::publickey::ecies::encrypt(&key, auth_data, plain) {
        Ok(message) => Some(message),
        Err(_) => None,
    }
}

/// Calls `parity_crypto::publickey::Random::generate` and hands out the
/// secret of the pair. Nothing is promised of a random value.
#[verifier::external_body]
pub(crate) fn random_secret() -> Secret {
    let pair = parity_crypto::publickey::Generator::generate(&mut parity_crypto::publickey::Random);
    Secret { bytes: pair.secret().to_fixed_bytes() }
}

} // verus!
