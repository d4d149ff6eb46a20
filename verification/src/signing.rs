//! Threshold signatures. Each signer draws a nonce and commits to its nonce
//! point before any nonce point is revealed. A Schnorr signature over a
//! message `m` with the key `Y` is the pair `(c, s)` with
//! `c = H(R, Y, m)` and `s = k + c * x`, where `R` is the sum of the nonce
//! points, `k` the sum of the nonces and `x` the key's scalar; the signers
//! compute `s` share by share, and nobody holds `k` or `x`.

use vstd::prelude::*;
use crate::curve;
use crate::document_key::{node_shadow, number_scalars, scalars_of, shadow_of};
use crate::math::{
    all_defined, generation_point, multiply_point, negate, negated, point_multiples, points_sum,
    public_views, scalars_sum, secret_views, sum_points, sum_scalars, GENERATION_POINT,
};
use crate::servers_set::distinct;
use crate::types::{bytes_to_vec, MessageHash, Public, Secret, H256};

verus! {

/// A signature, encrypted for the requester.
pub type EncryptedMessageSignature = Vec<u8>;

/// A Schnorr signature.
#[derive(Clone, Copy, Debug, PartialEq, Eq)]
pub struct SchnorrSignature {
    pub challenge: Secret,
    pub response: Secret,
}

/// What a signer commits to before the nonce points are revealed: the digest
/// of its nonce point.
pub fn nonce_commitment(nonce_point: &Public) -> (commitment: H256)
    ensures
        commitment@ == curve::keccak256(nonce_point@),
{
    curve::keccak(&bytes_to_vec(&nonce_point.bytes))
}

/// The nonce points are revealed as committed, and no two signers reveal the
/// same point.
pub open spec fn reveals_consistent(commitments: Seq<Seq<u8>>, reveals: Seq<Seq<u8>>) -> bool {
    &&& commitments.len() == reveals.len()
    &&& forall|i: int|
        0 <= i < reveals.len() ==> curve::keccak256(#[trigger] reveals[i]) == commitments[i]
    &&& distinct(reveals)
}

/// The bytes of the digests.
pub open spec fn digest_views(digests: Seq<H256>) -> Seq<Seq<u8>> {
    Seq::new(digests.len(), |i: int| digests[i]@)
}

/// Checks the revealed nonce points against the commitments, and that no
/// nonce point occurs twice.
pub fn check_reveals(commitments: &Vec<H256>, reveals: &Vec<Public>) -> (ok: bool)
    ensures
        ok == reveals_consistent(digest_views(commitments@), public_views(reveals@)),
{
    if commitments.len() != reveals.len() {
        return false;
    }
    let mut i: usize = 0;
    while i < reveals.len()
        invariant
            i <= reveals@.len(),
            commitments@.len() == reveals@.len(),
            forall|k: int|
                0 <= k < i ==> curve::keccak256(#[trigger] public_views(reveals@)[k])
                    == digest_views(commitments@)[k],
            forall|j: int, k: int|
                0 <= j < k < i ==> public_views(reveals@)[j] != public_views(reveals@)[k],
        decreases reveals@.len() - i,
    {
        if !nonce_commitment(&reveals[i]).same(&commitments[i]) {
            assert(curve::keccak256(public_views(reveals@)[i as int]) != digest_views(
                commitments@,
            )[i as int]);
            return false;
        }
        let mut j: usize = 0;
        while j < i
            invariant
                j <= i,
                i < reveals@.len(),
                forall|l: int|
                    0 <= l < j ==> public_views(reveals@)[l] != public_views(reveals@)[i as int],
            decreases i - j,
        {
            if reveals[j].same(&reveals[i]) {
                assert(public_views(reveals@)[j as int] == public_views(reveals@)[i as int]);
                return false;
            }
            j += 1;
        }
        i += 1;
    }
    true
}

/// The challenge of a Schnorr signature: the digest of the nonce point, the
/// key's public point and the message's digest.
pub open spec fn challenge_of(nonce_point: Seq<u8>, public: Seq<u8>, message: Seq<u8>) -> Seq<u8> {
    curve::keccak256(nonce_point + public + message)
}

/// Computes the challenge.
pub fn schnorr_challenge(nonce_point: &Public, public: &Public, message: &MessageHash) -> (c:
    Secret)
    ensures
        c@ == challenge_of(nonce_point@, public@, message@),
{
    let mut data = bytes_to_vec(&nonce_point.bytes);
    let mut second = bytes_to_vec(&public.bytes);
    let mut third = bytes_to_vec(&message.bytes);
    data.append(&mut second);
    data.append(&mut third);
    let digest = curve::keccak(&data);
    Secret { bytes: digest.bytes }
}

/// A signer's share of the response: its nonce plus the challenge times its
/// weighted share of the key.
pub open spec fn response_share(nonce: Seq<u8>, challenge: Seq<u8>, shadow: Seq<u8>) -> Option<
    Seq<u8>,
> {
    match curve::scalar_mul(challenge, shadow) {
        None => None,
        Some(product) => curve::scalar_add(nonce, product),
    }
}

/// Computes a signer's share of the response.
pub fn schnorr_signature_share(nonce: &Secret, challenge: &Secret, shadow: &Secret) -> (r: Option<
    Secret,
>)
    ensures
        r is Some <==> response_share(nonce@, challenge@, shadow@) is Some,
        r matches Some(s) ==> response_share(nonce@, challenge@, shadow@) == Some(s@),
{
    match curve::mul_scalars(challenge, shadow) {
        Some(product) => curve::add_scalars(nonce, &product),
        None => None,
    }
}

/// The nonce point that a signature stands for: the base point times the
/// response, less the public point times the challenge.
pub open spec fn signature_point(public: Seq<u8>, challenge: Seq<u8>, response: Seq<u8>) -> Option<
    Seq<u8>,
> {
    match curve::point_mul(GENERATION_POINT@, response) {
        None => None,
        Some(left) => match negated(challenge) {
            None => None,
            Some(minus) => match curve::point_mul(public, minus) {
                None => None,
                Some(right) => curve::point_add(left, right),
            },
        },
    }
}

/// A Schnorr signature is valid when its challenge is the challenge of the
/// nonce point that it stands for.
pub open spec fn schnorr_valid(
    public: Seq<u8>,
    message: Seq<u8>,
    challenge: Seq<u8>,
    response: Seq<u8>,
) -> bool {
    signature_point(public, challenge, response) matches Some(point) && challenge_of(
        point,
        public,
        message,
    ) == challenge
}

/// Verifies a Schnorr signature.
pub fn verify_schnorr(public: &Public, message: &MessageHash, signature: &SchnorrSignature) -> (ok:
    bool)
    ensures
        ok == schnorr_valid(public@, message@, signature.challenge@, signature.response@),
{
    let base = generation_point();
    let left = match curve::mul_point(&base, &signature.response) {
        Some(p) => p,
        None => {
            return false;
        },
    };
    let minus = match negate(&signature.challenge) {
        Some(s) => s,
        None => {
            return false;
        },
    };
    let right = match curve::mul_point(public, &minus) {
        Some(p) => p,
        None => {
            return false;
        },
    };
    match curve::add_points(&left, &right) {
        Some(point) => schnorr_challenge(&point, public, message).same(&signature.challenge),
        None => false,
    }
}

/// The nonce points of the signers: the base point times each nonce.
pub open spec fn nonce_points(nonces: Seq<Seq<u8>>) -> Option<Seq<Seq<u8>>> {
    point_multiples(GENERATION_POINT@, nonces)
}

/// The signers' shares of the response.
pub open spec fn response_shares(
    numbers: Seq<u64>,
    shares: Seq<Seq<u8>>,
    nonces: Seq<Seq<u8>>,
    challenge: Seq<u8>,
) -> Option<Seq<Seq<u8>>> {
    all_defined(
        Seq::new(
            numbers.len(),
            |i: int|
                match shadow_of(number_scalars(numbers), i, shares[i]) {
                    None => None,
                    Some(shadow) => response_share(nonces[i], challenge, shadow),
                },
        ),
    )
}

/// The signature that the signers compute, where the arithmetic is defined
/// and no two of them drew the same nonce.
pub open spec fn schnorr_signature(
    public: Seq<u8>,
    message: Seq<u8>,
    numbers: Seq<u64>,
    shares: Seq<Seq<u8>>,
    nonces: Seq<Seq<u8>>,
) -> Option<(Seq<u8>, Seq<u8>)> {
    if shares.len() != numbers.len() || nonces.len() != numbers.len() {
        None
    } else {
        schnorr_pair(public, message, numbers, shares, nonces)
    }
}

/// The signature of signers of whom each has a number, a share and a nonce.
pub open spec fn schnorr_pair(
    public: Seq<u8>,
    message: Seq<u8>,
    numbers: Seq<u64>,
    shares: Seq<Seq<u8>>,
    nonces: Seq<Seq<u8>>,
) -> Option<(Seq<u8>, Seq<u8>)> {
    match nonce_points(nonces) {
        None => None,
        Some(points) => if !distinct(points) {
            None
        } else {
            match points_sum(points, points.len()) {
                None => None,
                Some(nonce_point) => {
                    let challenge = challenge_of(nonce_point, public, message);
                    match response_shares(numbers, shares, nonces, challenge) {
                        None => None,
                        Some(responses) => match scalars_sum(responses, responses.len()) {
                            None => None,
                            Some(response) => Some((challenge, response)),
                        },
                    }
                },
            }
        },
    }
}

pub(crate) fn reveal_nonces(nonces: &Vec<Secret>) -> (r: Option<Vec<Public>>)
    ensures
        r is Some <==> nonce_points(secret_views(nonces@)) is Some,
        r matches Some(points) ==> nonce_points(secret_views(nonces@)) == Some(
            public_views(points@),
        ),
{
    multiply_point(&generation_point(), nonces)
}

fn respond(numbers: &Vec<u64>, shares: &Vec<Secret>, nonces: &Vec<Secret>, challenge: &Secret) -> (r:
    Option<Vec<Secret>>)
    requires
        numbers@.len() == shares@.len(),
        numbers@.len() == nonces@.len(),
    ensures
        r is Some <==> response_shares(
            numbers@,
            secret_views(shares@),
            secret_views(nonces@),
            challenge@,
        ) is Some,
        r matches Some(responses) ==> response_shares(
            numbers@,
            secret_views(shares@),
            secret_views(nonces@),
            challenge@,
        ) == Some(secret_views(responses@)),
{
    let scalars = scalars_of(numbers);
    let ghost results = Seq::new(
        numbers@.len(),
        |i: int|
            match shadow_of(number_scalars(numbers@), i, secret_views(shares@)[i]) {
                None => None,
                Some(shadow) => response_share(secret_views(nonces@)[i], challenge@, shadow),
            },
    );
    let mut responses: Vec<Secret> = Vec::new();
    let mut i: usize = 0;
    while i < numbers.len()
        invariant
            i <= numbers@.len(),
            numbers@.len() == shares@.len(),
            numbers@.len() == nonces@.len(),
            secret_views(scalars@) == number_scalars(numbers@),
            results == Seq::new(
                numbers@.len(),
                |i: int|
                    match shadow_of(number_scalars(numbers@), i, secret_views(shares@)[i]) {
                        None => None,
                        Some(shadow) => response_share(
                            secret_views(nonces@)[i],
                            challenge@,
                            shadow,
                        ),
                    },
            ),
            responses@.len() == i,
            forall|k: int| 0 <= k < i ==> results[k] == Some((#[trigger] responses@[k])@),
        decreases numbers@.len() - i,
    {
        let response = match node_shadow(&scalars, i, &shares[i]) {
            Some(shadow) => schnorr_signature_share(&nonces[i], challenge, &shadow),
            None => None,
        };
        match response {
            Some(s) => {
                responses.push(s);
            },
            None => {
                assert(results[i as int] is None);
                return None;
            },
        }
        i += 1;
    }
    proof {
        assert forall|k: int| 0 <= k < results.len() implies (#[trigger] results[k]) is Some by {
            assert(results[k] == Some(responses@[k]@));
        }
        assert(secret_views(responses@) =~= all_defined(results)->Some_0);
    }
    Some(responses)
}

/// Runs the round in which every signer commits to its nonce point and then
/// reveals it, and says whether the points may be used: no two of them are
/// the same.
pub(crate) fn commit_and_reveal(reveals: &Vec<Public>) -> (ok: bool)
    ensures
        ok == distinct(public_views(reveals@)),
{
    let mut commitments: Vec<H256> = Vec::new();
    let mut i: usize = 0;
    while i < reveals.len()
        invariant
            i <= reveals@.len(),
            commitments@.len() == i,
            forall|k: int|
                0 <= k < i ==> (#[trigger] commitments@[k])@ == curve::keccak256(reveals@[k]@),
        decreases reveals@.len() - i,
    {
        commitments.push(nonce_commitment(&reveals[i]));
        i += 1;
    }
    check_reveals(&commitments, &reveals)
}

/// Runs a Schnorr signing among signers with the given numbers, shares and
/// nonces. The signature is released only if it is valid.
pub fn sign_schnorr(
    public: &Public,
    message: &MessageHash,
    numbers: &Vec<u64>,
    shares: &Vec<Secret>,
    nonces: &Vec<Secret>,
) -> (r: Option<SchnorrSignature>)
    ensures
        r matches Some(signature) ==> schnorr_valid(
            public@,
            message@,
            signature.challenge@,
            signature.response@,
        ),
        r is Some <==> (schnorr_signature(
            public@,
            message@,
            numbers@,
            secret_views(shares@),
            secret_views(nonces@),
        ) matches Some(pair) && schnorr_valid(public@, message@, pair.0, pair.1)),
        r matches Some(signature) ==> schnorr_signature(
            public@,
            message@,
            numbers@,
            secret_views(shares@),
            secret_views(nonces@),
        ) == Some((signature.challenge@, signature.response@)),
{
    if shares.len() != numbers.len() || nonces.len() != numbers.len() {
        return None;
    }
    let reveals = match reveal_nonces(nonces) {
        Some(points) => points,
        None => {
            return None;
        },
    };
    if !commit_and_reveal(&reveals) {
        return None;
    }
    let nonce_point = match sum_points(&reveals) {
        Some(point) => point,
        None => {
            return None;
        },
    };
    let challenge = schnorr_challenge(&nonce_point, public, message);
    let responses = match respond(numbers, shares, nonces, &challenge) {
        Some(responses) => responses,
        None => {
            return None;
        },
    };
    let response = match sum_scalars(&responses) {
        Some(response) => response,
        None => {
            return None;
        },
    };
    let signature = SchnorrSignature { challenge, response };
    if verify_schnorr(public, message, &signature) {
        Some(signature)
    } else {
        None
    }
}

} // verus!
