//! Document keys. A document key is a point `M`; it is stored blinded under a
//! server key with public point `Y`, as the pair `(k * G, M + k * Y)` for a
//! random scalar `k`. To restore it, each node of a quorum multiplies the
//! common point by its weighted share, negated, and the sum of these partial
//! decryptions is added to the encrypted point.

use vstd::prelude::*;
use crate::curve;
use crate::math::{
    generation_point, lagrange_weight, multiply_point, negate, negated, point_multiples, points_sum,
    public_views, scalar_from, scalars_sum, secret_views, small_scalar, sum_points, sum_scalars,
    weight, GENERATION_POINT,
};
use crate::types::{Public, Secret};

verus! {

/// A document key as it is stored.
#[derive(Clone, Copy, Debug, PartialEq, Eq)]
pub struct DocumentKey {
    /// `k * G`.
    pub common_point: Public,
    /// `M + k * Y`.
    pub encrypted_point: Public,
}

/// A document key, encrypted for the requester.
pub type EncryptedDocumentKey = Vec<u8>;

/// What a shadow decryption returns. The cluster never sees the document key:
/// the requester decrypts the coefficients with its own secret, and adds the
/// common point times their sum to the decrypted secret.
#[derive(Clone, Debug, PartialEq, Eq)]
pub struct EncryptedDocumentKeyShadow {
    /// The document key, short of the blindings.
    pub decrypted_secret: Public,
    /// The common point of the stored pair.
    pub common_point: Public,
    /// One coefficient for each node that took part, encrypted for the
    /// requester.
    pub decrypt_shadows: Vec<Vec<u8>>,
}

/// The pair under which `document_key` is stored, for the scalar `k` and the
/// server key's public point.
pub open spec fn blinded(document_key: Seq<u8>, k: Seq<u8>, joint_public: Seq<u8>) -> Option<
    (Seq<u8>, Seq<u8>),
> {
    match curve::point_mul(GENERATION_POINT@, k) {
        None => None,
        Some(common) => match curve::point_mul(joint_public, k) {
            None => None,
            Some(mask) => match curve::point_add(document_key, mask) {
                None => None,
                Some(encrypted) => Some((common, encrypted)),
            },
        },
    }
}

/// Blinds a document key under a server key.
pub fn encrypt_document_key(document_key: &Public, k: &Secret, joint_public: &Public) -> (r:
    Option<DocumentKey>)
    ensures
        r is Some <==> blinded(document_key@, k@, joint_public@) is Some,
        r matches Some(pair) ==> blinded(document_key@, k@, joint_public@) == Some(
            (pair.common_point@, pair.encrypted_point@),
        ),
{
    let base = generation_point();
    let common_point = match curve::mul_point(&base, k) {
        Some(p) => p,
        None => {
            return None;
        },
    };
    let mask = match curve::mul_point(joint_public, k) {
        Some(p) => p,
        None => {
            return None;
        },
    };
    match curve::add_points(document_key, &mask) {
        Some(encrypted_point) => Some(DocumentKey { common_point, encrypted_point }),
        None => None,
    }
}

/// A node's share, weighted for the quorum whose numbers are `numbers`: the
/// Lagrange weight of the node's number times the share. `index` is the place
/// of the node's number among the numbers.
pub open spec fn shadow_of(numbers: Seq<Seq<u8>>, index: int, share: Seq<u8>) -> Option<Seq<u8>> {
    if 0 <= index < numbers.len() {
        match weight(numbers, index, numbers.len()) {
            None => None,
            Some(w) => curve::scalar_mul(w, share),
        }
    } else {
        None
    }
}

/// Weights a node's share for a quorum.
pub fn node_shadow(numbers: &Vec<Secret>, index: usize, share: &Secret) -> (r: Option<Secret>)
    ensures
        r is Some <==> shadow_of(secret_views(numbers@), index as int, share@) is Some,
        r matches Some(s) ==> shadow_of(secret_views(numbers@), index as int, share@) == Some(s@),
{
    match lagrange_weight(numbers, index) {
        Some(w) => curve::mul_scalars(&w, share),
        None => None,
    }
}

/// A node's partial decryption: the common point times the negated shadow.
/// With a blinding, the shadow is first increased by it, so that whoever
/// combines the partial decryptions is left short of the document key by the
/// blinding times the common point.
pub open spec fn partial_of(shadow: Seq<u8>, blinding: Option<Seq<u8>>, common_point: Seq<u8>)
    -> Option<Seq<u8>> {
    let masked = match blinding {
        None => Some(shadow),
        Some(b) => curve::scalar_add(shadow, b),
    };
    match masked {
        None => None,
        Some(m) => match negated(m) {
            None => None,
            Some(n) => curve::point_mul(common_point, n),
        },
    }
}

/// Computes a node's partial decryption.
pub fn partial_decryption(shadow: &Secret, blinding: Option<&Secret>, common_point: &Public) -> (r:
    Option<Public>)
    ensures
        r is Some <==> partial_of(shadow@, blinding_view(blinding), common_point@) is Some,
        r matches Some(p) ==> partial_of(shadow@, blinding_view(blinding), common_point@) == Some(
            p@,
        ),
{
    let masked = match blinding {
        None => *shadow,
        Some(b) => match curve::add_scalars(shadow, b) {
            Some(m) => m,
            None => {
                return None;
            },
        },
    };
    match negate(&masked) {
        Some(n) => curve::mul_point(common_point, &n),
        None => None,
    }
}

/// The bytes of a blinding, where there is one.
pub open spec fn blinding_view(blinding: Option<&Secret>) -> Option<Seq<u8>> {
    match blinding {
        Some(b) => Some(b@),
        None => None,
    }
}

/// The encrypted point plus the sum of the partial decryptions.
pub open spec fn decrypted(encrypted_point: Seq<u8>, partials: Seq<Seq<u8>>) -> Option<Seq<u8>> {
    match points_sum(partials, partials.len()) {
        None => None,
        Some(sum) => curve::point_add(encrypted_point, sum),
    }
}

/// Adds the partial decryptions of a quorum to the encrypted point.
pub fn combine_decryptions(encrypted_point: &Public, partials: &Vec<Public>) -> (r: Option<Public>)
    ensures
        r is Some <==> decrypted(encrypted_point@, public_views(partials@)) is Some,
        r matches Some(p) ==> decrypted(encrypted_point@, public_views(partials@)) == Some(p@),
{
    match sum_points(partials) {
        Some(sum) => curve::add_points(encrypted_point, &sum),
        None => None,
    }
}

/// What the requester of a shadow decryption computes: the decrypted secret
/// plus the common point times the sum of the coefficients.
pub open spec fn unshadowed(
    decrypted_secret: Seq<u8>,
    common_point: Seq<u8>,
    coefficients: Seq<Seq<u8>>,
) -> Option<Seq<u8>> {
    match scalars_sum(coefficients, coefficients.len()) {
        None => None,
        Some(sum) => match curve::point_mul(common_point, sum) {
            None => None,
            Some(shadow_point) => curve::point_add(decrypted_secret, shadow_point),
        },
    }
}

/// The requester's last step of a shadow decryption, once it has decrypted
/// the coefficients with its own secret.
pub fn decrypt_with_shadow_coefficients(
    decrypted_secret: &Public,
    common_point: &Public,
    coefficients: &Vec<Secret>,
) -> (r: Option<Public>)
    ensures
        r is Some <==> unshadowed(decrypted_secret@, common_point@, secret_views(coefficients@))
            is Some,
        r matches Some(p) ==> unshadowed(
            decrypted_secret@,
            common_point@,
            secret_views(coefficients@),
        ) == Some(p@),
{
    let sum = match sum_scalars(coefficients) {
        Some(s) => s,
        None => {
            return None;
        },
    };
    match curve::mul_point(common_point, &sum) {
        Some(shadow_point) => curve::add_points(decrypted_secret, &shadow_point),
        None => None,
    }
}

/// The scalars that stand for a quorum's numbers.
pub open spec fn number_scalars(numbers: Seq<u64>) -> Seq<Seq<u8>> {
    Seq::new(numbers.len(), |i: int| small_scalar(numbers[i]))
}

/// Turns the numbers of a quorum into scalars.
pub fn scalars_of(numbers: &Vec<u64>) -> (scalars: Vec<Secret>)
    ensures
        secret_views(scalars@) == number_scalars(numbers@),
{
    let mut scalars: Vec<Secret> = Vec::new();
    let mut i: usize = 0;
    while i < numbers.len()
        invariant
            i <= numbers@.len(),
            scalars@.len() == i,
            forall|k: int| 0 <= k < i ==> (#[trigger] scalars@[k])@ == small_scalar(numbers@[k]),
        decreases numbers@.len() - i,
    {
        scalars.push(scalar_from(numbers[i]));
        i += 1;
    }
    assert(secret_views(scalars@) =~= number_scalars(numbers@));
    scalars
}

/// The partial decryptions of the first `count` members of a quorum, each
/// made from the member's own share. `blindings` holds one scalar for each
/// member in a shadow decryption.
pub open spec fn partials_of(
    numbers: Seq<u64>,
    shares: Seq<Seq<u8>>,
    blindings: Option<Seq<Seq<u8>>>,
    common_point: Seq<u8>,
    count: nat,
) -> Option<Seq<Seq<u8>>>
    decreases count,
{
    if count == 0 {
        Some(Seq::empty())
    } else {
        match partials_of(numbers, shares, blindings, common_point, (count - 1) as nat) {
            None => None,
            Some(first) => match member_partial(
                numbers,
                shares,
                blindings,
                common_point,
                count - 1,
            ) {
                None => None,
                Some(partial) => Some(first.push(partial)),
            },
        }
    }
}

/// The partial decryption of one member of a quorum.
pub open spec fn member_partial(
    numbers: Seq<u64>,
    shares: Seq<Seq<u8>>,
    blindings: Option<Seq<Seq<u8>>>,
    common_point: Seq<u8>,
    index: int,
) -> Option<Seq<u8>> {
    match shadow_of(number_scalars(numbers), index, shares[index]) {
        None => None,
        Some(shadow) => partial_of(
            shadow,
            match blindings {
                Some(b) => Some(b[index]),
                None => None,
            },
            common_point,
        ),
    }
}

proof fn lemma_partials_stay_undefined(
    numbers: Seq<u64>,
    shares: Seq<Seq<u8>>,
    blindings: Option<Seq<Seq<u8>>>,
    common_point: Seq<u8>,
    from: nat,
    to: nat,
)
    requires
        from <= to,
        partials_of(numbers, shares, blindings, common_point, from) is None,
    ensures
        partials_of(numbers, shares, blindings, common_point, to) is None,
    decreases to - from,
{
    if from < to {
        lemma_partials_stay_undefined(
            numbers,
            shares,
            blindings,
            common_point,
            from,
            (to - 1) as nat,
        );
    }
}

/// The document key that a quorum restores: the encrypted point plus the
/// members' partial decryptions. In a shadow decryption this is the document
/// key less the sum of the blindings times the common point. Every member
/// has a number and a share, and in a shadow decryption a blinding.
pub open spec fn restored(
    key: DocumentKey,
    numbers: Seq<u64>,
    shares: Seq<Seq<u8>>,
    blindings: Option<Seq<Seq<u8>>>,
) -> Option<Seq<u8>> {
    if shares.len() != numbers.len() || (blindings matches Some(b) && b.len() != numbers.len()) {
        None
    } else {
        match partials_of(numbers, shares, blindings, key.common_point@, numbers.len()) {
            None => None,
            Some(partials) => decrypted(key.encrypted_point@, partials),
        }
    }
}

/// The bytes of the blindings, where there are any.
pub open spec fn blindings_view(blindings: Option<&Vec<Secret>>) -> Option<Seq<Seq<u8>>> {
    match blindings {
        Some(b) => Some(secret_views(b@)),
        None => None,
    }
}

/// Runs a decryption among the members of a quorum: each member's partial
/// decryption is made from its own number and share, and the partial
/// decryptions are added to the encrypted point.
pub fn restore(
    key: &DocumentKey,
    numbers: &Vec<u64>,
    shares: &Vec<Secret>,
    blindings: Option<&Vec<Secret>>,
) -> (r: Option<Public>)
    ensures
        r is Some <==> restored(*key, numbers@, secret_views(shares@), blindings_view(blindings))
            is Some,
        r matches Some(p) ==> restored(
            *key,
            numbers@,
            secret_views(shares@),
            blindings_view(blindings),
        ) == Some(p@),
{
    if shares.len() != numbers.len() {
        return None;
    }
    match blindings {
        Some(b) => {
            if b.len() != numbers.len() {
                return None;
            }
        },
        None => {},
    }
    let scalars = scalars_of(numbers);
    let mut partials: Vec<Public> = Vec::new();
    let mut i: usize = 0;
    while i < numbers.len()
        invariant
            i <= numbers@.len(),
            numbers@.len() == shares@.len(),
            blindings matches Some(b) ==> b@.len() == numbers@.len(),
            secret_views(scalars@) == number_scalars(numbers@),
            partials_of(
                numbers@,
                secret_views(shares@),
                blindings_view(blindings),
                key.common_point@,
                i as nat,
            ) == Some(public_views(partials@)),
        decreases numbers@.len() - i,
    {
        let blinding = match blindings {
            Some(b) => Some(&b[i]),
            None => None,
        };
        let partial = match node_shadow(&scalars, i, &shares[i]) {
            Some(shadow) => partial_decryption(&shadow, blinding, &key.common_point),
            None => None,
        };
        match partial {
            Some(p) => {
                let ghost before = public_views(partials@);
                partials.push(p);
                assert(public_views(partials@) =~= before.push(p@));
            },
            None => {
                proof {
                    lemma_partials_stay_undefined(
                        numbers@,
                        secret_views(shares@),
                        blindings_view(blindings),
                        key.common_point@,
                        (i + 1) as nat,
                        numbers@.len(),
                    );
                }
                return None;
            },
        }
        i += 1;
    }
    combine_decryptions(&key.encrypted_point, &partials)
}

/// The document key that the cluster makes, and the pair under which it is
/// stored: every contributor gives a scalar for the document key and a scalar
/// for the blinding, as the base point times the one, and the base point and
/// the server key's public point times the other. The document key is the sum
/// of the first points, the common point the sum of the second, and the
/// encrypted point the document key plus the sum of the third.
pub open spec fn collective(
    document_parts: Seq<Seq<u8>>,
    blinding_parts: Seq<Seq<u8>>,
    joint_public: Seq<u8>,
) -> Option<(Seq<u8>, Seq<u8>, Seq<u8>)> {
    match point_multiples(GENERATION_POINT@, document_parts) {
        None => None,
        Some(parts) => match points_sum(parts, parts.len()) {
            None => None,
            Some(document_key) => match point_multiples(GENERATION_POINT@, blinding_parts) {
                None => None,
                Some(commons) => match points_sum(commons, commons.len()) {
                    None => None,
                    Some(common) => match point_multiples(joint_public, blinding_parts) {
                        None => None,
                        Some(masks) => match points_sum(masks, masks.len()) {
                            None => None,
                            Some(mask) => match curve::point_add(document_key, mask) {
                                None => None,
                                Some(encrypted) => Some((document_key, common, encrypted)),
                            },
                        },
                    },
                },
            },
        },
    }
}

/// Makes a document key from the contributions of several nodes, and blinds
/// it under a server key. No contributor's scalar is handed to another.
pub fn collective_document_key(
    document_parts: &Vec<Secret>,
    blinding_parts: &Vec<Secret>,
    joint_public: &Public,
) -> (r: Option<(Public, DocumentKey)>)
    ensures
        r is Some <==> collective(
            secret_views(document_parts@),
            secret_views(blinding_parts@),
            joint_public@,
        ) is Some,
        r matches Some((document_key, pair)) ==> collective(
            secret_views(document_parts@),
            secret_views(blinding_parts@),
            joint_public@,
        ) == Some((document_key@, pair.common_point@, pair.encrypted_point@)),
{
    let base = generation_point();
    let document_key = match multiply_point(&base, document_parts) {
        Some(parts) => match sum_points(&parts) {
            Some(sum) => sum,
            None => {
                return None;
            },
        },
        None => {
            return None;
        },
    };
    let common_point = match multiply_point(&base, blinding_parts) {
        Some(parts) => match sum_points(&parts) {
            Some(sum) => sum,
            None => {
                return None;
            },
        },
        None => {
            return None;
        },
    };
    let mask = match multiply_point(joint_public, blinding_parts) {
        Some(parts) => match sum_points(&parts) {
            Some(sum) => sum,
            None => {
                return None;
            },
        },
        None => {
            return None;
        },
    };
    match curve::add_points(&document_key, &mask) {
        Some(encrypted_point) => Some((document_key, DocumentKey { common_point, encrypted_point })),
        None => None,
    }
}

} // verus!
