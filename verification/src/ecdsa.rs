//! Threshold ECDSA. A signature over a digest `z` with the key `x` is the
//! pair `(r, s)`, where `r` is the first coordinate of the nonce point `k * G`
//! and `s = (z + r * x) / k`. The signers share a nonce `k` and a mask `a`,
//! each by dealing a polynomial. The product `k * a` is opened, so that its
//! inverse times a signer's share of `a` is the signer's share of `1 / k`.
//! The shares of the product and of `s` lie on polynomials of twice the
//! degree of the key's: twice the threshold plus one signers are needed.

use vstd::prelude::*;
use crate::curve;
use crate::document_key::{number_scalars, scalars_of};
use crate::math::{
    all_defined, inverse, invert, lagrange_weight, points_sum, scalars_sum, secret_views,
    sum_points, sum_scalars, weight,
};
use crate::servers_set::distinct;
use crate::sharing::{joint_values, polynomial_views, values_at};
use crate::signing::{commit_and_reveal, nonce_points, reveal_nonces};
use crate::types::{MessageHash, Public, Secret, Signature};

verus! {

/// The value at zero of the polynomial that takes the given values at the
/// signers' numbers: the sum of the values, each times its Lagrange weight.
pub open spec fn interpolated(values: Seq<Seq<u8>>, numbers: Seq<u64>) -> Option<Seq<u8>> {
    if values.len() != numbers.len() {
        None
    } else {
        weighted_sum(values, numbers)
    }
}

/// The sum of the values, each times the Lagrange weight of its number.
pub open spec fn weighted_sum(values: Seq<Seq<u8>>, numbers: Seq<u64>) -> Option<Seq<u8>> {
    match all_defined(
        Seq::new(
            numbers.len(),
            |j: int|
                match weight(number_scalars(numbers), j, numbers.len()) {
                    None => None,
                    Some(w) => curve::scalar_mul(w, values[j]),
                },
        ),
    ) {
        None => None,
        Some(terms) => scalars_sum(terms, terms.len()),
    }
}

/// Interpolates at zero.
pub fn interpolate(values: &Vec<Secret>, numbers: &Vec<u64>) -> (r: Option<Secret>)
    ensures
        r is Some <==> interpolated(secret_views(values@), numbers@) is Some,
        r matches Some(s) ==> interpolated(secret_views(values@), numbers@) == Some(s@),
{
    if values.len() != numbers.len() {
        return None;
    }
    let scalars = scalars_of(numbers);
    assert(secret_views(scalars@).len() == scalars@.len());
    let ghost results = Seq::new(
        numbers@.len(),
        |j: int|
            match weight(number_scalars(numbers@), j, numbers@.len()) {
                None => None,
                Some(w) => curve::scalar_mul(w, secret_views(values@)[j]),
            },
    );
    let mut terms: Vec<Secret> = Vec::new();
    let mut j: usize = 0;
    while j < numbers.len()
        invariant
            j <= numbers@.len(),
            values@.len() == numbers@.len(),
            scalars@.len() == numbers@.len(),
            secret_views(scalars@) == number_scalars(numbers@),
            results == Seq::new(
                numbers@.len(),
                |j: int|
                    match weight(number_scalars(numbers@), j, numbers@.len()) {
                        None => None,
                        Some(w) => curve::scalar_mul(w, secret_views(values@)[j]),
                    },
            ),
            terms@.len() == j,
            forall|k: int| 0 <= k < j ==> results[k] == Some((#[trigger] terms@[k])@),
        decreases numbers@.len() - j,
    {
        let term = match lagrange_weight(&scalars, j) {
            Some(w) => curve::mul_scalars(&w, &values[j]),
            None => None,
        };
        match term {
            Some(t) => {
                terms.push(t);
            },
            None => {
                assert(results[j as int] is None);
                return None;
            },
        }
        j += 1;
    }
    proof {
        assert forall|k: int| 0 <= k < results.len() implies (#[trigger] results[k]) is Some by {
            assert(results[k] == Some(terms@[k]@));
        }
        assert(secret_views(terms@) =~= all_defined(results)->Some_0);
    }
    sum_scalars(&terms)
}

/// The products of the signers' shares of the nonce and of the mask.
pub open spec fn products(nonces: Seq<Seq<u8>>, masks: Seq<Seq<u8>>) -> Option<Seq<Seq<u8>>> {
    all_defined(Seq::new(nonces.len(), |j: int| curve::scalar_mul(nonces[j], masks[j])))
}

fn multiply(nonces: &Vec<Secret>, masks: &Vec<Secret>) -> (r: Option<Vec<Secret>>)
    requires
        nonces@.len() == masks@.len(),
    ensures
        r is Some <==> products(secret_views(nonces@), secret_views(masks@)) is Some,
        r matches Some(p) ==> products(secret_views(nonces@), secret_views(masks@)) == Some(
            secret_views(p@),
        ) && p@.len() == nonces@.len(),
{
    let ghost results = Seq::new(
        nonces@.len(),
        |j: int| curve::scalar_mul(secret_views(nonces@)[j], secret_views(masks@)[j]),
    );
    let mut out: Vec<Secret> = Vec::new();
    let mut j: usize = 0;
    while j < nonces.len()
        invariant
            j <= nonces@.len(),
            nonces@.len() == masks@.len(),
            results == Seq::new(
                nonces@.len(),
                |j: int| curve::scalar_mul(secret_views(nonces@)[j], secret_views(masks@)[j]),
            ),
            out@.len() == j,
            forall|k: int| 0 <= k < j ==> results[k] == Some((#[trigger] out@[k])@),
        decreases nonces@.len() - j,
    {
        match curve::mul_scalars(&nonces[j], &masks[j]) {
            Some(product) => {
                out.push(product);
            },
            None => {
                assert(results[j as int] is None);
                return None;
            },
        }
        j += 1;
    }
    proof {
        assert forall|k: int| 0 <= k < results.len() implies (#[trigger] results[k]) is Some by {
            assert(results[k] == Some(out@[k]@));
        }
        assert(secret_views(out@) =~= all_defined(results)->Some_0);
    }
    Some(out)
}

/// A signer's share of `s`: its share of the inverse of the nonce, which is
/// its share of the mask over the opened product, times the digest plus `r`
/// times its share of the key.
pub open spec fn signature_share(
    mask: Seq<u8>,
    opened_inverse: Seq<u8>,
    digest: Seq<u8>,
    r: Seq<u8>,
    share: Seq<u8>,
) -> Option<Seq<u8>> {
    match curve::scalar_mul(mask, opened_inverse) {
        None => None,
        Some(inverse_share) => match curve::scalar_mul(r, share) {
            None => None,
            Some(keyed) => match curve::scalar_add(digest, keyed) {
                None => None,
                Some(signed) => curve::scalar_mul(inverse_share, signed),
            },
        },
    }
}

/// Computes a signer's share of `s`.
pub fn ecdsa_signature_share(
    mask: &Secret,
    opened_inverse: &Secret,
    digest: &Secret,
    r: &Secret,
    share: &Secret,
) -> (out: Option<Secret>)
    ensures
        out is Some <==> signature_share(mask@, opened_inverse@, digest@, r@, share@) is Some,
        out matches Some(s) ==> signature_share(mask@, opened_inverse@, digest@, r@, share@)
            == Some(s@),
{
    let inverse_share = match curve::mul_scalars(mask, opened_inverse) {
        Some(s) => s,
        None => {
            return None;
        },
    };
    let keyed = match curve::mul_scalars(r, share) {
        Some(s) => s,
        None => {
            return None;
        },
    };
    match curve::add_scalars(digest, &keyed) {
        Some(signed) => curve::mul_scalars(&inverse_share, &signed),
        None => None,
    }
}

/// The signers' shares of `s`.
pub open spec fn signature_shares(
    masks: Seq<Seq<u8>>,
    opened_inverse: Seq<u8>,
    digest: Seq<u8>,
    r: Seq<u8>,
    shares: Seq<Seq<u8>>,
) -> Option<Seq<Seq<u8>>> {
    all_defined(
        Seq::new(
            masks.len(),
            |j: int| signature_share(masks[j], opened_inverse, digest, r, shares[j]),
        ),
    )
}

fn share_signature(
    masks: &Vec<Secret>,
    opened_inverse: &Secret,
    digest: &Secret,
    r: &Secret,
    shares: &Vec<Secret>,
) -> (out: Option<Vec<Secret>>)
    requires
        masks@.len() == shares@.len(),
    ensures
        out is Some <==> signature_shares(
            secret_views(masks@),
            opened_inverse@,
            digest@,
            r@,
            secret_views(shares@),
        ) is Some,
        out matches Some(s) ==> signature_shares(
            secret_views(masks@),
            opened_inverse@,
            digest@,
            r@,
            secret_views(shares@),
        ) == Some(secret_views(s@)) && s@.len() == masks@.len(),
{
    let ghost results = Seq::new(
        masks@.len(),
        |j: int|
            signature_share(
                secret_views(masks@)[j],
                opened_inverse@,
                digest@,
                r@,
                secret_views(shares@)[j],
            ),
    );
    let mut out: Vec<Secret> = Vec::new();
    let mut j: usize = 0;
    while j < masks.len()
        invariant
            j <= masks@.len(),
            masks@.len() == shares@.len(),
            results == Seq::new(
                masks@.len(),
                |j: int|
                    signature_share(
                        secret_views(masks@)[j],
                        opened_inverse@,
                        digest@,
                        r@,
                        secret_views(shares@)[j],
                    ),
            ),
            out@.len() == j,
            forall|k: int| 0 <= k < j ==> results[k] == Some((#[trigger] out@[k])@),
        decreases masks@.len() - j,
    {
        match ecdsa_signature_share(&masks[j], opened_inverse, digest, r, &shares[j]) {
            Some(s) => {
                out.push(s);
            },
            None => {
                assert(results[j as int] is None);
                return None;
            },
        }
        j += 1;
    }
    proof {
        assert forall|k: int| 0 <= k < results.len() implies (#[trigger] results[k]) is Some by {
            assert(results[k] == Some(out@[k]@));
        }
        assert(secret_views(out@) =~= all_defined(results)->Some_0);
    }
    Some(out)
}

/// The constant terms of the polynomials, where none of them is empty.
pub open spec fn constants(polynomials: Seq<Seq<Seq<u8>>>) -> Option<Seq<Seq<u8>>> {
    if forall|i: int| 0 <= i < polynomials.len() ==> (#[trigger] polynomials[i]).len() > 0 {
        Some(Seq::new(polynomials.len(), |i: int| polynomials[i][0]))
    } else {
        None
    }
}

fn constants_of(polynomials: &Vec<Vec<Secret>>) -> (r: Option<Vec<Secret>>)
    ensures
        r is Some <==> constants(polynomial_views(polynomials@)) is Some,
        r matches Some(c) ==> constants(polynomial_views(polynomials@)) == Some(
            secret_views(c@),
        ),
{
    let mut out: Vec<Secret> = Vec::new();
    let mut i: usize = 0;
    while i < polynomials.len()
        invariant
            i <= polynomials@.len(),
            out@.len() == i,
            forall|k: int|
                0 <= k < i ==> (#[trigger] polynomial_views(polynomials@)[k]).len() > 0
                    && polynomial_views(polynomials@)[k][0] == out@[k]@,
        decreases polynomials@.len() - i,
    {
        if polynomials[i].len() == 0 {
            assert(polynomial_views(polynomials@)[i as int].len() == 0);
            return None;
        }
        out.push(polynomials[i][0]);
        i += 1;
    }
    assert(secret_views(out@) =~= constants(polynomial_views(polynomials@))->Some_0);
    Some(out)
}

/// The nonce point: the sum of the base point times each dealer's constant
/// term. No two dealers may share a nonce with the same constant term.
pub open spec fn nonce_point(polynomials: Seq<Seq<Seq<u8>>>) -> Option<Seq<u8>> {
    match constants(polynomials) {
        None => None,
        Some(terms) => match nonce_points(terms) {
            None => None,
            Some(points) => if distinct(points) {
                points_sum(points, points.len())
            } else {
                None
            },
        },
    }
}

fn nonce_point_of(polynomials: &Vec<Vec<Secret>>) -> (r: Option<Public>)
    ensures
        r is Some <==> nonce_point(polynomial_views(polynomials@)) is Some,
        r matches Some(p) ==> nonce_point(polynomial_views(polynomials@)) == Some(p@),
{
    let terms = match constants_of(polynomials) {
        Some(terms) => terms,
        None => {
            return None;
        },
    };
    let points = match reveal_nonces(&terms) {
        Some(points) => points,
        None => {
            return None;
        },
    };
    if !commit_and_reveal(&points) {
        return None;
    }
    sum_points(&points)
}

/// The pair `(r, s)` that the signers compute, where the arithmetic is
/// defined.
pub open spec fn ecdsa_pair(
    digest: Seq<u8>,
    numbers: Seq<u64>,
    shares: Seq<Seq<u8>>,
    nonce_polynomials: Seq<Seq<Seq<u8>>>,
    mask_polynomials: Seq<Seq<Seq<u8>>>,
) -> Option<(Seq<u8>, Seq<u8>)> {
    match nonce_point(nonce_polynomials) {
        None => None,
        Some(point) => match joint_values(nonce_polynomials, numbers) {
            None => None,
            Some(nonces) => match joint_values(mask_polynomials, numbers) {
                None => None,
                Some(masks) => match products(nonces, masks) {
                    None => None,
                    Some(multiplied) => match interpolated(multiplied, numbers) {
                        None => None,
                        Some(opened) => match inverse(opened) {
                            None => None,
                            Some(opened_inverse) => match signature_shares(
                                masks,
                                opened_inverse,
                                digest,
                                point.take(32),
                                shares,
                            ) {
                                None => None,
                                Some(parts) => match interpolated(parts, numbers) {
                                    None => None,
                                    Some(s) => Some((point.take(32), s)),
                                },
                            },
                        },
                    },
                },
            },
        },
    }
}

/// The bytes of a signature: `r`, `s` and the recovery byte.
pub open spec fn signature_bytes(r: Seq<u8>, s: Seq<u8>, recovery: u8) -> Seq<u8> {
    r + s + seq![recovery]
}

/// Whether the signature with the given recovery byte recovers the key's
/// public point from the digest.
pub open spec fn recovers(public: Seq<u8>, digest: Seq<u8>, r: Seq<u8>, s: Seq<u8>, recovery: u8)
    -> bool {
    curve::recovered_public(signature_bytes(r, s, recovery), digest) == Some(public)
}

/// The signature for a pair `(r, s)`: with the recovery byte 0 or 1,
/// whichever recovers the key's public point; none where neither does.
pub open spec fn recoverable(public: Seq<u8>, digest: Seq<u8>, r: Seq<u8>, s: Seq<u8>) -> Option<
    Seq<u8>,
> {
    if recovers(public, digest, r, s, 0) {
        Some(signature_bytes(r, s, 0))
    } else if recovers(public, digest, r, s, 1) {
        Some(signature_bytes(r, s, 1))
    } else {
        None
    }
}

fn assemble(r: &Secret, s: &Secret, recovery: u8) -> (signature: Signature)
    ensures
        signature@ == signature_bytes(r@, s@, recovery),
{
    let mut bytes = [0u8; 65];
    let mut i: usize = 0;
    while i < 32
        invariant
            i <= 32,
            forall|k: int| 0 <= k < i ==> bytes@[k] == r@[k] && bytes@[32 + k] == s@[k],
        decreases 32 - i,
    {
        bytes[i] = r.bytes[i];
        bytes[32 + i] = s.bytes[i];
        i += 1;
    }
    bytes[64] = recovery;
    assert(bytes@ =~= signature_bytes(r@, s@, recovery));
    Signature { bytes }
}

fn make_recoverable(public: &Public, digest: &MessageHash, r: &Secret, s: &Secret) -> (out: Option<
    Signature,
>)
    ensures
        out is Some <==> recoverable(public@, digest@, r@, s@) is Some,
        out matches Some(signature) ==> recoverable(public@, digest@, r@, s@) == Some(signature@),
{
    let first = assemble(r, s, 0);
    let found = match curve::recover(&first, digest) {
        Some(recovered) => recovered.same(public),
        None => false,
    };
    if found {
        return Some(first);
    }
    let second = assemble(r, s, 1);
    let found = match curve::recover(&second, digest) {
        Some(recovered) => recovered.same(public),
        None => false,
    };
    if found {
        Some(second)
    } else {
        None
    }
}

/// The signature that the signers compute, if it recovers the key's public
/// point.
pub open spec fn ecdsa_signature(
    public: Seq<u8>,
    digest: Seq<u8>,
    numbers: Seq<u64>,
    shares: Seq<Seq<u8>>,
    nonce_polynomials: Seq<Seq<Seq<u8>>>,
    mask_polynomials: Seq<Seq<Seq<u8>>>,
) -> Option<Seq<u8>> {
    if shares.len() != numbers.len() {
        None
    } else {
        match ecdsa_pair(digest, numbers, shares, nonce_polynomials, mask_polynomials) {
            None => None,
            Some(pair) => recoverable(public, digest, pair.0, pair.1),
        }
    }
}

/// Runs an ECDSA signing among signers with the given numbers and shares,
/// who deal the given polynomials for the nonce and for the mask. The
/// signature is released only if it recovers the key's public point.
pub fn sign_ecdsa(
    public: &Public,
    digest: &MessageHash,
    numbers: &Vec<u64>,
    shares: &Vec<Secret>,
    nonce_polynomials: &Vec<Vec<Secret>>,
    mask_polynomials: &Vec<Vec<Secret>>,
) -> (out: Option<Signature>)
    ensures
        out is Some <==> ecdsa_signature(
            public@,
            digest@,
            numbers@,
            secret_views(shares@),
            polynomial_views(nonce_polynomials@),
            polynomial_views(mask_polynomials@),
        ) is Some,
        out matches Some(signature) ==> ecdsa_signature(
            public@,
            digest@,
            numbers@,
            secret_views(shares@),
            polynomial_views(nonce_polynomials@),
            polynomial_views(mask_polynomials@),
        ) == Some(signature@) && curve::recovered_public(signature@, digest@) == Some(public@),
{
    if shares.len() != numbers.len() {
        return None;
    }
    let point = match nonce_point_of(nonce_polynomials) {
        Some(point) => point,
        None => {
            return None;
        },
    };
    let nonces = match values_at(nonce_polynomials, numbers) {
        Some(values) => values,
        None => {
            return None;
        },
    };
    let masks = match values_at(mask_polynomials, numbers) {
        Some(values) => values,
        None => {
            return None;
        },
    };
    let multiplied = match multiply(&nonces, &masks) {
        Some(values) => values,
        None => {
            return None;
        },
    };
    let opened = match interpolate(&multiplied, numbers) {
        Some(value) => value,
        None => {
            return None;
        },
    };
    let opened_inverse = match invert(&opened) {
        Some(value) => value,
        None => {
            return None;
        },
    };
    let mut first = [0u8; 32];
    let mut i: usize = 0;
    while i < 32
        invariant
            i <= 32,
            forall|k: int| 0 <= k < i ==> first@[k] == point@[k],
        decreases 32 - i,
    {
        first[i] = point.bytes[i];
        i += 1;
    }
    let r = Secret { bytes: first };
    assert(r@ =~= point@.take(32));
    let digest_scalar = Secret { bytes: digest.bytes };
    let parts = match share_signature(&masks, &opened_inverse, &digest_scalar, &r, shares) {
        Some(values) => values,
        None => {
            return None;
        },
    };
    let s = match interpolate(&parts, numbers) {
        Some(value) => value,
        None => {
            return None;
        },
    };
    make_recoverable(public, digest, &r, &s)
}

} // verus!
