//! Dealing and checking shares. A dealer commits to the coefficients of its
//! polynomial; whoever receives a share checks it against the commitments.

use vstd::prelude::*;
use crate::curve;
use crate::math::{
    all_defined, evaluate_polynomial, generation_point, multiply_point, point_multiples,
    polynomial_value, public_views, scalar_from, scalars_sum, secret_views, small_scalar,
    sum_scalars, GENERATION_POINT,
};
use crate::types::{Public, Secret};

verus! {

/// The point at which the sharing polynomials are evaluated for the node at a
/// position of the servers set: the position plus one, never zero.
pub open spec fn node_number(position: int) -> Seq<u8> {
    small_scalar((position + 1) as u64)
}

/// The commitments to the coefficients of a polynomial: the base point
/// times each coefficient.
pub open spec fn commitments_of(coefficients: Seq<Seq<u8>>) -> Option<Seq<Seq<u8>>> {
    point_multiples(GENERATION_POINT@, coefficients)
}

/// Commits to a polynomial.
pub fn commit(coefficients: &Vec<Secret>) -> (r: Option<Vec<Public>>)
    ensures
        r is Some <==> commitments_of(secret_views(coefficients@)) is Some,
        r matches Some(points) ==> commitments_of(secret_views(coefficients@)) == Some(
            public_views(points@),
        ),
{
    multiply_point(&generation_point(), coefficients)
}

/// The shares that a polynomial gives to the nodes at the first `count`
/// positions.
pub open spec fn shares_of(coefficients: Seq<Seq<u8>>, count: nat) -> Option<Seq<Seq<u8>>>
    decreases count,
{
    if count == 0 {
        Some(Seq::empty())
    } else {
        match shares_of(coefficients, (count - 1) as nat) {
            None => None,
            Some(first) => match polynomial_value(coefficients, node_number(count - 1), 0) {
                None => None,
                Some(share) => Some(first.push(share)),
            },
        }
    }
}

proof fn lemma_shares_stay_undefined(coefficients: Seq<Seq<u8>>, from: nat, to: nat)
    requires
        from <= to,
        shares_of(coefficients, from) is None,
    ensures
        shares_of(coefficients, to) is None,
    decreases to - from,
{
    if from < to {
        lemma_shares_stay_undefined(coefficients, from, (to - 1) as nat);
    }
}

/// The number of the node at a position.
pub fn number_of(position: usize) -> (number: Secret)
    requires
        position < usize::MAX,
    ensures
        number@ == node_number(position as int),
{
    scalar_from((position + 1) as u64)
}

/// Evaluates a polynomial for each of `nodes` nodes.
pub fn deal(coefficients: &Vec<Secret>, nodes: usize) -> (r: Option<Vec<Secret>>)
    ensures
        r is Some <==> shares_of(secret_views(coefficients@), nodes as nat) is Some,
        r matches Some(shares) ==> shares_of(secret_views(coefficients@), nodes as nat) == Some(
            secret_views(shares@),
        ),
{
    let mut shares: Vec<Secret> = Vec::new();
    let mut j: usize = 0;
    while j < nodes
        invariant
            j <= nodes,
            shares_of(secret_views(coefficients@), j as nat) == Some(secret_views(shares@)),
        decreases nodes - j,
    {
        let number = number_of(j);
        match evaluate_polynomial(coefficients, &number) {
            Some(share) => {
                let ghost before = secret_views(shares@);
                shares.push(share);
                assert(secret_views(shares@) =~= before.push(share@));
            },
            None => {
                proof {
                    lemma_shares_stay_undefined(
                        secret_views(coefficients@),
                        (j + 1) as nat,
                        nodes as nat,
                    );
                }
                return None;
            },
        }
        j += 1;
    }
    Some(shares)
}

/// What the commitments from `from` on say the dealer's polynomial times the
/// base point is at `x`: Horner's rule over points.
pub open spec fn commitment_value(commitments: Seq<Seq<u8>>, x: Seq<u8>, from: int) -> Option<
    Seq<u8>,
>
    decreases commitments.len() - from,
{
    if from < 0 || from >= commitments.len() {
        None
    } else if from == commitments.len() - 1 {
        Some(commitments[from])
    } else {
        match commitment_value(commitments, x, from + 1) {
            None => None,
            Some(rest) => match curve::point_mul(rest, x) {
                None => None,
                Some(shifted) => curve::point_add(shifted, commitments[from]),
            },
        }
    }
}

proof fn lemma_commitment_value_stays_undefined(
    commitments: Seq<Seq<u8>>,
    x: Seq<u8>,
    from: int,
    to: int,
)
    requires
        0 <= to <= from < commitments.len(),
        commitment_value(commitments, x, from) is None,
    ensures
        commitment_value(commitments, x, to) is None,
    decreases from - to,
{
    if to < from {
        lemma_commitment_value_stays_undefined(commitments, x, from, to + 1);
    }
}

/// Evaluates the committed polynomial at `x`, in the group.
pub fn evaluate_commitments(commitments: &Vec<Public>, x: &Secret) -> (r: Option<Public>)
    ensures
        r is Some <==> commitment_value(public_views(commitments@), x@, 0) is Some,
        r matches Some(p) ==> commitment_value(public_views(commitments@), x@, 0) == Some(p@),
{
    if commitments.len() == 0 {
        return None;
    }
    let mut k: usize = commitments.len() - 1;
    let mut result = commitments[k];
    while k > 0
        invariant
            k < commitments@.len(),
            commitment_value(public_views(commitments@), x@, k as int) == Some(result@),
        decreases k,
    {
        let next = match curve::mul_point(&result, x) {
            Some(shifted) => curve::add_points(&shifted, &commitments[k - 1]),
            None => None,
        };
        match next {
            Some(p) => {
                result = p;
            },
            None => {
                proof {
                    lemma_commitment_value_stays_undefined(
                        public_views(commitments@),
                        x@,
                        k as int - 1,
                        0,
                    );
                }
                return None;
            },
        }
        k -= 1;
    }
    Some(result)
}

/// A share matches its dealer's commitments when the share times the base
/// point is the committed polynomial's value at the receiver's number.
pub open spec fn share_matches(share: Seq<u8>, number: Seq<u8>, commitments: Seq<Seq<u8>>) -> bool {
    curve::point_mul(GENERATION_POINT@, share) is Some && curve::point_mul(
        GENERATION_POINT@,
        share,
    ) == commitment_value(commitments, number, 0)
}

/// Checks one share against the dealer's commitments.
pub fn verify_share(share: &Secret, number: &Secret, commitments: &Vec<Public>) -> (ok: bool)
    ensures
        ok == share_matches(share@, number@, public_views(commitments@)),
{
    let base = generation_point();
    match (curve::mul_point(&base, share), evaluate_commitments(commitments, number)) {
        (Some(left), Some(right)) => left.same(&right),
        _ => false,
    }
}

/// Every one of the dealt shares matches the commitments.
pub open spec fn shares_match(shares: Seq<Seq<u8>>, commitments: Seq<Seq<u8>>) -> bool {
    forall|j: int|
        0 <= j < shares.len() ==> #[trigger] share_matches(shares[j], node_number(j), commitments)
}

/// Checks the shares that a dealer gave to the nodes, in the order of their
/// positions, against the dealer's commitments.
pub fn verify_shares(shares: &Vec<Secret>, commitments: &Vec<Public>) -> (ok: bool)
    ensures
        ok == shares_match(secret_views(shares@), public_views(commitments@)),
{
    let mut j: usize = 0;
    while j < shares.len()
        invariant
            j <= shares@.len(),
            forall|i: int|
                0 <= i < j ==> #[trigger] share_matches(
                    secret_views(shares@)[i],
                    node_number(i),
                    public_views(commitments@),
                ),
        decreases shares@.len() - j,
    {
        let number = number_of(j);
        if !verify_share(&shares[j], &number, commitments) {
            assert(!share_matches(
                secret_views(shares@)[j as int],
                node_number(j as int),
                public_views(commitments@),
            ));
            return false;
        }
        j += 1;
    }
    true
}

/// The bytes of the coefficients of the polynomials.
pub open spec fn polynomial_views(polynomials: Seq<Vec<Secret>>) -> Seq<Seq<Seq<u8>>> {
    Seq::new(polynomials.len(), |i: int| secret_views(polynomials[i]@))
}

/// The value at `x` of the sum of the polynomials: what the signer with the
/// number `x` holds of the secret that the polynomials share.
pub open spec fn joint_value(polynomials: Seq<Seq<Seq<u8>>>, x: Seq<u8>) -> Option<Seq<u8>> {
    match all_defined(
        Seq::new(polynomials.len(), |i: int| polynomial_value(polynomials[i], x, 0)),
    ) {
        None => None,
        Some(values) => scalars_sum(values, values.len()),
    }
}

/// What each signer holds of the secret that the polynomials share.
pub open spec fn joint_values(polynomials: Seq<Seq<Seq<u8>>>, numbers: Seq<u64>) -> Option<
    Seq<Seq<u8>>,
> {
    all_defined(
        Seq::new(numbers.len(), |j: int| joint_value(polynomials, small_scalar(numbers[j]))),
    )
}

pub(crate) fn value_at(polynomials: &Vec<Vec<Secret>>, x: &Secret) -> (r: Option<Secret>)
    ensures
        r is Some <==> joint_value(polynomial_views(polynomials@), x@) is Some,
        r matches Some(s) ==> joint_value(polynomial_views(polynomials@), x@) == Some(s@),
{
    let ghost results = Seq::new(
        polynomials@.len(),
        |i: int| polynomial_value(polynomial_views(polynomials@)[i], x@, 0),
    );
    let mut values: Vec<Secret> = Vec::new();
    let mut i: usize = 0;
    while i < polynomials.len()
        invariant
            i <= polynomials@.len(),
            results == Seq::new(
                polynomials@.len(),
                |i: int| polynomial_value(polynomial_views(polynomials@)[i], x@, 0),
            ),
            values@.len() == i,
            forall|k: int| 0 <= k < i ==> results[k] == Some((#[trigger] values@[k])@),
        decreases polynomials@.len() - i,
    {
        match evaluate_polynomial(&polynomials[i], x) {
            Some(value) => {
                values.push(value);
            },
            None => {
                assert(results[i as int] is None);
                return None;
            },
        }
        i += 1;
    }
    proof {
        assert forall|k: int| 0 <= k < results.len() implies (#[trigger] results[k]) is Some by {
            assert(results[k] == Some(values@[k]@));
        }
        assert(secret_views(values@) =~= all_defined(results)->Some_0);
    }
    sum_scalars(&values)
}

pub(crate) fn values_at(polynomials: &Vec<Vec<Secret>>, numbers: &Vec<u64>) -> (r: Option<Vec<Secret>>)
    ensures
        r is Some <==> joint_values(polynomial_views(polynomials@), numbers@) is Some,
        r matches Some(values) ==> joint_values(polynomial_views(polynomials@), numbers@) == Some(
            secret_views(values@),
        ) && values@.len() == numbers@.len(),
{
    let ghost results = Seq::new(
        numbers@.len(),
        |j: int| joint_value(polynomial_views(polynomials@), small_scalar(numbers@[j])),
    );
    let mut values: Vec<Secret> = Vec::new();
    let mut j: usize = 0;
    while j < numbers.len()
        invariant
            j <= numbers@.len(),
            results == Seq::new(
                numbers@.len(),
                |j: int| joint_value(polynomial_views(polynomials@), small_scalar(numbers@[j])),
            ),
            values@.len() == j,
            forall|k: int| 0 <= k < j ==> results[k] == Some((#[trigger] values@[k])@),
        decreases numbers@.len() - j,
    {
        let x = scalar_from(numbers[j]);
        match value_at(polynomials, &x) {
            Some(value) => {
                values.push(value);
            },
            None => {
                assert(results[j as int] is None);
                return None;
            },
        }
        j += 1;
    }
    proof {
        assert forall|k: int| 0 <= k < results.len() implies (#[trigger] results[k]) is Some by {
            assert(results[k] == Some(values@[k]@));
        }
        assert(secret_views(values@) =~= all_defined(results)->Some_0);
    }
    Some(values)
}

/// Draws the coefficients of a polynomial of the given degree.
pub fn random_polynomial(degree: usize) -> (coefficients: Vec<Secret>)
    requires
        degree < usize::MAX,
    ensures
        coefficients@.len() == degree + 1,
{
    let mut coefficients: Vec<Secret> = Vec::new();
    let mut k: usize = 0;
    while k <= degree
        invariant
            k <= degree + 1,
            degree < usize::MAX,
            coefficients@.len() == k,
        decreases degree + 1 - k,
    {
        coefficients.push(curve::random_secret());
        k += 1;
    }
    coefficients
}

/// Draws a polynomial of the given degree for each of `count` dealers.
pub fn random_polynomials(count: usize, degree: usize) -> (polynomials: Vec<Vec<Secret>>)
    requires
        degree < usize::MAX,
    ensures
        polynomials@.len() == count,
        forall|i: int| 0 <= i < count ==> (#[trigger] polynomials@[i])@.len() == degree + 1,
{
    let mut polynomials: Vec<Vec<Secret>> = Vec::new();
    let mut i: usize = 0;
    while i < count
        invariant
            i <= count,
            degree < usize::MAX,
            polynomials@.len() == i,
            forall|k: int| 0 <= k < i ==> (#[trigger] polynomials@[k])@.len() == degree + 1,
        decreases count - i,
    {
        polynomials.push(random_polynomial(degree));
        i += 1;
    }
    polynomials
}

} // verus!
