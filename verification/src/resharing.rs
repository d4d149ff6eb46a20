//! Moving a key to another set of nodes. Each node of a quorum of the old
//! holders deals a fresh polynomial whose constant term is its weighted
//! share; a new holder's share is the sum of what the dealers give it. The
//! polynomial that the new shares lie on has the key's scalar as its constant
//! term, which is the sum of the weighted shares: the scalar is in no
//! one's hands at any time.

use vstd::prelude::*;
use crate::document_key::{node_shadow, number_scalars, scalars_of, shadow_of};
use crate::math::{
    all_defined, generation_point, multiply_point, point_multiples, points_sum, secret_views,
    sum_points, GENERATION_POINT,
};
use crate::sharing::{joint_values, polynomial_views, values_at};
use crate::types::{Public, Secret};

verus! {

/// The weighted shares of the members of a quorum.
pub open spec fn shadows_of(numbers: Seq<u64>, shares: Seq<Seq<u8>>) -> Option<Seq<Seq<u8>>> {
    all_defined(
        Seq::new(numbers.len(), |i: int| shadow_of(number_scalars(numbers), i, shares[i])),
    )
}

/// The polynomials that the members deal: the weighted share, then the
/// coefficients that the member chose.
pub open spec fn dealt_polynomials(shadows: Seq<Seq<u8>>, tails: Seq<Seq<Seq<u8>>>) -> Seq<
    Seq<Seq<u8>>,
> {
    Seq::new(shadows.len(), |i: int| seq![shadows[i]] + tails[i])
}

/// The shares of the new holders, whose numbers are `receivers`. There are
/// none unless the weighted shares of the old holders commit to the key's
/// public point.
pub open spec fn reshared(
    public: Seq<u8>,
    numbers: Seq<u64>,
    shares: Seq<Seq<u8>>,
    tails: Seq<Seq<Seq<u8>>>,
    receivers: Seq<u64>,
) -> Option<Seq<Seq<u8>>> {
    if shares.len() != numbers.len() || tails.len() != numbers.len() {
        None
    } else {
        match shadows_of(numbers, shares) {
            None => None,
            Some(shadows) => match point_multiples(GENERATION_POINT@, shadows) {
                None => None,
                Some(points) => if points_sum(points, points.len()) == Some(public) {
                    joint_values(dealt_polynomials(shadows, tails), receivers)
                } else {
                    None
                },
            },
        }
    }
}

fn shadows(numbers: &Vec<u64>, shares: &Vec<Secret>) -> (r: Option<Vec<Secret>>)
    requires
        numbers@.len() == shares@.len(),
    ensures
        r is Some <==> shadows_of(numbers@, secret_views(shares@)) is Some,
        r matches Some(s) ==> shadows_of(numbers@, secret_views(shares@)) == Some(
            secret_views(s@),
        ) && s@.len() == numbers@.len(),
{
    let scalars = scalars_of(numbers);
    assert(secret_views(scalars@).len() == scalars@.len());
    let ghost results = Seq::new(
        numbers@.len(),
        |i: int| shadow_of(number_scalars(numbers@), i, secret_views(shares@)[i]),
    );
    let mut out: Vec<Secret> = Vec::new();
    let mut i: usize = 0;
    while i < numbers.len()
        invariant
            i <= numbers@.len(),
            numbers@.len() == shares@.len(),
            scalars@.len() == numbers@.len(),
            secret_views(scalars@) == number_scalars(numbers@),
            results == Seq::new(
                numbers@.len(),
                |i: int| shadow_of(number_scalars(numbers@), i, secret_views(shares@)[i]),
            ),
            out@.len() == i,
            forall|k: int| 0 <= k < i ==> results[k] == Some((#[trigger] out@[k])@),
        decreases numbers@.len() - i,
    {
        match node_shadow(&scalars, i, &shares[i]) {
            Some(shadow) => {
                out.push(shadow);
            },
            None => {
                assert(results[i as int] is None);
                return None;
            },
        }
        i += 1;
    }
    proof {
        assert forall|k: int| 0 <= k < results.len() implies (#[trigger] results[k]) is Some by {
            assert(results[k] == Some(out@[k]@));
        }
        assert(secret_views(out@) =~= all_defined(results)->Some_0);
    }
    Some(out)
}

fn polynomials_of(shadows: &Vec<Secret>, tails: &Vec<Vec<Secret>>) -> (polynomials: Vec<
    Vec<Secret>,
>)
    requires
        shadows@.len() == tails@.len(),
    ensures
        polynomial_views(polynomials@) == dealt_polynomials(
            secret_views(shadows@),
            polynomial_views(tails@),
        ),
{
    let mut polynomials: Vec<Vec<Secret>> = Vec::new();
    let mut i: usize = 0;
    while i < shadows.len()
        invariant
            i <= shadows@.len(),
            shadows@.len() == tails@.len(),
            polynomials@.len() == i,
            forall|k: int|
                0 <= k < i ==> secret_views((#[trigger] polynomials@[k])@) == seq![shadows@[k]@]
                    + secret_views(tails@[k]@),
        decreases shadows@.len() - i,
    {
        let mut polynomial: Vec<Secret> = Vec::new();
        polynomial.push(shadows[i]);
        let mut k: usize = 0;
        while k < tails[i].len()
            invariant
                i < tails@.len(),
                k <= tails@[i as int]@.len(),
                polynomial@.len() == k + 1,
                polynomial@[0] == shadows@[i as int],
                forall|j: int| 0 <= j < k ==> polynomial@[j + 1] == tails@[i as int]@[j],
            decreases tails@[i as int]@.len() - k,
        {
            polynomial.push(tails[i][k]);
            k += 1;
        }
        assert(secret_views(polynomial@) =~= seq![shadows@[i as int]@] + secret_views(
            tails@[i as int]@,
        ));
        polynomials.push(polynomial);
        i += 1;
    }
    assert(polynomial_views(polynomials@) =~= dealt_polynomials(
        secret_views(shadows@),
        polynomial_views(tails@),
    ));
    polynomials
}

/// Shares a key anew. `numbers` and `shares` are those of a quorum of the old
/// holders, `tails` the coefficients that each of them chose beyond the
/// constant term, `receivers` the numbers of the new holders.
pub fn reshare(
    public: &Public,
    numbers: &Vec<u64>,
    shares: &Vec<Secret>,
    tails: &Vec<Vec<Secret>>,
    receivers: &Vec<u64>,
) -> (r: Option<Vec<Secret>>)
    ensures
        r is Some <==> reshared(
            public@,
            numbers@,
            secret_views(shares@),
            polynomial_views(tails@),
            receivers@,
        ) is Some,
        r matches Some(fresh) ==> reshared(
            public@,
            numbers@,
            secret_views(shares@),
            polynomial_views(tails@),
            receivers@,
        ) == Some(secret_views(fresh@)) && fresh@.len() == receivers@.len(),
{
    if shares.len() != numbers.len() || tails.len() != numbers.len() {
        return None;
    }
    let weighted = match shadows(numbers, shares) {
        Some(weighted) => weighted,
        None => {
            return None;
        },
    };
    let points = match multiply_point(&generation_point(), &weighted) {
        Some(points) => points,
        None => {
            return None;
        },
    };
    let committed = match sum_points(&points) {
        Some(sum) => sum.same(public),
        None => false,
    };
    if !committed {
        return None;
    }
    let polynomials = polynomials_of(&weighted, tails);
    values_at(&polynomials, receivers)
}

} // verus!
