//! The formulas of threshold secret sharing, over the arithmetic that `curve`
//! names. A result is `None` where the arithmetic is undefined: a sum that is
//! the point at infinity, a scalar outside the field.

use vstd::prelude::*;
use crate::curve;
use crate::types::{Public, Secret};

verus! {

/// The base point of secp256k1.
pub const GENERATION_POINT: [u8; 64] = [
    0x79, 0xbe, 0x66, 0x7e, 0xf9, 0xdc, 0xbb, 0xac, 0x55, 0xa0, 0x62, 0x95, 0xce, 0x87, 0x0b, 0x07,
    0x02, 0x9b, 0xfc, 0xdb, 0x2d, 0xce, 0x28, 0xd9, 0x59, 0xf2, 0x81, 0x5b, 0x16, 0xf8, 0x17, 0x98,
    0x48, 0x3a, 0xda, 0x77, 0x26, 0xa3, 0xc4, 0x65, 0x5d, 0xa4, 0xfb, 0xfc, 0x0e, 0x11, 0x08, 0xa8,
    0xfd, 0x17, 0xb4, 0x48, 0xa6, 0x85, 0x54, 0x19, 0x9c, 0x47, 0xd0, 0x8f, 0xfb, 0x10, 0xd4, 0xb8,
];

/// The order of the curve's group, less two: the exponent that inverts a
/// scalar.
pub const INVERSION_EXPONENT: [u8; 32] = [
    0xff, 0xff, 0xff, 0xff, 0xff, 0xff, 0xff, 0xff, 0xff, 0xff, 0xff, 0xff, 0xff, 0xff, 0xff, 0xfe,
    0xba, 0xae, 0xdc, 0xe6, 0xaf, 0x48, 0xa0, 0x3b, 0xbf, 0xd2, 0x5e, 0x8c, 0xd0, 0x36, 0x41, 0x3f,
];

/// The bytes of the scalar that stands for a number: big-endian, in the last
/// eight of the thirty-two bytes.
pub open spec fn small_scalar(value: u64) -> Seq<u8> {
    Seq::new(32, |i: int| small_scalar_byte(value, i))
}

/// One byte of the scalar that stands for a number.
pub open spec fn small_scalar_byte(value: u64, i: int) -> u8 {
    if 24 <= i < 32 {
        ((value >> ((8 * (31 - i)) as u64)) & 0xff) as u8
    } else {
        0u8
    }
}

/// The scalar that stands for a number.
pub fn scalar_from(value: u64) -> (s: Secret)
    ensures
        s@ == small_scalar(value),
{
    let mut bytes = [0u8; 32];
    let mut i: usize = 24;
    while i < 32
        invariant
            24 <= i <= 32,
            forall|k: int| 0 <= k < i ==> bytes@[k] == small_scalar_byte(value, k),
            forall|k: int| i <= k < 32 ==> bytes@[k] == 0u8,
        decreases 32 - i,
    {
        let shift: u64 = (8 * (31 - i)) as u64;
        bytes[i] = ((value >> shift) & 0xff) as u8;
        i += 1;
    }
    assert(bytes@ =~= small_scalar(value));
    Secret { bytes }
}

/// The base point.
pub fn generation_point() -> (g: Public)
    ensures
        g@ == GENERATION_POINT@,
{
    Public { bytes: GENERATION_POINT }
}

/// `0 - value`.
pub open spec fn negated(value: Seq<u8>) -> Option<Seq<u8>> {
    curve::scalar_sub(small_scalar(0), value)
}

/// Negates a scalar.
pub fn negate(value: &Secret) -> (r: Option<Secret>)
    ensures
        r is Some <==> negated(value@) is Some,
        r matches Some(s) ==> negated(value@) == Some(s@),
{
    let zero = scalar_from(0);
    curve::sub_scalars(&zero, value)
}

/// The values of a sequence of results, where every one of them is defined.
pub open spec fn all_defined(results: Seq<Option<Seq<u8>>>) -> Option<Seq<Seq<u8>>> {
    if forall|i: int| 0 <= i < results.len() ==> (#[trigger] results[i]) is Some {
        Some(Seq::new(results.len(), |i: int| results[i]->Some_0))
    } else {
        None
    }
}

/// The sum of the first `count` points, taken from the left; `None` for no
/// point at all.
pub open spec fn points_sum(points: Seq<Seq<u8>>, count: nat) -> Option<Seq<u8>>
    decreases count,
{
    if count == 0 {
        None
    } else if count == 1 {
        Some(points[0])
    } else {
        match points_sum(points, (count - 1) as nat) {
            Some(sum) => curve::point_add(sum, points[count - 1]),
            None => None,
        }
    }
}

/// The bytes of the points.
pub open spec fn public_views(points: Seq<Public>) -> Seq<Seq<u8>> {
    Seq::new(points.len(), |i: int| points[i]@)
}

/// The bytes of the scalars.
pub open spec fn secret_views(scalars: Seq<Secret>) -> Seq<Seq<u8>> {
    Seq::new(scalars.len(), |i: int| scalars[i]@)
}

/// Adds up points.
pub fn sum_points(points: &Vec<Public>) -> (r: Option<Public>)
    ensures
        r is Some <==> points_sum(public_views(points@), points@.len()) is Some,
        r matches Some(p) ==> points_sum(public_views(points@), points@.len()) == Some(p@),
{
    if points.len() == 0 {
        return None;
    }
    let mut sum = points[0];
    let mut i: usize = 1;
    while i < points.len()
        invariant
            1 <= i <= points@.len(),
            points_sum(public_views(points@), i as nat) == Some(sum@),
        decreases points@.len() - i,
    {
        match curve::add_points(&sum, &points[i]) {
            Some(next) => {
                sum = next;
            },
            None => {
                proof {
                    lemma_points_sum_stays_undefined(public_views(points@), (i + 1) as nat, points@.len());
                }
                return None;
            },
        }
        i += 1;
    }
    Some(sum)
}

/// Once a prefix has no sum, no longer prefix has one.
proof fn lemma_points_sum_stays_undefined(points: Seq<Seq<u8>>, from: nat, to: nat)
    requires
        from <= to,
        from >= 1,
        points_sum(points, from) is None,
    ensures
        points_sum(points, to) is None,
    decreases to - from,
{
    if from < to {
        lemma_points_sum_stays_undefined(points, from, (to - 1) as nat);
    }
}

/// The sum of the first `count` scalars, taken from the left, starting from
/// zero.
pub open spec fn scalars_sum(scalars: Seq<Seq<u8>>, count: nat) -> Option<Seq<u8>>
    decreases count,
{
    if count == 0 {
        Some(small_scalar(0))
    } else {
        match scalars_sum(scalars, (count - 1) as nat) {
            Some(sum) => curve::scalar_add(sum, scalars[count - 1]),
            None => None,
        }
    }
}

proof fn lemma_scalars_sum_stays_undefined(scalars: Seq<Seq<u8>>, from: nat, to: nat)
    requires
        from <= to,
        scalars_sum(scalars, from) is None,
    ensures
        scalars_sum(scalars, to) is None,
    decreases to - from,
{
    if from < to {
        lemma_scalars_sum_stays_undefined(scalars, from, (to - 1) as nat);
    }
}

/// Adds up scalars.
pub fn sum_scalars(scalars: &Vec<Secret>) -> (r: Option<Secret>)
    ensures
        r is Some <==> scalars_sum(secret_views(scalars@), scalars@.len()) is Some,
        r matches Some(s) ==> scalars_sum(secret_views(scalars@), scalars@.len()) == Some(s@),
{
    let mut sum = scalar_from(0);
    let mut i: usize = 0;
    while i < scalars.len()
        invariant
            i <= scalars@.len(),
            scalars_sum(secret_views(scalars@), i as nat) == Some(sum@),
        decreases scalars@.len() - i,
    {
        match curve::add_scalars(&sum, &scalars[i]) {
            Some(next) => {
                sum = next;
            },
            None => {
                proof {
                    lemma_scalars_sum_stays_undefined(secret_views(scalars@), (i + 1) as nat, scalars@.len());
                }
                return None;
            },
        }
        i += 1;
    }
    Some(sum)
}


/// Bit `index` of the inversion exponent, counted from the most significant.
pub open spec fn exponent_bit(index: int) -> bool {
    (INVERSION_EXPONENT@[index / 8] >> ((7 - index % 8) as u8)) & 1 == 1
}

/// `value` raised to the number that the first `bits` bits of the inversion
/// exponent spell, by squaring and multiplying from the top bit down.
pub open spec fn power(value: Seq<u8>, bits: nat) -> Option<Seq<u8>>
    decreases bits,
{
    if bits == 0 {
        Some(small_scalar(1))
    } else {
        match power(value, (bits - 1) as nat) {
            None => None,
            Some(so_far) => match curve::scalar_mul(so_far, so_far) {
                None => None,
                Some(squared) => if exponent_bit(bits - 1) {
                    curve::scalar_mul(squared, value)
                } else {
                    Some(squared)
                },
            },
        }
    }
}

/// The inverse of a scalar: the scalar raised to the group order less two.
pub open spec fn inverse(value: Seq<u8>) -> Option<Seq<u8>> {
    power(value, 256)
}

proof fn lemma_power_stays_undefined(value: Seq<u8>, from: nat, to: nat)
    requires
        from <= to,
        power(value, from) is None,
    ensures
        power(value, to) is None,
    decreases to - from,
{
    if from < to {
        lemma_power_stays_undefined(value, from, (to - 1) as nat);
    }
}

/// Inverts a scalar.
pub fn invert(value: &Secret) -> (r: Option<Secret>)
    ensures
        r is Some <==> inverse(value@) is Some,
        r matches Some(s) ==> inverse(value@) == Some(s@),
{
    let mut result = scalar_from(1);
    let mut i: usize = 0;
    while i < 256
        invariant
            i <= 256,
            power(value@, i as nat) == Some(result@),
        decreases 256 - i,
    {
        let squared = match curve::mul_scalars(&result, &result) {
            Some(s) => s,
            None => {
                proof {
                    lemma_power_stays_undefined(value@, (i + 1) as nat, 256);
                }
                return None;
            },
        };
        let shift: u8 = (7 - i % 8) as u8;
        if (INVERSION_EXPONENT[i / 8] >> shift) & 1 == 1 {
            match curve::mul_scalars(&squared, value) {
                Some(s) => {
                    result = s;
                },
                None => {
                    proof {
                        lemma_power_stays_undefined(value@, (i + 1) as nat, 256);
                    }
                    return None;
                },
            }
        } else {
            result = squared;
        }
        i += 1;
    }
    Some(result)
}

/// The Lagrange weight at zero of the point `numbers[index]` among the first
/// `count` points: the product, over the others, of `x_j / (x_j - x_index)`.
pub open spec fn weight(numbers: Seq<Seq<u8>>, index: int, count: nat) -> Option<Seq<u8>>
    decreases count,
{
    if count == 0 {
        Some(small_scalar(1))
    } else {
        match weight(numbers, index, (count - 1) as nat) {
            None => None,
            Some(so_far) => if count - 1 == index {
                Some(so_far)
            } else {
                weight_step(so_far, numbers[count - 1], numbers[index])
            },
        }
    }
}

/// `so_far * other / (other - own)`.
pub open spec fn weight_step(so_far: Seq<u8>, other: Seq<u8>, own: Seq<u8>) -> Option<Seq<u8>> {
    match curve::scalar_sub(other, own) {
        None => None,
        Some(difference) => match inverse(difference) {
            None => None,
            Some(inverted) => match curve::scalar_mul(other, inverted) {
                None => None,
                Some(factor) => curve::scalar_mul(so_far, factor),
            },
        },
    }
}

proof fn lemma_weight_stays_undefined(numbers: Seq<Seq<u8>>, index: int, from: nat, to: nat)
    requires
        from <= to,
        weight(numbers, index, from) is None,
    ensures
        weight(numbers, index, to) is None,
    decreases to - from,
{
    if from < to {
        lemma_weight_stays_undefined(numbers, index, from, (to - 1) as nat);
    }
}

fn lagrange_step(so_far: &Secret, other: &Secret, own: &Secret) -> (r: Option<Secret>)
    ensures
        r is Some <==> weight_step(so_far@, other@, own@) is Some,
        r matches Some(s) ==> weight_step(so_far@, other@, own@) == Some(s@),
{
    let difference = match curve::sub_scalars(other, own) {
        Some(d) => d,
        None => return None,
    };
    let inverted = match invert(&difference) {
        Some(d) => d,
        None => return None,
    };
    let factor = match curve::mul_scalars(other, &inverted) {
        Some(f) => f,
        None => return None,
    };
    curve::mul_scalars(so_far, &factor)
}

/// The Lagrange weight at zero of one of the interpolation points; none for
/// a point that is not among them.
pub fn lagrange_weight(numbers: &Vec<Secret>, index: usize) -> (r: Option<Secret>)
    ensures
        r is Some <==> index < numbers@.len() && weight(
            secret_views(numbers@),
            index as int,
            numbers@.len(),
        ) is Some,
        r matches Some(s) ==> weight(secret_views(numbers@), index as int, numbers@.len()) == Some(
            s@,
        ),
{
    if index >= numbers.len() {
        return None;
    }
    let mut result = scalar_from(1);
    let mut j: usize = 0;
    while j < numbers.len()
        invariant
            j <= numbers@.len(),
            index < numbers@.len(),
            weight(secret_views(numbers@), index as int, j as nat) == Some(result@),
        decreases numbers@.len() - j,
    {
        if j != index {
            match lagrange_step(&result, &numbers[j], &numbers[index]) {
                Some(next) => {
                    result = next;
                },
                None => {
                    proof {
                        lemma_weight_stays_undefined(
                            secret_views(numbers@),
                            index as int,
                            (j + 1) as nat,
                            numbers@.len(),
                        );
                    }
                    return None;
                },
            }
        }
        j += 1;
    }
    Some(result)
}

/// The value at `x` of the polynomial whose coefficients, from the constant
/// term up, are `coefficients` from `from` on: Horner's rule.
pub open spec fn polynomial_value(coefficients: Seq<Seq<u8>>, x: Seq<u8>, from: int) -> Option<
    Seq<u8>,
>
    decreases coefficients.len() - from,
{
    if from < 0 || from >= coefficients.len() {
        None
    } else if from == coefficients.len() - 1 {
        Some(coefficients[from])
    } else {
        match polynomial_value(coefficients, x, from + 1) {
            None => None,
            Some(rest) => match curve::scalar_mul(rest, x) {
                None => None,
                Some(shifted) => curve::scalar_add(shifted, coefficients[from]),
            },
        }
    }
}

proof fn lemma_polynomial_stays_undefined(
    coefficients: Seq<Seq<u8>>,
    x: Seq<u8>,
    from: int,
    to: int,
)
    requires
        0 <= to <= from < coefficients.len(),
        polynomial_value(coefficients, x, from) is None,
    ensures
        polynomial_value(coefficients, x, to) is None,
    decreases from - to,
{
    if to < from {
        lemma_polynomial_stays_undefined(coefficients, x, from, to + 1);
    }
}

/// Evaluates a polynomial, given by its coefficients from the constant term
/// up, at `x`.
pub fn evaluate_polynomial(coefficients: &Vec<Secret>, x: &Secret) -> (r: Option<Secret>)
    ensures
        r is Some <==> polynomial_value(secret_views(coefficients@), x@, 0) is Some,
        r matches Some(s) ==> polynomial_value(secret_views(coefficients@), x@, 0) == Some(s@),
{
    if coefficients.len() == 0 {
        return None;
    }
    let mut k: usize = coefficients.len() - 1;
    let mut result = coefficients[k];
    while k > 0
        invariant
            k < coefficients@.len(),
            polynomial_value(secret_views(coefficients@), x@, k as int) == Some(result@),
        decreases k,
    {
        let next = match curve::mul_scalars(&result, x) {
            Some(shifted) => curve::add_scalars(&shifted, &coefficients[k - 1]),
            None => None,
        };
        match next {
            Some(s) => {
                result = s;
            },
            None => {
                proof {
                    lemma_polynomial_stays_undefined(
                        secret_views(coefficients@),
                        x@,
                        k as int - 1,
                        0,
                    );
                }
                return None;
            },
        }
        k -= 1;
    }
    Some(result)
}

/// A point times each of the scalars.
pub open spec fn point_multiples(point: Seq<u8>, scalars: Seq<Seq<u8>>) -> Option<Seq<Seq<u8>>> {
    all_defined(Seq::new(scalars.len(), |i: int| curve::point_mul(point, scalars[i])))
}

/// Multiplies a point by each of the scalars.
pub fn multiply_point(point: &Public, scalars: &Vec<Secret>) -> (r: Option<Vec<Public>>)
    ensures
        r is Some <==> point_multiples(point@, secret_views(scalars@)) is Some,
        r matches Some(points) ==> point_multiples(point@, secret_views(scalars@)) == Some(
            public_views(points@),
        ) && points@.len() == scalars@.len(),
{
    let ghost results = Seq::new(
        scalars@.len(),
        |i: int| curve::point_mul(point@, secret_views(scalars@)[i]),
    );
    let mut points: Vec<Public> = Vec::new();
    let mut i: usize = 0;
    while i < scalars.len()
        invariant
            i <= scalars@.len(),
            results == Seq::new(
                scalars@.len(),
                |i: int| curve::point_mul(point@, secret_views(scalars@)[i]),
            ),
            points@.len() == i,
            forall|k: int| 0 <= k < i ==> results[k] == Some((#[trigger] points@[k])@),
        decreases scalars@.len() - i,
    {
        match curve::mul_point(point, &scalars[i]) {
            Some(multiple) => {
                points.push(multiple);
            },
            None => {
                assert(results[i as int] is None);
                return None;
            },
        }
        i += 1;
    }
    proof {
        assert forall|k: int| 0 <= k < results.len() implies (#[trigger] results[k]) is Some by {
            assert(results[k] == Some(points@[k]@));
        }
        assert(public_views(points@) =~= all_defined(results)->Some_0);
    }
    Some(points)
}

} // verus!
