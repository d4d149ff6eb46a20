use parity_crypto::publickey::ec_math_utils::{generation_point as base_point, public_add, public_mul_secret};
use parity_crypto::publickey::{Generator, Random};
use parity_crypto::Keccak256;
use secret_store::document_key::{
    combine_decryptions, decrypt_with_shadow_coefficients, encrypt_document_key, node_shadow,
    partial_decryption, restore, DocumentKey,
};
use secret_store::ecdsa::interpolate;
use secret_store::math::{
    evaluate_polynomial, generation_point, invert, lagrange_weight, multiply_point, negate,
    scalar_from, sum_points, sum_scalars,
};
use secret_store::resharing::reshare;
use secret_store::sharing::{commit, deal, evaluate_commitments, number_of, verify_share, verify_shares};
use secret_store::signing::{check_reveals, nonce_commitment, schnorr_challenge, schnorr_signature_share};
use secret_store::types::{MessageHash, Public, Secret, H256};

fn outside(point: &Public) -> parity_crypto::publickey::Public {
    parity_crypto::publickey::Public::from(point.bytes)
}

fn outside_secret(scalar: &Secret) -> parity_crypto::publickey::Secret {
    parity_crypto::publickey::Secret::from(scalar.bytes)
}

fn random_scalar() -> Secret {
    Secret::new(Random.generate().secret().to_fixed_bytes())
}

fn random_point() -> Public {
    Public::new(Random.generate().public().to_fixed_bytes())
}

fn times(point: &Public, scalar: &Secret) -> Public {
    let mut p = outside(point);
    public_mul_secret(&mut p, &outside_secret(scalar)).unwrap();
    Public::new(p.to_fixed_bytes())
}

fn plus(left: &Public, right: &Public) -> Public {
    let mut p = outside(left);
    public_add(&mut p, &outside(right)).unwrap();
    Public::new(p.to_fixed_bytes())
}

fn product(a: &Secret, b: &Secret) -> Secret {
    evaluate_polynomial(&vec![scalar_from(0), *a], b).unwrap()
}

#[test]
fn small_scalars_are_big_endian() {
    let mut expected = [0u8; 32];
    expected[30] = 1;
    expected[31] = 2;
    assert_eq!(scalar_from(258).bytes, expected);
    assert_eq!(scalar_from(0).bytes, [0u8; 32]);
    let mut top = [0u8; 32];
    for byte in top.iter_mut().skip(24) {
        *byte = 0xff;
    }
    assert_eq!(scalar_from(u64::MAX).bytes, top);
    assert_eq!(number_of(0), scalar_from(1));
    assert_eq!(number_of(41), scalar_from(42));
}

#[test]
fn base_point_is_the_curves() {
    assert_eq!(generation_point().bytes, base_point().to_fixed_bytes());
}

#[test]
fn sums_add_from_the_left() {
    assert_eq!(sum_scalars(&vec![scalar_from(2), scalar_from(3), scalar_from(11)]), Some(scalar_from(16)));
    assert_eq!(sum_scalars(&vec![]), Some(scalar_from(0)));
    let (p, q, r) = (random_point(), random_point(), random_point());
    assert_eq!(sum_points(&vec![p, q, r]), Some(plus(&plus(&p, &q), &r)));
    assert_eq!(sum_points(&vec![p]), Some(p));
    assert_eq!(sum_points(&vec![]), None);
    // a point and its opposite have no sum on the curve
    let minus_one = negate(&scalar_from(1)).unwrap();
    assert_eq!(sum_points(&vec![p, times(&p, &minus_one)]), None);
}

#[test]
fn negation_and_inversion_undo_themselves() {
    let a = random_scalar();
    let minus_a = negate(&a).unwrap();
    assert_ne!(minus_a, a);
    assert_eq!(sum_scalars(&vec![a, minus_a]), None.or(sum_scalars(&vec![minus_a, a])));
    assert_eq!(negate(&minus_a), Some(a));
    let inverse = invert(&a).unwrap();
    assert_eq!(product(&a, &inverse), scalar_from(1));
    assert_eq!(invert(&scalar_from(1)), Some(scalar_from(1)));
    assert_eq!(product(&invert(&scalar_from(2)).unwrap(), &scalar_from(10)), scalar_from(5));
}

#[test]
fn polynomial_is_evaluated_by_horner() {
    let polynomial = vec![scalar_from(1), scalar_from(2), scalar_from(3)];
    assert_eq!(evaluate_polynomial(&polynomial, &scalar_from(2)), Some(scalar_from(17)));
    assert_eq!(evaluate_polynomial(&polynomial, &scalar_from(10)), Some(scalar_from(321)));
    assert_eq!(evaluate_polynomial(&vec![scalar_from(7)], &scalar_from(10)), Some(scalar_from(7)));
    assert_eq!(evaluate_polynomial(&vec![], &scalar_from(10)), None);
    assert_eq!(deal(&polynomial, 3), Some(vec![scalar_from(6), scalar_from(17), scalar_from(34)]));
}

#[test]
fn lagrange_weights_interpolate_at_zero() {
    let numbers = vec![scalar_from(1), scalar_from(2), scalar_from(3)];
    assert_eq!(lagrange_weight(&numbers, 0), Some(scalar_from(3)));
    assert_eq!(lagrange_weight(&numbers, 1), negate(&scalar_from(3)));
    assert_eq!(lagrange_weight(&numbers, 2), Some(scalar_from(1)));
    // f(x) = 5 + 7x at 1 and 2, and at 2 and 9
    assert_eq!(interpolate(&vec![scalar_from(12), scalar_from(19)], &vec![1, 2]), Some(scalar_from(5)));
    assert_eq!(interpolate(&vec![scalar_from(19), scalar_from(68)], &vec![2, 9]), Some(scalar_from(5)));
    // equal numbers have no weights
    assert_eq!(lagrange_weight(&vec![scalar_from(4), scalar_from(4)], 0), None);
    assert_eq!(node_shadow(&numbers, 0, &scalar_from(5)), Some(scalar_from(15)));
}

#[test]
fn shares_are_checked_against_commitments() {
    let polynomial = vec![random_scalar(), random_scalar(), random_scalar()];
    let commitments = commit(&polynomial).unwrap();
    assert_eq!(commitments.len(), 3);
    assert_eq!(commitments[0], times(&generation_point(), &polynomial[0]));
    assert_eq!(commitments[2], times(&generation_point(), &polynomial[2]));
    let shares = deal(&polynomial, 4).unwrap();
    assert_eq!(shares[2], evaluate_polynomial(&polynomial, &scalar_from(3)).unwrap());
    assert_eq!(
        evaluate_commitments(&commitments, &scalar_from(3)),
        Some(times(&generation_point(), &shares[2]))
    );
    assert!(verify_shares(&shares, &commitments));
    assert!(verify_share(&shares[1], &scalar_from(2), &commitments));
    assert!(!verify_share(&shares[1], &scalar_from(3), &commitments));
    let mut wrong = shares.clone();
    wrong[3] = random_scalar();
    assert!(!verify_shares(&wrong, &commitments));
    assert!(!verify_shares(&shares, &commit(&vec![random_scalar(), random_scalar()]).unwrap()));
    assert_eq!(commit(&vec![scalar_from(0)]), None);
}

#[test]
fn document_key_is_blinded_and_restored() {
    let secret = scalar_from(1234567);
    let joint_public = times(&generation_point(), &secret);
    let document_key = random_point();
    let k = random_scalar();
    let pair = encrypt_document_key(&document_key, &k, &joint_public).unwrap();
    assert_eq!(pair.common_point, times(&generation_point(), &k));
    assert_eq!(pair.encrypted_point, plus(&document_key, &times(&joint_public, &k)));
    // the secret is shared by f(x) = 1234567 + 1000x
    let numbers = vec![2u64, 5u64];
    let shares = vec![scalar_from(1236567), scalar_from(1239567)];
    assert_eq!(restore(&pair, &numbers, &shares, None), Some(document_key));
    let wrong = vec![scalar_from(1236567), scalar_from(1239568)];
    assert_ne!(restore(&pair, &numbers, &wrong, None), Some(document_key));
    // by hand: the partial decryptions are the common point times the negated shadows
    let scalars = vec![scalar_from(2), scalar_from(5)];
    let first = node_shadow(&scalars, 0, &shares[0]).unwrap();
    let second = node_shadow(&scalars, 1, &shares[1]).unwrap();
    assert_eq!(sum_scalars(&vec![first, second]), Some(secret));
    let partials = vec![
        partial_decryption(&first, None, &pair.common_point).unwrap(),
        partial_decryption(&second, None, &pair.common_point).unwrap(),
    ];
    assert_eq!(partials[0], times(&pair.common_point, &negate(&first).unwrap()));
    assert_eq!(combine_decryptions(&pair.encrypted_point, &partials), Some(document_key));
}

#[test]
fn shadow_coefficients_take_the_blindings_off() {
    let secret = scalar_from(99);
    let joint_public = times(&generation_point(), &secret);
    let document_key = random_point();
    let pair: DocumentKey = encrypt_document_key(&document_key, &random_scalar(), &joint_public).unwrap();
    let numbers = vec![1u64, 2u64];
    // f(x) = 99 + 3x
    let shares = vec![scalar_from(102), scalar_from(105)];
    let blindings = vec![random_scalar(), random_scalar()];
    let blinded = restore(&pair, &numbers, &shares, Some(&blindings)).unwrap();
    assert_ne!(blinded, document_key);
    let sum = sum_scalars(&blindings).unwrap();
    assert_eq!(plus(&blinded, &times(&pair.common_point, &sum)), document_key);
    assert_eq!(
        decrypt_with_shadow_coefficients(&blinded, &pair.common_point, &blindings),
        Some(document_key)
    );
}

#[test]
fn resharing_keeps_the_secret() {
    let secret = scalar_from(424242);
    let public = times(&generation_point(), &secret);
    // f(x) = 424242 + 17x, held at 1 and 3
    let numbers = vec![1u64, 3u64];
    let shares = vec![scalar_from(424259), scalar_from(424293)];
    let tails = vec![vec![random_scalar()], vec![random_scalar()]];
    let receivers = vec![1u64, 2u64, 3u64];
    let fresh = reshare(&public, &numbers, &shares, &tails, &receivers).unwrap();
    assert_eq!(fresh.len(), 3);
    assert_ne!(fresh[0], shares[0]);
    assert_eq!(interpolate(&vec![fresh[0], fresh[1]], &vec![1, 2]), Some(secret));
    assert_eq!(interpolate(&vec![fresh[1], fresh[2]], &vec![2, 3]), Some(secret));
    assert_eq!(interpolate(&vec![fresh[0], fresh[2]], &vec![1, 3]), Some(secret));
    // shares that do not commit to the public point are not moved
    let wrong = vec![scalar_from(424259), scalar_from(424294)];
    assert_eq!(reshare(&public, &numbers, &wrong, &tails, &receivers), None);
}

#[test]
fn nonces_are_committed_to_and_revealed() {
    let (p, q) = (random_point(), random_point());
    let commitment: [u8; 32] = p.bytes.keccak256();
    assert_eq!(nonce_commitment(&p), H256::new(commitment));
    let commitments = vec![nonce_commitment(&p), nonce_commitment(&q)];
    assert!(check_reveals(&commitments, &vec![p, q]));
    assert!(!check_reveals(&commitments, &vec![q, p]));
    assert!(!check_reveals(&commitments, &vec![p]));
    assert!(!check_reveals(&vec![nonce_commitment(&p), nonce_commitment(&p)], &vec![p, p]));
}

#[test]
fn schnorr_challenge_hashes_point_key_and_message() {
    let (r, y) = (random_point(), random_point());
    let message = MessageHash::new([5u8; 32]);
    let mut data = Vec::new();
    data.extend_from_slice(&r.bytes);
    data.extend_from_slice(&y.bytes);
    data.extend_from_slice(&message.bytes);
    let expected: [u8; 32] = data.keccak256();
    assert_eq!(schnorr_challenge(&r, &y, &message), Secret::new(expected));
    assert_eq!(
        schnorr_signature_share(&scalar_from(10), &scalar_from(3), &scalar_from(4)),
        Some(scalar_from(22))
    );
    assert_eq!(
        multiply_point(&y, &vec![scalar_from(2), scalar_from(1)]),
        Some(vec![plus(&y, &y), y])
    );
}
