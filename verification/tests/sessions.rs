use parity_crypto::publickey::ec_math_utils::public_add;
use secret_store::ecdsa::interpolate;
use secret_store::error::Error;
use secret_store::generation::{run_generation, GenerationState, ServerKeyGenerationSession};
use secret_store::math::{negate, scalar_from, sum_scalars};
use secret_store::sharing::{commit, deal, random_polynomial, verify_shares};
use secret_store::types::{Public, Secret};

fn dealt(polynomial: &Vec<Secret>, nodes: usize) -> (Vec<Public>, Vec<Secret>) {
    (commit(polynomial).unwrap(), deal(polynomial, nodes).unwrap())
}

#[test]
fn session_completes_with_consistent_answers() {
    let polynomials: Vec<Vec<Secret>> = (0..3).map(|_| random_polynomial(1)).collect();
    let mut session = ServerKeyGenerationSession::new(3, 1).unwrap();
    assert_eq!(session.state(), GenerationState::Initialized);
    // nothing is collected before the session is started
    session.on_commitments(0, commit(&polynomials[0]).unwrap());
    assert_eq!(session.state(), GenerationState::Initialized);
    session.start();
    assert_eq!(session.state(), GenerationState::CollectingCommitments);
    for (node, polynomial) in polynomials.iter().enumerate() {
        assert_eq!(session.state(), GenerationState::CollectingCommitments);
        session.on_commitments(node, dealt(polynomial, 3).0);
    }
    assert_eq!(session.state(), GenerationState::CollectingShares);
    for (node, polynomial) in polynomials.iter().enumerate() {
        assert_eq!(session.state(), GenerationState::CollectingShares);
        session.on_shares(node, dealt(polynomial, 3).1);
    }
    assert_eq!(session.state(), GenerationState::Completed);
    let key = session.into_result().unwrap().unwrap();
    // the public point is the sum of the constant commitments
    let mut expected = parity_crypto::publickey::Public::from(commit(&polynomials[0]).unwrap()[0].bytes);
    for polynomial in &polynomials[1..] {
        let term = parity_crypto::publickey::Public::from(commit(polynomial).unwrap()[0].bytes);
        public_add(&mut expected, &term).unwrap();
    }
    assert_eq!(key.public.bytes, expected.to_fixed_bytes());
    // a node's share is the sum of what it was dealt, and any two shares give the secret
    let secret = sum_scalars(&polynomials.iter().map(|p| p[0]).collect()).unwrap();
    let shares: Vec<Secret> = key.shares.iter().map(|s| s.unwrap()).collect();
    let second: Vec<Secret> = polynomials.iter().map(|p| deal(p, 3).unwrap()[1]).collect();
    assert_eq!(Some(shares[1]), sum_scalars(&second));
    assert_eq!(interpolate(&vec![shares[0], shares[2]], &vec![1, 3]), Some(secret));
    assert_eq!(interpolate(&vec![shares[1], shares[2]], &vec![2, 3]), Some(secret));
}

#[test]
fn session_tolerates_an_inconsistent_dealer_if_quorum_is_met() {
    let honest: Vec<Vec<Secret>> = (0..3).map(|_| random_polynomial(1)).collect();
    let mut session = ServerKeyGenerationSession::new(4, 1).unwrap();
    session.start();
    for (node, polynomial) in honest.iter().enumerate() {
        session.on_commitments(node, dealt(polynomial, 4).0);
    }
    // the fourth node commits to one polynomial and deals another
    session.on_commitments(3, commit(&random_polynomial(1)).unwrap());
    for (node, polynomial) in honest.iter().enumerate() {
        session.on_shares(node, dealt(polynomial, 4).1);
    }
    assert_eq!(session.inconsistent_nodes(), Vec::<usize>::new());
    session.on_shares(3, deal(&random_polynomial(1), 4).unwrap());
    assert_eq!(session.state(), GenerationState::Completed);
    assert_eq!(session.inconsistent_nodes(), vec![3]);
    let key = session.into_result().unwrap().unwrap();
    assert!(key.shares[0].is_some() && key.shares[1].is_some() && key.shares[2].is_some());
    assert_eq!(key.shares[3], None);
    let secret = sum_scalars(&honest.iter().map(|p| p[0]).collect()).unwrap();
    assert_eq!(
        interpolate(&vec![key.shares[0].unwrap(), key.shares[1].unwrap()], &vec![1, 2]),
        Some(secret)
    );
}

#[test]
fn session_fails_on_inconsistent_dealers_without_quorum() {
    let mut session = ServerKeyGenerationSession::new(3, 2).unwrap();
    session.start();
    let honest: Vec<Vec<Secret>> = (0..2).map(|_| random_polynomial(2)).collect();
    for (node, polynomial) in honest.iter().enumerate() {
        session.on_commitments(node, dealt(polynomial, 3).0);
    }
    session.on_commitments(2, commit(&random_polynomial(2)).unwrap());
    for (node, polynomial) in honest.iter().enumerate() {
        session.on_shares(node, dealt(polynomial, 3).1);
    }
    session.on_shares(2, deal(&random_polynomial(2), 3).unwrap());
    assert_eq!(session.state(), GenerationState::Failed);
    assert!(matches!(session.into_result(), Some(Err(Error::InconsistentShare))));
}

#[test]
fn session_fails_for_want_of_nodes_when_time_is_up() {
    let mut session = ServerKeyGenerationSession::new(4, 2).unwrap();
    session.start();
    assert!(session.into_result().is_none());
    let mut session = ServerKeyGenerationSession::new(4, 2).unwrap();
    session.start();
    session.on_commitments(1, commit(&random_polynomial(2)).unwrap());
    session.on_commitments(3, commit(&random_polynomial(2)).unwrap());
    // a second answer of the same node and an answer of no node are ignored
    session.on_commitments(1, vec![]);
    session.on_commitments(9, commit(&random_polynomial(2)).unwrap());
    assert_eq!(session.state(), GenerationState::CollectingCommitments);
    session.on_timeout();
    assert_eq!(session.state(), GenerationState::Failed);
    assert!(matches!(session.into_result(), Some(Err(Error::InsufficientNodes))));
    // commitments of the wrong length are inconsistent
    let mut session = ServerKeyGenerationSession::new(3, 1).unwrap();
    session.start();
    session.on_commitments(0, commit(&random_polynomial(1)).unwrap());
    session.on_commitments(1, commit(&random_polynomial(2)).unwrap());
    session.on_commitments(2, vec![]);
    assert_eq!(session.state(), GenerationState::Failed);
    assert!(matches!(session.into_result(), Some(Err(Error::InconsistentShare))));
    assert!(matches!(ServerKeyGenerationSession::new(3, 3), Err(Error::InvalidThreshold)));
}

#[test]
fn generation_runs_among_the_nodes_that_deal() {
    let polynomials = vec![
        Some(random_polynomial(1)),
        None,
        Some(random_polynomial(1)),
        Some(random_polynomial(1)),
    ];
    let key = run_generation(&polynomials, 1).unwrap();
    assert_eq!(key.shares.len(), 4);
    assert_eq!(key.shares[1], None);
    assert!(key.shares[0].is_some() && key.shares[2].is_some() && key.shares[3].is_some());
    let alone = vec![Some(random_polynomial(1)), None, None];
    assert!(matches!(run_generation(&alone, 1), Err(Error::InsufficientNodes)));
    assert!(matches!(run_generation(&alone, 3), Err(Error::InvalidThreshold)));
    // a dealer whose polynomial has the wrong degree is inconsistent
    let wrong = vec![Some(random_polynomial(1)), Some(random_polynomial(2)), None];
    assert!(matches!(run_generation(&wrong, 1), Err(Error::InconsistentShare)));
}

#[test]
fn generation_fails_where_the_constant_terms_cancel() {
    let a = random_polynomial(0)[0];
    let first = vec![a, scalar_from(3)];
    let second = vec![negate(&a).unwrap(), scalar_from(5)];
    // each of the two deals consistently
    assert!(verify_shares(&deal(&first, 2).unwrap(), &commit(&first).unwrap()));
    assert!(verify_shares(&deal(&second, 2).unwrap(), &commit(&second).unwrap()));
    // but the sum of their constant commitments is no point of the curve
    assert!(matches!(
        run_generation(&vec![Some(first), Some(second)], 1),
        Err(Error::InconsistentShare)
    ));
}
