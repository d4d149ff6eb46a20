use parity_crypto::Keccak256;
use secret_store::error::Error;
use secret_store::quorum::{
    check_quorum, check_threshold, reachable_count, select_quorum, valid_count, Outcome,
};
use secret_store::servers_set::{hash_nodes, rank, Rank, ServersSet};
use secret_store::share_store::{ShareRecord, ShareStore};
use secret_store::types::{bytes_equal, bytes_to_vec, Public, Secret, ServerKeyId, H256};

use secret_store::quorum::Outcome::{Inconsistent, Timeout, Valid};

#[test]
fn answers_are_counted_by_tag() {
    let round = vec![Valid, Timeout, Inconsistent, Valid, Timeout];
    assert_eq!(valid_count(&round), 2);
    assert_eq!(reachable_count(&round), 3);
    assert_eq!(valid_count(&vec![]), 0);
    assert_eq!(reachable_count(&vec![]), 0);
}

#[test]
fn threshold_must_be_less_than_the_number_of_nodes() {
    assert_eq!(check_threshold(0, 1), Ok(()));
    assert_eq!(check_threshold(3, 4), Ok(()));
    assert_eq!(check_threshold(4, 4), Err(Error::InvalidThreshold));
    assert_eq!(check_threshold(0, 0), Err(Error::InvalidThreshold));
}

#[test]
fn quorum_rule_tolerates_what_it_can() {
    // enough valid answers: the inconsistent one is tolerated
    assert_eq!(check_quorum(&vec![Valid, Inconsistent, Valid, Timeout], 1), Ok(()));
    // enough nodes reached, too few valid
    assert_eq!(
        check_quorum(&vec![Valid, Inconsistent, Inconsistent, Timeout], 1),
        Err(Error::InconsistentShare)
    );
    // too few nodes reached, whichever
    assert_eq!(check_quorum(&vec![Valid, Timeout, Timeout, Timeout], 1), Err(Error::InsufficientNodes));
    assert_eq!(check_quorum(&vec![Timeout, Timeout, Inconsistent, Timeout], 1), Err(Error::InsufficientNodes));
    assert_eq!(check_quorum(&vec![Timeout, Timeout, Timeout, Valid], 1), Err(Error::InsufficientNodes));
    assert_eq!(check_quorum(&vec![Valid], 0), Ok(()));
    assert_eq!(check_quorum(&vec![], 0), Err(Error::InsufficientNodes));
}

#[test]
fn quorum_is_the_first_valid_answers() {
    let round = vec![Timeout, Valid, Inconsistent, Valid, Valid, Valid];
    assert_eq!(select_quorum(&round, 0), Ok(vec![1]));
    assert_eq!(select_quorum(&round, 1), Ok(vec![1, 3]));
    assert_eq!(select_quorum(&round, 3), Ok(vec![1, 3, 4, 5]));
    assert_eq!(select_quorum(&round, 4), Err(Error::InconsistentShare));
    assert_eq!(select_quorum(&round, 5), Err(Error::InsufficientNodes));
}

#[test]
fn store_keeps_one_share_under_an_id() {
    let mut store = ShareStore::new();
    let (first, second) = (ServerKeyId::new([1u8; 32]), ServerKeyId::new([2u8; 32]));
    let record = ShareRecord { number: 3, share: Secret::new([9u8; 32]) };
    let newer = ShareRecord { number: 4, share: Secret::new([8u8; 32]) };
    assert_eq!(store.get(&first), None);
    assert!(!store.contains(&first));
    store.put(first, record);
    store.put(second, record);
    store.put(first, newer);
    assert_eq!(store.len(), 2);
    assert_eq!(store.get(&first), Some(newer));
    assert_eq!(store.get(&second), Some(record));
    assert_eq!(store.id_at(0), first);
    assert!(store.delete(&first));
    assert!(!store.delete(&first));
    assert_eq!(store.get(&first), None);
    assert_eq!(store.get(&second), Some(record));
    assert_eq!(store.len(), 1);
}

#[test]
fn servers_set_holds_a_node_once() {
    let mut set = ServersSet::new();
    let (a, b) = (Public::new([1u8; 64]), Public::new([2u8; 64]));
    assert!(set.insert(a));
    assert!(set.insert(b));
    assert!(!set.insert(a));
    assert_eq!(set.len(), 2);
    assert_eq!(set.get(1), b);
    assert_eq!(set.position(&b), Some(1));
    assert_eq!(set.position(&Public::new([3u8; 64])), None);
    assert!(set.contains(&a));
    let mut data = vec![1u8; 64];
    data.extend_from_slice(&[2u8; 64]);
    let expected: [u8; 32] = data.keccak256();
    assert_eq!(set.digest(), H256::new(expected));
    assert_eq!(hash_nodes(&vec![a, b]), set.digest());
    assert_ne!(hash_nodes(&vec![b, a]), set.digest());
    // the nodes ascend, in whatever order they come
    let mut low = [5u8; 64];
    low[63] = 4;
    let mut high = [5u8; 64];
    high[0] = 6;
    let mut other = ServersSet::new();
    for id in [Public::new(high), b, Public::new([5u8; 64]), a, Public::new(low)] {
        assert!(other.insert(id));
    }
    assert_eq!(other.get(0), a);
    assert_eq!(other.get(1), b);
    assert_eq!(other.get(2), Public::new(low));
    assert_eq!(other.get(3), Public::new([5u8; 64]));
    assert_eq!(other.get(4), Public::new(high));
    let mut same = ServersSet::new();
    same.insert(b);
    same.insert(a);
    assert_eq!(same.digest(), set.digest());
    assert_eq!(rank(&a, &b), Rank::Before);
    assert_eq!(rank(&b, &a), Rank::After);
    assert_eq!(rank(&b, &b), Rank::Same);
    assert_eq!(rank(&Public::new(low), &Public::new([5u8; 64])), Rank::Before);
}

#[test]
fn bytes_are_compared_and_copied() {
    assert!(bytes_equal(&[1u8, 2, 3], &[1u8, 2, 3]));
    assert!(!bytes_equal(&[1u8, 2, 3], &[1u8, 2, 4]));
    assert_eq!(bytes_to_vec(&[5u8, 6]), vec![5u8, 6]);
    assert!(Public::new([7u8; 64]).same(&Public::new([7u8; 64])));
    assert!(!H256::new([7u8; 32]).same(&H256::new([8u8; 32])));
}
