use parity_crypto::publickey::{self, ecdh, sign, verify_public, Generator, Message, Random};
use secret_store::node_key::{KeyError, KeyPair, NodeKeyPair, PlainNodeKeyPair};
use secret_store::requester::{public_to_address, Requester};
use secret_store::types::{Address, Public, Secret, ServerKeyId, Signature, H256};

fn pair_of(outside: &publickey::KeyPair) -> KeyPair {
    KeyPair {
        secret: Secret::new(outside.secret().to_fixed_bytes()),
        public: Public::new(outside.public().to_fixed_bytes()),
    }
}

#[test]
fn address_is_the_tail_of_the_public_keys_digest() {
    let outside = Random.generate();
    let public = Public::new(outside.public().to_fixed_bytes());
    assert_eq!(public_to_address(&public), Address::new(outside.address().to_fixed_bytes()));
    assert_ne!(&public_to_address(&public).bytes[..], &public.bytes[..20]);
}

#[test]
fn key_pair_is_derived_from_its_secret() {
    let outside = Random.generate();
    let expected = pair_of(&outside);
    assert_eq!(KeyPair::from_secret(expected.secret), Ok(expected));
    assert_eq!(KeyPair::from_secret(Secret::new([0u8; 32])), Err(KeyError::InvalidKey));
    assert_eq!(KeyPair::from_secret(Secret::new([0xffu8; 32])), Err(KeyError::InvalidKey));
}

#[test]
fn requester_resolves_to_the_signer() {
    let caller = Random.generate();
    let key = ServerKeyId::new([4u8; 32]);
    let proof: [u8; 65] = sign(caller.secret(), &Message::from(key.bytes)).unwrap().into();
    let by_signature = Requester::Signature(Signature::new(proof));
    let by_public = Requester::Public(Public::new(caller.public().to_fixed_bytes()));
    assert_eq!(by_signature.public(&key), Ok(Public::new(caller.public().to_fixed_bytes())));
    assert_eq!(by_signature.address(&key), Ok(Address::new(caller.address().to_fixed_bytes())));
    assert_eq!(by_public.address(&key), by_signature.address(&key));
    assert!(by_signature.equivalent(&by_public, &key));
    assert!(by_public.equivalent(&by_signature, &key));
    // the same signature proves nothing for another key
    let other = ServerKeyId::new([5u8; 32]);
    assert!(!by_signature.equivalent(&by_public, &other));
    let stranger = Requester::Public(Public::new(Random.generate().public().to_fixed_bytes()));
    assert!(!stranger.equivalent(&by_public, &key));
    let malformed = Requester::Signature(Signature::new([0u8; 65]));
    assert_eq!(malformed.public(&key), Err(secret_store::error::Error::BadSignature));
    assert_eq!(malformed.address(&key), Err(secret_store::error::Error::BadSignature));
    assert!(!malformed.equivalent(&malformed, &key));
}

#[test]
fn node_signs_with_its_secret() {
    let outside = Random.generate();
    let node = PlainNodeKeyPair::new(pair_of(&outside));
    assert_eq!(node.public().bytes, outside.public().to_fixed_bytes());
    assert_eq!(node.address(), Address::new(outside.address().to_fixed_bytes()));
    let data = H256::new([7u8; 32]);
    let signature = node.sign(&data).unwrap();
    let message = Message::from(data.bytes);
    assert_eq!(signature.bytes, Into::<[u8; 65]>::into(sign(outside.secret(), &message).unwrap()));
    assert!(verify_public(outside.public(), &publickey::Signature::from(signature.bytes), &message)
        .unwrap());
    let broken = PlainNodeKeyPair::new(KeyPair {
        secret: Secret::new([0u8; 32]),
        public: Public::new([0u8; 64]),
    });
    assert_eq!(broken.sign(&data), Err(KeyError::InvalidKey));
}

#[test]
fn two_nodes_agree_on_the_key_of_their_channel() {
    let (first, second) = (Random.generate(), Random.generate());
    let left = PlainNodeKeyPair::new(pair_of(&first));
    let right = PlainNodeKeyPair::new(pair_of(&second));
    let from_left = left.compute_shared_key(right.public()).unwrap();
    let from_right = right.compute_shared_key(left.public()).unwrap();
    assert_eq!(from_left, from_right);
    let agreed = ecdh::agree(first.secret(), second.public()).unwrap();
    assert_eq!(from_left.secret.bytes, agreed.to_fixed_bytes());
    assert_eq!(KeyPair::from_secret(from_left.secret), Ok(from_left));
    assert_ne!(from_left.secret.bytes, first.secret().to_fixed_bytes());
    assert_eq!(left.compute_shared_key(&Public::new([0u8; 64])), Err(KeyError::InvalidKey));
}
