use parity_crypto::publickey::{ecies, recover, sign, Generator, KeyPair, Message, Random, Signature};
use secret_store::cluster::Cluster;
use secret_store::traits::{DocumentKeyServer, MessageSigner, ServerKeyGenerator};
use secret_store::error::Error;
use secret_store::requester::Requester;
use secret_store::servers_set::ServersSet;
use secret_store::signing::{verify_schnorr, SchnorrSignature};
use secret_store::types::{MessageHash, Public, Secret, ServerKeyId};

fn public_of(pair: &KeyPair) -> Public {
    Public::new(pair.public().to_fixed_bytes())
}

fn nodes(count: usize) -> Cluster {
    let mut set = ServersSet::new();
    while set.len() < count {
        set.insert(public_of(&Random.generate()));
    }
    Cluster::new(&set, public_of(&Random.generate()))
}

fn key(last: u8) -> ServerKeyId {
    let mut bytes = [0u8; 32];
    bytes[31] = last;
    ServerKeyId::new(bytes)
}

fn digest(fill: u8) -> MessageHash {
    MessageHash::new([fill; 32])
}

#[test]
fn schnorr_signature_verifies_under_the_server_key() {
    let mut cluster = nodes(4);
    let caller = Random.generate();
    let requester = Requester::Public(public_of(&caller));
    let joint_public = cluster.generate_key(&key(1), &requester, 1).unwrap();
    let encrypted = cluster.sign_message_schnorr(&key(1), &requester, digest(7)).unwrap();
    let plain = ecies::decrypt(caller.secret(), &[], &encrypted).unwrap();
    assert_eq!(plain.len(), 64);
    let mut challenge = [0u8; 32];
    let mut response = [0u8; 32];
    challenge.copy_from_slice(&plain[..32]);
    response.copy_from_slice(&plain[32..]);
    let signature =
        SchnorrSignature { challenge: Secret::new(challenge), response: Secret::new(response) };
    assert!(verify_schnorr(&joint_public, &digest(7), &signature));
    assert!(!verify_schnorr(&joint_public, &digest(8), &signature));
}

#[test]
fn ecdsa_signature_recovers_the_server_key() {
    let mut cluster = nodes(5);
    let caller = Random.generate();
    let proof = sign(caller.secret(), &Message::from(key(2).bytes)).unwrap();
    let proof_bytes: [u8; 65] = proof.into();
    let requester = Requester::Signature(secret_store::types::Signature::new(proof_bytes));
    let joint_public = cluster.generate_key(&key(2), &requester, 2).unwrap();
    let encrypted = cluster.sign_message_ecdsa(&key(2), &requester, digest(9)).unwrap();
    let plain = ecies::decrypt(caller.secret(), &[], &encrypted).unwrap();
    assert_eq!(plain.len(), 65);
    let mut bytes = [0u8; 65];
    bytes.copy_from_slice(&plain);
    let recovered = recover(&Signature::from(bytes), &Message::from(digest(9).bytes)).unwrap();
    assert_eq!(recovered.to_fixed_bytes(), joint_public.bytes);
}

#[test]
fn ecdsa_needs_twice_the_threshold_plus_one_holders() {
    let mut cluster = nodes(4);
    let caller = Random.generate();
    let requester = Requester::Public(public_of(&caller));
    cluster.generate_key(&key(3), &requester, 2).unwrap();
    assert_eq!(
        cluster.sign_message_ecdsa(&key(3), &requester, digest(1)),
        Err(Error::InvalidThreshold)
    );
    assert!(cluster.sign_message_schnorr(&key(3), &requester, digest(1)).is_ok());
}

#[test]
fn signing_is_refused_without_access_or_quorum() {
    let mut cluster = nodes(3);
    let caller = Random.generate();
    let requester = Requester::Public(public_of(&caller));
    assert_eq!(cluster.sign_message_schnorr(&key(4), &requester, digest(1)), Err(Error::NotFound));
    cluster.generate_key(&key(4), &requester, 1).unwrap();
    let other = Requester::Public(public_of(&Random.generate()));
    assert_eq!(
        cluster.sign_message_schnorr(&key(4), &other, digest(1)),
        Err(Error::AccessDenied)
    );
    let forged = Requester::Signature(secret_store::types::Signature::new([0u8; 65]));
    assert_eq!(
        cluster.sign_message_ecdsa(&key(4), &forged, digest(1)),
        Err(Error::BadSignature)
    );
    cluster.set_online(0, false);
    cluster.set_online(1, false);
    assert_eq!(
        cluster.sign_message_schnorr(&key(4), &requester, digest(1)),
        Err(Error::InsufficientNodes)
    );
    assert_eq!(
        cluster.sign_message_ecdsa(&key(4), &requester, digest(1)),
        Err(Error::InsufficientNodes)
    );
    cluster.set_online(0, true);
    assert!(cluster.sign_message_schnorr(&key(4), &requester, digest(1)).is_ok());
    assert_eq!(
        cluster.sign_message_ecdsa(&key(4), &requester, digest(1)),
        Err(Error::InsufficientNodes)
    );
}
