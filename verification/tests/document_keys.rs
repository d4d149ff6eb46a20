use parity_crypto::publickey::{ecies, Generator, KeyPair, Random};
use secret_store::cluster::Cluster;
use secret_store::traits::{DocumentKeyServer, MessageSigner, ServerKeyGenerator};
use secret_store::document_key::{decrypt_with_shadow_coefficients, encrypt_document_key};
use secret_store::error::Error;
use secret_store::requester::Requester;
use secret_store::servers_set::ServersSet;
use secret_store::types::{Public, Secret, ServerKeyId};

fn public_of(pair: &KeyPair) -> Public {
    Public::new(pair.public().to_fixed_bytes())
}

fn secret_of(pair: &KeyPair) -> Secret {
    Secret::new(pair.secret().to_fixed_bytes())
}

fn servers(nodes: usize) -> Cluster {
    let mut set = ServersSet::new();
    while set.len() < nodes {
        set.insert(public_of(&Random.generate()));
    }
    Cluster::new(&set, public_of(&Random.generate()))
}

fn id(last: u8) -> ServerKeyId {
    let mut bytes = [0u8; 32];
    bytes[31] = last;
    ServerKeyId::new(bytes)
}

#[test]
fn stored_document_key_is_restored_for_its_author() {
    let mut cluster = servers(4);
    let author = Random.generate();
    let requester = Requester::Public(public_of(&author));
    let joint_public = cluster.generate_key(&id(1), &requester, 1).unwrap();
    let document_key = public_of(&Random.generate());
    let k = secret_of(&Random.generate());
    let pair = encrypt_document_key(&document_key, &k, &joint_public).unwrap();
    assert_eq!(
        cluster.store_document_key(&id(1), &requester, pair.common_point, pair.encrypted_point),
        Ok(())
    );
    let encrypted = cluster.restore_document_key(&id(1), &requester).unwrap();
    let plain = ecies::decrypt(author.secret(), &[], &encrypted).unwrap();
    assert_eq!(&plain[..], &document_key.bytes[..]);
}

#[test]
fn any_quorum_restores_the_same_document_key() {
    let mut cluster = servers(5);
    let author = Random.generate();
    let requester = Requester::Public(public_of(&author));
    let joint_public = cluster.generate_key(&id(2), &requester, 2).unwrap();
    let document_key = public_of(&Random.generate());
    let k = secret_of(&Random.generate());
    let pair = encrypt_document_key(&document_key, &k, &joint_public).unwrap();
    cluster.store_document_key(&id(2), &requester, pair.common_point, pair.encrypted_point).unwrap();
    cluster.set_online(0, false);
    cluster.set_online(3, false);
    let encrypted = cluster.restore_document_key(&id(2), &requester).unwrap();
    let plain = ecies::decrypt(author.secret(), &[], &encrypted).unwrap();
    assert_eq!(&plain[..], &document_key.bytes[..]);
    cluster.set_online(0, true);
    cluster.set_online(1, false);
    let encrypted = cluster.restore_document_key(&id(2), &requester).unwrap();
    let plain = ecies::decrypt(author.secret(), &[], &encrypted).unwrap();
    assert_eq!(&plain[..], &document_key.bytes[..]);
}

#[test]
fn shadow_decryption_gives_the_document_key_to_the_requester_alone() {
    let mut cluster = servers(4);
    let author = Random.generate();
    let requester = Requester::Public(public_of(&author));
    let joint_public = cluster.generate_key(&id(3), &requester, 1).unwrap();
    let document_key = public_of(&Random.generate());
    let k = secret_of(&Random.generate());
    let pair = encrypt_document_key(&document_key, &k, &joint_public).unwrap();
    cluster.store_document_key(&id(3), &requester, pair.common_point, pair.encrypted_point).unwrap();
    let shadow = cluster.restore_document_key_shadow(&id(3), &requester).unwrap();
    assert_eq!(shadow.common_point, pair.common_point);
    assert_eq!(shadow.decrypt_shadows.len(), 2);
    assert_ne!(shadow.decrypted_secret, document_key);
    let mut coefficients = Vec::new();
    for encrypted in &shadow.decrypt_shadows {
        let plain = ecies::decrypt(author.secret(), &[], encrypted).unwrap();
        let mut bytes = [0u8; 32];
        bytes.copy_from_slice(&plain);
        coefficients.push(Secret::new(bytes));
    }
    let restored =
        decrypt_with_shadow_coefficients(&shadow.decrypted_secret, &shadow.common_point, &coefficients);
    assert_eq!(restored, Some(document_key));
    let encrypted = cluster.restore_document_key(&id(3), &requester).unwrap();
    let plain = ecies::decrypt(author.secret(), &[], &encrypted).unwrap();
    assert_eq!(&plain[..], &restored.unwrap().bytes[..]);
}

#[test]
fn restore_is_denied_to_anyone_but_the_author_and_the_delegates() {
    let mut cluster = servers(4);
    let author = Random.generate();
    let requester = Requester::Public(public_of(&author));
    let joint_public = cluster.generate_key(&id(4), &requester, 1).unwrap();
    let document_key = public_of(&Random.generate());
    let k = secret_of(&Random.generate());
    let pair = encrypt_document_key(&document_key, &k, &joint_public).unwrap();
    cluster.store_document_key(&id(4), &requester, pair.common_point, pair.encrypted_point).unwrap();
    let stranger = Random.generate();
    let other = Requester::Public(public_of(&stranger));
    assert_eq!(cluster.restore_document_key(&id(4), &other), Err(Error::AccessDenied));
    assert_eq!(cluster.restore_document_key_shadow(&id(4), &other), Err(Error::AccessDenied));
    cluster.grant(id(4), secret_store::requester::public_to_address(&public_of(&stranger)));
    let encrypted = cluster.restore_document_key(&id(4), &other).unwrap();
    let plain = ecies::decrypt(stranger.secret(), &[], &encrypted).unwrap();
    assert_eq!(&plain[..], &document_key.bytes[..]);
}

#[test]
fn restore_needs_more_holders_than_the_threshold() {
    let mut cluster = servers(4);
    let author = Random.generate();
    let requester = Requester::Public(public_of(&author));
    let joint_public = cluster.generate_key(&id(5), &requester, 2).unwrap();
    let document_key = public_of(&Random.generate());
    let k = secret_of(&Random.generate());
    let pair = encrypt_document_key(&document_key, &k, &joint_public).unwrap();
    cluster.store_document_key(&id(5), &requester, pair.common_point, pair.encrypted_point).unwrap();
    for first in 0..4 {
        for second in (first + 1)..4 {
            cluster.set_online(first, false);
            cluster.set_online(second, false);
            assert_eq!(cluster.restore_document_key(&id(5), &requester), Err(Error::InsufficientNodes));
            assert_eq!(
                cluster.restore_document_key_shadow(&id(5), &requester),
                Err(Error::InsufficientNodes)
            );
            cluster.set_online(first, true);
            cluster.set_online(second, true);
        }
    }
    assert!(cluster.restore_document_key(&id(5), &requester).is_ok());
}

#[test]
fn document_key_is_stored_once_and_only_under_a_server_key() {
    let mut cluster = servers(3);
    let author = Random.generate();
    let requester = Requester::Public(public_of(&author));
    let point = public_of(&Random.generate());
    assert_eq!(cluster.store_document_key(&id(6), &requester, point, point), Err(Error::NotFound));
    assert_eq!(cluster.restore_document_key(&id(6), &requester), Err(Error::NotFound));
    cluster.generate_key(&id(6), &requester, 1).unwrap();
    assert_eq!(cluster.restore_document_key(&id(6), &requester), Err(Error::NotFound));
    let other = Requester::Public(public_of(&Random.generate()));
    assert_eq!(cluster.store_document_key(&id(6), &other, point, point), Err(Error::AccessDenied));
    assert_eq!(cluster.store_document_key(&id(6), &requester, point, point), Ok(()));
    assert_eq!(cluster.store_document_key(&id(6), &requester, point, point), Err(Error::DuplicateKey));
}

#[test]
fn whoever_may_not_use_a_key_is_denied_before_anything_else_is_told() {
    let mut cluster = servers(3);
    let author = Random.generate();
    let requester = Requester::Public(public_of(&author));
    let stranger = Requester::Public(public_of(&Random.generate()));
    // no server key: nothing to deny
    assert_eq!(cluster.restore_document_key(&id(7), &stranger), Err(Error::NotFound));
    cluster.generate_key(&id(7), &requester, 1).unwrap();
    // a server key without a document key: the stranger is denied, the author is told
    assert_eq!(cluster.restore_document_key(&id(7), &stranger), Err(Error::AccessDenied));
    assert_eq!(cluster.restore_document_key_shadow(&id(7), &stranger), Err(Error::AccessDenied));
    assert_eq!(cluster.restore_document_key(&id(7), &requester), Err(Error::NotFound));
    assert_eq!(cluster.restore_document_key_shadow(&id(7), &requester), Err(Error::NotFound));
    // and so with too few nodes online
    cluster.set_online(0, false);
    cluster.set_online(1, false);
    assert_eq!(cluster.restore_document_key(&id(7), &stranger), Err(Error::AccessDenied));
    assert_eq!(cluster.restore_document_key(&id(7), &requester), Err(Error::NotFound));
}
