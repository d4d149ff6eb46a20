use parity_crypto::publickey::{ecies, Generator, KeyPair, Random};
use secret_store::cluster::Cluster;
use secret_store::document_key::encrypt_document_key;
use secret_store::error::Error;
use secret_store::requester::Requester;
use secret_store::servers_set::ServersSet;
use secret_store::traits::{DocumentKeyServer, ServerKeyGenerator};
use secret_store::types::{Public, Secret, ServerKeyId};

fn point(pair: &KeyPair) -> Public {
    Public::new(pair.public().to_fixed_bytes())
}

#[test]
fn four_nodes_threshold_one() {
    let mut set = ServersSet::new();
    while set.len() < 4 {
        set.insert(point(&Random.generate()));
    }
    let mut cluster = Cluster::new(&set, point(&Random.generate()));
    assert_eq!(cluster.size(), 4);
    let mut name = [0u8; 32];
    name[30] = b'K';
    name[31] = b'1';
    let k1 = ServerKeyId::new(name);
    let author = Random.generate();
    let requester = Requester::Public(point(&author));

    let y = cluster.generate_key(&k1, &requester, 1).unwrap();
    assert_eq!(cluster.restore_key_public(&k1, &requester), Ok(y));

    let m = point(&Random.generate());
    let k = Secret::new(Random.generate().secret().to_fixed_bytes());
    let pair = encrypt_document_key(&m, &k, &y).unwrap();
    let (c1, e1) = (pair.common_point, pair.encrypted_point);
    assert_eq!(cluster.store_document_key(&k1, &requester, c1, e1), Ok(()));

    let restored = cluster.restore_document_key(&k1, &requester).unwrap();
    assert_eq!(restored.len(), 64 + 113);
    let plain = ecies::decrypt(author.secret(), &[], &restored).unwrap();
    assert_eq!(&plain[..], &m.bytes[..]);

    let other = Requester::Public(point(&Random.generate()));
    assert_eq!(cluster.restore_document_key(&k1, &other), Err(Error::AccessDenied));
    assert_eq!(cluster.restore_key_public(&k1, &other), Err(Error::AccessDenied));
}

#[test]
fn generated_document_key_is_restored() {
    let mut set = ServersSet::new();
    while set.len() < 3 {
        set.insert(point(&Random.generate()));
    }
    let mut cluster = Cluster::new(&set, point(&Random.generate()));
    let id = ServerKeyId::new([3u8; 32]);
    let author = Random.generate();
    let requester = Requester::Public(point(&author));
    let encrypted = cluster.generate_document_key(&id, &requester, 1).unwrap();
    let made = ecies::decrypt(author.secret(), &[], &encrypted).unwrap();
    assert_eq!(made.len(), 64);
    let restored = cluster.restore_document_key(&id, &requester).unwrap();
    let plain = ecies::decrypt(author.secret(), &[], &restored).unwrap();
    assert_eq!(plain, made);
    assert_eq!(cluster.generate_document_key(&id, &requester, 1), Err(Error::DuplicateKey));
    let point = Public::new([1u8; 64]);
    assert_eq!(cluster.store_document_key(&id, &requester, point, point), Err(Error::DuplicateKey));
}
