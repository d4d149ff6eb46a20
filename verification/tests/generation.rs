use parity_crypto::publickey::{Generator, Random};
use secret_store::cluster::Cluster;
use secret_store::traits::{DocumentKeyServer, MessageSigner, ServerKeyGenerator};
use secret_store::error::Error;
use secret_store::math::{generation_point, multiply_point, scalar_from};
use secret_store::requester::Requester;
use secret_store::servers_set::ServersSet;
use secret_store::types::{Public, ServerKeyId};

fn random_public() -> Public {
    Public::new(Random.generate().public().to_fixed_bytes())
}

fn cluster_of(nodes: usize) -> Cluster {
    let mut servers = ServersSet::new();
    while servers.len() < nodes {
        servers.insert(random_public());
    }
    Cluster::new(&servers, random_public())
}

fn key_id(last: u8) -> ServerKeyId {
    let mut bytes = [0u8; 32];
    bytes[31] = last;
    ServerKeyId::new(bytes)
}

#[test]
fn generation_succeeds_with_all_nodes_online() {
    let mut cluster = cluster_of(4);
    let author = Requester::Public(random_public());
    let public = cluster.generate_key(&key_id(1), &author, 1).unwrap();
    assert_eq!(cluster.restore_key_public(&key_id(1), &author), Ok(public));
}

#[test]
fn generation_refuses_a_threshold_that_does_not_fit() {
    let mut cluster = cluster_of(4);
    let author = Requester::Public(random_public());
    assert_eq!(cluster.generate_key(&key_id(1), &author, 4), Err(Error::InvalidThreshold));
    assert!(cluster.generate_key(&key_id(1), &author, 3).is_ok());
}

#[test]
fn generation_refuses_a_key_id_twice() {
    let mut cluster = cluster_of(3);
    let author = Requester::Public(random_public());
    assert!(cluster.generate_key(&key_id(7), &author, 1).is_ok());
    assert_eq!(cluster.generate_key(&key_id(7), &author, 1), Err(Error::DuplicateKey));
}

#[test]
fn generation_needs_more_nodes_than_the_threshold() {
    let mut cluster = cluster_of(4);
    let author = Requester::Public(random_public());
    cluster.set_online(0, false);
    cluster.set_online(2, false);
    cluster.set_online(3, false);
    assert_eq!(cluster.generate_key(&key_id(1), &author, 1), Err(Error::InsufficientNodes));
    cluster.set_online(2, true);
    assert!(cluster.generate_key(&key_id(1), &author, 1).is_ok());
}

#[test]
fn generation_from_given_polynomials_gives_the_sum_of_the_constants() {
    let mut cluster = cluster_of(3);
    let author = Requester::Public(random_public());
    let polynomials = vec![
        Some(vec![scalar_from(5), scalar_from(1)]),
        Some(vec![scalar_from(7), scalar_from(2)]),
        Some(vec![scalar_from(11), scalar_from(3)]),
    ];
    let public = cluster.generate_key_with(&key_id(9), &author, 1, polynomials).unwrap();
    let expected = multiply_point(&generation_point(), &vec![scalar_from(23)]).unwrap()[0];
    assert_eq!(public, expected);
    assert_eq!(cluster.restore_key_public(&key_id(9), &author), Ok(expected));
    // the polynomial of a node that is offline does not count
    cluster.set_online(2, false);
    let polynomials = vec![
        Some(vec![scalar_from(5), scalar_from(1)]),
        Some(vec![scalar_from(7), scalar_from(2)]),
        Some(vec![scalar_from(11), scalar_from(3)]),
    ];
    let public = cluster.generate_key_with(&key_id(10), &author, 1, polynomials).unwrap();
    let expected = multiply_point(&generation_point(), &vec![scalar_from(12)]).unwrap()[0];
    assert_eq!(public, expected);
    // a node that is given no polynomial does not answer
    let polynomials = vec![Some(vec![scalar_from(5), scalar_from(1)]), None];
    assert_eq!(
        cluster.generate_key_with(&key_id(11), &author, 1, polynomials),
        Err(Error::InsufficientNodes)
    );
    assert_eq!(cluster.restore_key_public(&key_id(11), &author), Err(Error::NotFound));
}
