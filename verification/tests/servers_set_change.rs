use parity_crypto::publickey::{ecies, sign, Generator, KeyPair, Message, Random};
use secret_store::cluster::Cluster;
use secret_store::document_key::encrypt_document_key;
use secret_store::error::Error;
use secret_store::requester::Requester;
use secret_store::servers_set::ServersSet;
use secret_store::servers_set_change::{ChangeState, ServersSetChangeSession};
use secret_store::traits::{AdminSessionsServer, DocumentKeyServer, ServerKeyGenerator};
use secret_store::types::{NodeId, Public, RequestSignature, Secret, ServerKeyId};

fn node(pair: &KeyPair) -> NodeId {
    Public::new(pair.public().to_fixed_bytes())
}

fn set_of(nodes: &[NodeId]) -> ServersSet {
    let mut set = ServersSet::new();
    for id in nodes {
        assert!(set.insert(*id));
    }
    set
}

fn authorize(administrator: &KeyPair, set: &ServersSet) -> RequestSignature {
    let signature = sign(administrator.secret(), &Message::from(set.digest().bytes)).unwrap();
    let bytes: [u8; 65] = signature.into();
    RequestSignature::new(bytes)
}

struct Fixture {
    cluster: Cluster,
    administrator: KeyPair,
    nodes: Vec<NodeId>,
    author: KeyPair,
    key: ServerKeyId,
    document_key: Public,
}

fn fixture() -> Fixture {
    let administrator = Random.generate();
    // in ascending order, which is the order of the nodes in the cluster
    let mut nodes: Vec<NodeId> = (0..4).map(|_| node(&Random.generate())).collect();
    nodes.sort_by_key(|id| id.bytes);
    let mut cluster = Cluster::new(&set_of(&nodes), node(&administrator));
    let author = Random.generate();
    let requester = Requester::Public(node(&author));
    let key = ServerKeyId::new([9u8; 32]);
    let public = cluster.generate_key(&key, &requester, 1).unwrap();
    let document_key = node(&Random.generate());
    let k = Secret::new(Random.generate().secret().to_fixed_bytes());
    let pair = encrypt_document_key(&document_key, &k, &public).unwrap();
    cluster.store_document_key(&key, &requester, pair.common_point, pair.encrypted_point).unwrap();
    Fixture { cluster, administrator, nodes, author, key, document_key }
}

fn restores(fixture: &Fixture) -> bool {
    let requester = Requester::Public(node(&fixture.author));
    match fixture.cluster.restore_document_key(&fixture.key, &requester) {
        Ok(encrypted) => {
            let plain = ecies::decrypt(fixture.author.secret(), &[], &encrypted).unwrap();
            &plain[..] == &fixture.document_key.bytes[..]
        }
        Err(_) => false,
    }
}

#[test]
fn keys_move_to_the_new_servers_set() {
    let mut f = fixture();
    let joining = node(&Random.generate());
    let old_set = set_of(&f.nodes);
    let new_set = set_of(&[f.nodes[0], f.nodes[1], joining]);
    let old_signature = authorize(&f.administrator, &old_set);
    let new_signature = authorize(&f.administrator, &new_set);
    assert_eq!(f.cluster.change_servers_set(old_signature, new_signature, &new_set), Ok(()));
    assert_eq!(f.cluster.size(), 5);
    assert!(restores(&f));
    // the nodes that left hold nothing: without two of the new set there is no quorum
    f.cluster.set_online(0, false);
    f.cluster.set_online(1, false);
    let requester = Requester::Public(node(&f.author));
    assert_eq!(
        f.cluster.restore_document_key(&f.key, &requester),
        Err(Error::InsufficientNodes)
    );
    // the node that joined holds a share
    f.cluster.set_online(0, true);
    assert!(restores(&f));
    // a key is generated among the members only
    f.cluster.set_online(1, true);
    f.cluster.set_online(0, false);
    f.cluster.set_online(4, false);
    let other = ServerKeyId::new([8u8; 32]);
    assert_eq!(f.cluster.generate_key(&other, &requester, 1), Err(Error::InsufficientNodes));
    assert_eq!(f.cluster.generate_key(&other, &requester, 3), Err(Error::InvalidThreshold));
    f.cluster.set_online(0, true);
    f.cluster.set_online(4, true);
    // the set as it is now is described by its nodes, whatever the order in which they came
    let back = set_of(&f.nodes);
    let stale = authorize(&f.administrator, &old_set);
    let now = authorize(&f.administrator, &set_of(&[joining, f.nodes[1], f.nodes[0]]));
    let next = authorize(&f.administrator, &back);
    assert_eq!(f.cluster.change_servers_set(stale, next, &back), Err(Error::BadSignature));
    assert_eq!(f.cluster.change_servers_set(now, next, &back), Ok(()));
    assert_eq!(f.cluster.size(), 5);
    assert!(restores(&f));
    f.cluster.set_online(0, false);
    f.cluster.set_online(1, false);
    f.cluster.set_online(4, false);
    assert!(restores(&f));
}

#[test]
fn forged_authorization_changes_nothing() {
    let mut f = fixture();
    let stranger = Random.generate();
    let old_set = set_of(&f.nodes);
    let new_set = set_of(&[f.nodes[0], f.nodes[1]]);
    let good_old = authorize(&f.administrator, &old_set);
    let good_new = authorize(&f.administrator, &new_set);
    let forged_new = authorize(&stranger, &new_set);
    let mismatched_new = authorize(&f.administrator, &set_of(&[f.nodes[0], f.nodes[2]]));
    let forged_old = authorize(&stranger, &old_set);
    assert_eq!(
        f.cluster.change_servers_set(good_old, forged_new, &new_set),
        Err(Error::BadSignature)
    );
    assert_eq!(
        f.cluster.change_servers_set(good_old, mismatched_new, &new_set),
        Err(Error::BadSignature)
    );
    assert_eq!(
        f.cluster.change_servers_set(forged_old, good_new, &new_set),
        Err(Error::BadSignature)
    );
    assert_eq!(f.cluster.size(), 4);
    // all four nodes still hold their shares: any two of them restore the key
    for first in 0..4 {
        for second in (first + 1)..4 {
            for position in 0..4 {
                f.cluster.set_online(position, position == first || position == second);
            }
            assert!(restores(&f));
        }
    }
    for position in 0..4 {
        f.cluster.set_online(position, true);
    }
    // the servers set is the old one: the old authorization is still good
    assert_eq!(f.cluster.change_servers_set(good_old, good_new, &new_set), Ok(()));
}

#[test]
fn key_that_cannot_be_moved_is_kept_and_reported() {
    let mut f = fixture();
    let old_set = set_of(&f.nodes);
    let new_set = set_of(&[f.nodes[3]]);
    let old_signature = authorize(&f.administrator, &old_set);
    let new_signature = authorize(&f.administrator, &new_set);
    assert_eq!(
        f.cluster.change_servers_set(old_signature, new_signature, &new_set),
        Err(Error::PartialMigrationFailure(vec![f.key]))
    );
    // the key is where it was
    assert!(restores(&f));
    f.cluster.set_online(3, false);
    f.cluster.set_online(2, false);
    assert!(restores(&f));
}

#[test]
fn change_session_walks_its_states() {
    let mut session = ServersSetChangeSession::new(2);
    assert_eq!(session.state(), ChangeState::Proposed);
    session.on_key_done(ServerKeyId::new([1u8; 32]), true);
    assert_eq!(session.state(), ChangeState::Proposed);
    session.start();
    assert_eq!(session.state(), ChangeState::Verifying);
    session.on_verified(true, true);
    assert_eq!(session.state(), ChangeState::Migrating);
    session.on_timeout();
    assert_eq!(session.state(), ChangeState::Migrating);
    session.on_key_done(ServerKeyId::new([1u8; 32]), true);
    assert_eq!(session.state(), ChangeState::Migrating);
    session.on_key_done(ServerKeyId::new([2u8; 32]), false);
    assert_eq!(session.state(), ChangeState::Completed);
    assert_eq!(
        session.into_result(),
        Some(Err(Error::PartialMigrationFailure(vec![ServerKeyId::new([2u8; 32])])))
    );

    let mut rejected = ServersSetChangeSession::new(1);
    rejected.start();
    rejected.on_verified(true, false);
    assert_eq!(rejected.state(), ChangeState::Rejected);
    assert_eq!(rejected.into_result(), Some(Err(Error::BadSignature)));

    let mut late = ServersSetChangeSession::new(1);
    late.start();
    late.on_timeout();
    assert_eq!(late.into_result(), Some(Err(Error::NetworkTimeout)));

    let mut empty = ServersSetChangeSession::new(0);
    assert_eq!(ServersSetChangeSession::new(0).into_result(), None);
    empty.start();
    empty.on_verified(true, true);
    assert_eq!(empty.into_result(), Some(Ok(())));
}

#[test]
fn key_with_threshold_zero_moves_to_every_member() {
    let administrator = Random.generate();
    let mut nodes: Vec<NodeId> = (0..2).map(|_| node(&Random.generate())).collect();
    nodes.sort_by_key(|id| id.bytes);
    let mut cluster = Cluster::new(&set_of(&nodes), node(&administrator));
    let author = Random.generate();
    let requester = Requester::Public(node(&author));
    let key = ServerKeyId::new([6u8; 32]);
    let public = cluster.generate_key(&key, &requester, 0).unwrap();
    let document_key = node(&Random.generate());
    let k = Secret::new(Random.generate().secret().to_fixed_bytes());
    let pair = encrypt_document_key(&document_key, &k, &public).unwrap();
    cluster.store_document_key(&key, &requester, pair.common_point, pair.encrypted_point).unwrap();
    let joining = node(&Random.generate());
    let new_set = set_of(&[nodes[1], joining]);
    let old_signature = authorize(&administrator, &set_of(&nodes));
    let new_signature = authorize(&administrator, &new_set);
    assert_eq!(cluster.change_servers_set(old_signature, new_signature, &new_set), Ok(()));
    let mut f = Fixture { cluster, administrator, nodes, author, key, document_key };
    // each member alone restores the key; the node that left holds nothing
    f.cluster.set_online(1, false);
    assert!(restores(&f));
    f.cluster.set_online(1, true);
    f.cluster.set_online(2, false);
    assert!(restores(&f));
    f.cluster.set_online(1, false);
    assert!(!restores(&f));
}
