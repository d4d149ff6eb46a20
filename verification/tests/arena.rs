use secret_store::sessions::{OpenSession, SessionKind, Sessions};
use secret_store::types::ServerKeyId;

fn key(fill: u8) -> ServerKeyId {
    ServerKeyId::new([fill; 32])
}

#[test]
fn one_session_is_open_for_a_key_at_a_time() {
    let mut sessions = Sessions::new();
    assert_eq!(sessions.active(&key(1)), None);
    assert_eq!(sessions.open(key(1), SessionKind::Generation, 10), Some(0));
    assert_eq!(sessions.open(key(2), SessionKind::Signing, 20), Some(1));
    // a second session for the same key is rejected, whatever it is for
    assert_eq!(sessions.open(key(1), SessionKind::DocumentKey, 30), None);
    assert_eq!(sessions.active(&key(1)), Some(0));
    assert_eq!(sessions.active(&key(2)), Some(1));
    assert_eq!(
        sessions.get(1),
        Some(OpenSession { key: key(2), kind: SessionKind::Signing, deadline: 20 })
    );
    assert_eq!(sessions.get(7), None);
    // once the session is closed the key is free, and so is the place
    assert_eq!(
        sessions.close(0),
        Some(OpenSession { key: key(1), kind: SessionKind::Generation, deadline: 10 })
    );
    assert_eq!(sessions.close(0), None);
    assert_eq!(sessions.close(9), None);
    assert_eq!(sessions.active(&key(1)), None);
    assert_eq!(sessions.open(key(3), SessionKind::ServersSetChange, 15), Some(0));
    assert_eq!(sessions.open(key(1), SessionKind::DocumentKey, 30), Some(2));
}

#[test]
fn sessions_are_discarded_at_their_deadline() {
    let mut sessions = Sessions::new();
    sessions.open(key(1), SessionKind::Generation, 10);
    sessions.open(key(2), SessionKind::Signing, 30);
    sessions.open(key(3), SessionKind::DocumentKey, 20);
    assert_eq!(sessions.expire(9), Vec::<usize>::new());
    assert_eq!(sessions.expire(20), vec![0, 2]);
    assert_eq!(sessions.active(&key(1)), None);
    assert_eq!(sessions.active(&key(2)), Some(1));
    assert_eq!(sessions.active(&key(3)), None);
    assert_eq!(sessions.expire(20), Vec::<usize>::new());
    assert_eq!(sessions.open(key(3), SessionKind::DocumentKey, 40), Some(0));
    assert_eq!(sessions.expire(u64::MAX), vec![0, 1]);
}
