//! The session that changes the servers set. It is proposed with two
//! signatures, verifies them, moves the keys one by one, and ends completed
//! or rejected. A key that cannot be moved stays as it was, and is reported.

use vstd::prelude::*;
use crate::error::Error;
use crate::types::ServerKeyId;

verus! {

/// Where a change of the servers set stands.
#[derive(Clone, Copy, Debug, PartialEq, Eq, Structural)]
pub enum ChangeState {
    Proposed,
    Verifying,
    Migrating,
    Completed,
    Rejected,
}

/// A session as the contracts see it.
pub struct ChangeModel {
    pub state: ChangeState,
    /// How many keys are still to be moved.
    pub waiting: nat,
    /// The keys that could not be moved.
    pub failed: Seq<Seq<u8>>,
    /// Whether the session was rejected for want of an answer.
    pub timed_out: bool,
}

/// A session that is proposed, with a number of keys to move.
pub open spec fn proposed(keys: nat) -> ChangeModel {
    ChangeModel { state: ChangeState::Proposed, waiting: keys, failed: Seq::empty(), timed_out: false }
}

/// The session once the verification of the signatures begins.
pub open spec fn verifying(m: ChangeModel) -> ChangeModel {
    if m.state == ChangeState::Proposed {
        ChangeModel { state: ChangeState::Verifying, ..m }
    } else {
        m
    }
}

/// The session once the signatures are verified: it is rejected unless both
/// are good; with no key to move it is completed at once.
pub open spec fn verified(m: ChangeModel, old_set_good: bool, new_set_good: bool) -> ChangeModel {
    if m.state != ChangeState::Verifying {
        m
    } else if !(old_set_good && new_set_good) {
        ChangeModel { state: ChangeState::Rejected, ..m }
    } else if m.waiting == 0 {
        ChangeModel { state: ChangeState::Completed, ..m }
    } else {
        ChangeModel { state: ChangeState::Migrating, ..m }
    }
}

/// The session once a key is done with: moved, or left as it was. The session
/// is completed with the last key.
pub open spec fn key_done(m: ChangeModel, key: Seq<u8>, moved: bool) -> ChangeModel {
    if m.state == ChangeState::Migrating && m.waiting > 0 {
        ChangeModel {
            state: if m.waiting == 1 {
                ChangeState::Completed
            } else {
                ChangeState::Migrating
            },
            waiting: (m.waiting - 1) as nat,
            failed: if moved {
                m.failed
            } else {
                m.failed.push(key)
            },
            timed_out: m.timed_out,
        }
    } else {
        m
    }
}

/// The session once its time is up: before any key is moved, it is rejected.
pub open spec fn expired(m: ChangeModel) -> ChangeModel {
    if m.state == ChangeState::Proposed || m.state == ChangeState::Verifying {
        ChangeModel { state: ChangeState::Rejected, timed_out: true, ..m }
    } else {
        m
    }
}

/// The bytes of the key ids.
pub open spec fn id_views(ids: Seq<ServerKeyId>) -> Seq<Seq<u8>> {
    Seq::new(ids.len(), |i: int| ids[i]@)
}

/// The session that changes the servers set.
pub struct ServersSetChangeSession {
    state: ChangeState,
    waiting: usize,
    failed: Vec<ServerKeyId>,
    timed_out: bool,
}

impl View for ServersSetChangeSession {
    type V = ChangeModel;

    closed spec fn view(&self) -> ChangeModel {
        ChangeModel {
            state: self.state,
            waiting: self.waiting as nat,
            failed: id_views(self.failed@),
            timed_out: self.timed_out,
        }
    }
}

impl ServersSetChangeSession {
    /// Proposes a change that has `keys` keys to move.
    pub fn new(keys: usize) -> (session: ServersSetChangeSession)
        ensures
            session@ == proposed(keys as nat),
    {
        let session = ServersSetChangeSession {
            state: ChangeState::Proposed,
            waiting: keys,
            failed: Vec::new(),
            timed_out: false,
        };
        assert(session@.failed =~= Seq::<Seq<u8>>::empty());
        session
    }

    /// Where the session stands.
    pub fn state(&self) -> (state: ChangeState)
        ensures
            state == self@.state,
    {
        self.state
    }

    /// The verification of the signatures begins.
    pub fn start(&mut self)
        ensures
            final(self)@ == verifying(old(self)@),
    {
        if self.state == ChangeState::Proposed {
            self.state = ChangeState::Verifying;
        }
    }

    /// The signatures are verified.
    pub fn on_verified(&mut self, old_set_good: bool, new_set_good: bool)
        ensures
            final(self)@ == verified(old(self)@, old_set_good, new_set_good),
    {
        if self.state == ChangeState::Verifying {
            if !(old_set_good && new_set_good) {
                self.state = ChangeState::Rejected;
            } else if self.waiting == 0 {
                self.state = ChangeState::Completed;
            } else {
                self.state = ChangeState::Migrating;
            }
        }
    }

    /// A key is done with.
    pub fn on_key_done(&mut self, key: ServerKeyId, moved: bool)
        ensures
            final(self)@ == key_done(old(self)@, key@, moved),
    {
        if self.state == ChangeState::Migrating && self.waiting > 0 {
            self.waiting = self.waiting - 1;
            if self.waiting == 0 {
                self.state = ChangeState::Completed;
            }
            if !moved {
                self.failed.push(key);
                assert(id_views(self.failed@) =~= id_views(old(self).failed@).push(key@));
            }
        }
    }

    /// The session's time is up.
    pub fn on_timeout(&mut self)
        ensures
            final(self)@ == expired(old(self)@),
    {
        if self.state == ChangeState::Proposed || self.state == ChangeState::Verifying {
            self.state = ChangeState::Rejected;
            self.timed_out = true;
        }
    }

    /// How the session ended, `None` while it runs: a completed session has
    /// succeeded if every key was moved, and reports the others if not; a
    /// rejected session has failed on the signatures, or on the time.
    pub fn into_result(self) -> (r: Option<Result<(), Error>>)
        ensures
            self@.state == ChangeState::Completed && self@.failed.len() == 0 ==> r == Some(
                Ok::<(), Error>(()),
            ),
            self@.state == ChangeState::Completed && self@.failed.len() > 0 ==> (
            r matches Some(Err(Error::PartialMigrationFailure(ids))) && id_views(ids@)
                == self@.failed),
            self@.state == ChangeState::Rejected && !self@.timed_out ==> r == Some(
                Err::<(), Error>(Error::BadSignature),
            ),
            self@.state == ChangeState::Rejected && self@.timed_out ==> r == Some(
                Err::<(), Error>(Error::NetworkTimeout),
            ),
            self@.state != ChangeState::Completed && self@.state != ChangeState::Rejected ==> r
                is None,
    {
        match self.state {
            ChangeState::Completed => if self.failed.len() == 0 {
                Some(Ok(()))
            } else {
                Some(Err(Error::PartialMigrationFailure(self.failed)))
            },
            ChangeState::Rejected => if self.timed_out {
                Some(Err(Error::NetworkTimeout))
            } else {
                Some(Err(Error::BadSignature))
            },
            _ => None,
        }
    }
}

} // verus!
