//! The sessions that a node has open. A session is known by the place that
//! it takes in the arena. At most one session is open for a key id at a time:
//! sessions for different keys run side by side, sessions for one key one
//! after the other. A session that is not closed by its deadline is discarded.

use vstd::prelude::*;
use crate::types::ServerKeyId;

verus! {

/// What a session is for.
#[derive(Clone, Copy, Debug, PartialEq, Eq, Structural)]
pub enum SessionKind {
    Generation,
    DocumentKey,
    Signing,
    ServersSetChange,
}

/// A session that is open.
#[derive(Clone, Copy, Debug, PartialEq, Eq)]
pub struct OpenSession {
    pub key: ServerKeyId,
    pub kind: SessionKind,
    /// The time by which the session has to be closed.
    pub deadline: u64,
}

/// The arena of a node's sessions.
pub struct Sessions {
    slots: Vec<Option<OpenSession>>,
}

impl View for Sessions {
    type V = Seq<Option<OpenSession>>;

    closed spec fn view(&self) -> Seq<Option<OpenSession>> {
        self.slots@
    }
}

/// Whether a session is open for the key.
pub open spec fn busy(slots: Seq<Option<OpenSession>>, key: Seq<u8>) -> bool {
    exists|i: int| 0 <= i < slots.len() && (#[trigger] slots[i]) is Some && slots[i]->Some_0.key@ == key
}

/// No two open sessions are for the same key.
pub open spec fn exclusive(slots: Seq<Option<OpenSession>>) -> bool {
    forall|i: int, j: int|
        0 <= i < j < slots.len() && (#[trigger] slots[i]) is Some && (#[trigger] slots[j]) is Some
            ==> slots[i]->Some_0.key@ != slots[j]->Some_0.key@
}

/// The arena once the sessions whose deadline has come are discarded.
pub open spec fn expired(slots: Seq<Option<OpenSession>>, now: u64) -> Seq<Option<OpenSession>> {
    Seq::new(
        slots.len(),
        |i: int|
            match slots[i] {
                Some(session) => if session.deadline <= now {
                    None
                } else {
                    Some(session)
                },
                None => None,
            },
    )
}

/// The places among the first `upto` of the sessions whose deadline has
/// come, in ascending order.
pub open spec fn due(slots: Seq<Option<OpenSession>>, now: u64, upto: nat) -> Seq<int>
    decreases upto,
{
    if upto == 0 {
        Seq::empty()
    } else if slots[upto - 1] matches Some(session) && session.deadline <= now {
        due(slots, now, (upto - 1) as nat).push(upto - 1)
    } else {
        due(slots, now, (upto - 1) as nat)
    }
}

impl Sessions {
    /// No two open sessions are for the same key.
    pub open spec fn wf(&self) -> bool {
        exclusive(self@)
    }

    /// An arena without sessions.
    pub fn new() -> (sessions: Sessions)
        ensures
            sessions.wf(),
            sessions@.len() == 0,
    {
        Sessions { slots: Vec::new() }
    }

    /// The session that is open for the key, if there is one.
    pub fn active(&self, key: &ServerKeyId) -> (r: Option<usize>)
        ensures
            r is Some <==> busy(self@, key@),
            r matches Some(id) ==> id < self@.len() && self@[id as int] is Some
                && self@[id as int]->Some_0.key@ == key@,
    {
        let mut i: usize = 0;
        while i < self.slots.len()
            invariant
                i <= self.slots@.len(),
                forall|k: int|
                    0 <= k < i ==> !((#[trigger] self@[k]) is Some && self@[k]->Some_0.key@
                        == key@),
            decreases self.slots@.len() - i,
        {
            match &self.slots[i] {
                Some(session) => {
                    if session.key.same(key) {
                        return Some(i);
                    }
                },
                None => {},
            }
            i += 1;
        }
        None
    }

    /// The session at a place of the arena.
    pub fn get(&self, id: usize) -> (r: Option<OpenSession>)
        ensures
            r == if id < self@.len() {
                self@[id as int]
            } else {
                None
            },
    {
        if id < self.slots.len() {
            self.slots[id]
        } else {
            None
        }
    }

    fn free_slot(&self) -> (r: Option<usize>)
        ensures
            r matches Some(id) ==> id < self@.len() && self@[id as int] is None,
            r is None ==> forall|k: int| 0 <= k < self@.len() ==> (#[trigger] self@[k]) is Some,
    {
        let mut i: usize = 0;
        while i < self.slots.len()
            invariant
                i <= self.slots@.len(),
                forall|k: int| 0 <= k < i ==> (#[trigger] self@[k]) is Some,
            decreases self.slots@.len() - i,
        {
            if self.slots[i].is_none() {
                return Some(i);
            }
            i += 1;
        }
        None
    }

    /// Opens a session for a key, unless one is open for it already. The
    /// session takes a free place of the arena, or a new one.
    pub fn open(&mut self, key: ServerKeyId, kind: SessionKind, deadline: u64) -> (r: Option<
        usize,
    >)
        requires
            old(self).wf(),
        ensures
            final(self).wf(),
            r is None <==> busy(old(self)@, key@),
            r is None ==> final(self)@ == old(self)@,
            r matches Some(id) ==> {
                &&& id <= old(self)@.len()
                &&& id < old(self)@.len() ==> old(self)@[id as int] is None && final(self)@
                    == old(self)@.update(id as int, Some(OpenSession { key, kind, deadline }))
                &&& id == old(self)@.len() ==> final(self)@ == old(self)@.push(
                    Some(OpenSession { key, kind, deadline }),
                )
            },
    {
        if self.active(&key).is_some() {
            return None;
        }
        let session = OpenSession { key, kind, deadline };
        match self.free_slot() {
            Some(id) => {
                self.slots[id] = Some(session);
                Some(id)
            },
            None => {
                self.slots.push(Some(session));
                Some(self.slots.len() - 1)
            },
        }
    }

    /// Closes a session, on completion or on abort, and hands it out.
    pub fn close(&mut self, id: usize) -> (r: Option<OpenSession>)
        requires
            old(self).wf(),
        ensures
            final(self).wf(),
            id < old(self)@.len() ==> r == old(self)@[id as int] && final(self)@ == old(
                self,
            )@.update(id as int, None),
            id >= old(self)@.len() ==> r is None && final(self)@ == old(self)@,
    {
        if id < self.slots.len() {
            let session = self.slots[id];
            self.slots[id] = None;
            session
        } else {
            None
        }
    }

    /// Discards the sessions whose deadline has come, and says which they
    /// were.
    pub fn expire(&mut self, now: u64) -> (gone: Vec<usize>)
        requires
            old(self).wf(),
        ensures
            final(self).wf(),
            final(self)@ == expired(old(self)@, now),
            gone@.len() == due(old(self)@, now, old(self)@.len()).len(),
            forall|k: int|
                0 <= k < gone@.len() ==> #[trigger] gone@[k] == due(
                    old(self)@,
                    now,
                    old(self)@.len(),
                )[k],
    {
        let mut gone: Vec<usize> = Vec::new();
        let mut i: usize = 0;
        while i < self.slots.len()
            invariant
                i <= self.slots@.len(),
                self@.len() == old(self)@.len(),
                forall|k: int| 0 <= k < i ==> (#[trigger] self@[k]) == expired(old(self)@, now)[k],
                forall|k: int| i <= k < self@.len() ==> (#[trigger] self@[k]) == old(self)@[k],
                gone@.len() == due(old(self)@, now, i as nat).len(),
                forall|k: int|
                    0 <= k < gone@.len() ==> #[trigger] gone@[k] == due(old(self)@, now, i as nat)[k],
            decreases self.slots@.len() - i,
        {
            let due_now = match &self.slots[i] {
                Some(session) => session.deadline <= now,
                None => false,
            };
            if due_now {
                self.slots[i] = None;
                gone.push(i);
            }
            i += 1;
        }
        assert(self@ =~= expired(old(self)@, now));
        gone
    }
}

} // verus!
