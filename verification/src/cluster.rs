//! A cluster of nodes in one process. Each node keeps its own store of
//! shares; a request is served by running the protocol among the nodes that
//! are online, with each node working from its own store alone.

use vstd::prelude::*;
use crate::curve;
use crate::model::{ClusterModel, NodeModel, ServerKey};
use crate::quorum::Outcome;
use crate::requester::Requester;
use crate::servers_set::ServersSet;
use crate::share_store::{Records, ShareStore};
use crate::types::{Address, NodeId, Public, ServerKeyId};

mod document_keys;
mod migration;
mod server_keys;
mod signatures;

verus! {

/// One node of the cluster.
pub struct ClusterNode {
    pub(crate) id: NodeId,
    pub(crate) online: bool,
    pub(crate) member: bool,
    pub(crate) shares: ShareStore,
}

/// An entry of the access list: an address that may use a key beside its
/// author.
#[derive(Clone, Copy, Debug, PartialEq, Eq)]
pub struct Delegate {
    pub key: ServerKeyId,
    pub address: Address,
}

/// The cluster.
pub struct Cluster {
    pub(crate) nodes: Vec<ClusterNode>,
    pub(crate) keys: Records<ServerKey>,
    pub(crate) delegates: Vec<Delegate>,
    pub(crate) administrator: Public,
}

impl View for ClusterNode {
    type V = NodeModel;

    open(crate) spec fn view(&self) -> NodeModel {
        NodeModel { id: self.id@, online: self.online, member: self.member, shares: self.shares@ }
    }
}

impl View for Cluster {
    type V = ClusterModel;

    open(crate) spec fn view(&self) -> ClusterModel {
        ClusterModel {
            nodes: Seq::new(self.nodes@.len(), |i: int| self.nodes@[i]@),
            keys: self.keys@,
            delegates: Seq::new(
                self.delegates@.len(),
                |i: int| (self.delegates@[i].key@, self.delegates@[i].address@),
            ),
            administrator: self.administrator@,
        }
    }
}

impl Cluster {
    /// Every store keeps at most one record under an id, and a share is kept
    /// only of a key that has its entry.
    pub open(crate) spec fn wf(&self) -> bool {
        &&& self.keys.wf()
        &&& forall|i: int| 0 <= i < self.nodes@.len() ==> (#[trigger] self.nodes@[i]).shares.wf()
        &&& forall|i: int, key: Seq<u8>|
            0 <= i < self.nodes@.len() && (#[trigger] self.nodes@[i].shares@.contains_key(key))
                ==> self.keys@.contains_key(key)
    }

    /// A cluster of the given servers, all of them online, that serves no key
    /// yet.
    pub fn new(servers: &ServersSet, administrator: Public) -> (cluster: Cluster)
        ensures
            cluster.wf(),
            cluster@.nodes.len() == servers@.len(),
            forall|i: int|
                0 <= i < servers@.len() ==> #[trigger] cluster@.nodes[i] == (NodeModel {
                    id: servers@[i],
                    online: true,
                    member: true,
                    shares: Map::empty(),
                }),
            cluster@.keys == Map::<Seq<u8>, ServerKey>::empty(),
            cluster@.delegates == Seq::<(Seq<u8>, Seq<u8>)>::empty(),
            cluster@.administrator == administrator@,
    {
        let mut nodes: Vec<ClusterNode> = Vec::new();
        let mut i: usize = 0;
        while i < servers.len()
            invariant
                i <= servers@.len(),
                nodes@.len() == i,
                forall|k: int|
                    0 <= k < i ==> (#[trigger] nodes@[k]).shares.wf() && nodes@[k]@ == (NodeModel {
                        id: servers@[k],
                        online: true,
                        member: true,
                        shares: Map::empty(),
                    }),
            decreases servers@.len() - i,
        {
            nodes.push(
                ClusterNode { id: servers.get(i), online: true, member: true, shares: Records::new() },
            );
            i += 1;
        }
        let cluster = Cluster { nodes, keys: Records::new(), delegates: Vec::new(), administrator };
        assert(cluster@.delegates =~= Seq::<(Seq<u8>, Seq<u8>)>::empty());
        cluster
    }

    /// The number of nodes that the cluster has known.
    pub fn size(&self) -> (n: usize)
        ensures
            n == self@.nodes.len(),
    {
        self.nodes.len()
    }

    /// Marks the node at a position as answering or not. Where there is no
    /// such node, nothing is changed.
    pub fn set_online(&mut self, position: usize, online: bool)
        requires
            old(self).wf(),
        ensures
            final(self).wf(),
            position < old(self)@.nodes.len() ==> final(self)@ == (ClusterModel {
                nodes: old(self)@.nodes.update(
                    position as int,
                    NodeModel { online, ..old(self)@.nodes[position as int] },
                ),
                ..old(self)@
            }),
            position >= old(self)@.nodes.len() ==> final(self)@ == old(self)@,
    {
        if position < self.nodes.len() {
            self.nodes[position].online = online;
            assert(self@.nodes =~= old(self)@.nodes.update(
                position as int,
                NodeModel { online, ..old(self)@.nodes[position as int] },
            ));
            assert(self@.delegates =~= old(self)@.delegates);
        }
    }

    /// Puts an address on the access list of a key.
    pub fn grant(&mut self, key: ServerKeyId, address: Address)
        requires
            old(self).wf(),
        ensures
            final(self).wf(),
            final(self)@ == (ClusterModel {
                delegates: old(self)@.delegates.push((key@, address@)),
                ..old(self)@
            }),
    {
        self.delegates.push(Delegate { key, address });
        assert(self@.delegates =~= old(self)@.delegates.push((key@, address@)));
        assert(self@.nodes =~= old(self)@.nodes);
    }

    pub(crate) fn participation_tags(&self) -> (tags: Vec<Outcome>)
        ensures
            tags@ == self@.participation(),
    {
        let mut tags: Vec<Outcome> = Vec::new();
        let mut i: usize = 0;
        while i < self.nodes.len()
            invariant
                i <= self.nodes@.len(),
                tags@.len() == i,
                forall|k: int| 0 <= k < i ==> #[trigger] tags@[k] == self@.participation()[k],
            decreases self.nodes@.len() - i,
        {
            let tag = if self.nodes[i].member && self.nodes[i].online {
                Outcome::Valid
            } else {
                Outcome::Timeout
            };
            tags.push(tag);
            i += 1;
        }
        assert(tags@ =~= self@.participation());
        tags
    }

    pub(crate) fn membership_tags(&self) -> (tags: Vec<Outcome>)
        ensures
            tags@ == self@.membership(),
    {
        let mut tags: Vec<Outcome> = Vec::new();
        let mut i: usize = 0;
        while i < self.nodes.len()
            invariant
                i <= self.nodes@.len(),
                tags@.len() == i,
                forall|k: int| 0 <= k < i ==> #[trigger] tags@[k] == self@.membership()[k],
            decreases self.nodes@.len() - i,
        {
            let tag = if self.nodes[i].member {
                Outcome::Valid
            } else {
                Outcome::Timeout
            };
            tags.push(tag);
            i += 1;
        }
        assert(tags@ =~= self@.membership());
        tags
    }

    pub(crate) fn availability_tags(&self, key: &ServerKeyId) -> (tags: Vec<Outcome>)
        requires
            self.wf(),
        ensures
            tags@ == self@.availability(key@),
    {
        let mut tags: Vec<Outcome> = Vec::new();
        let mut i: usize = 0;
        while i < self.nodes.len()
            invariant
                self.wf(),
                i <= self.nodes@.len(),
                tags@.len() == i,
                forall|k: int| 0 <= k < i ==> #[trigger] tags@[k] == self@.availability(key@)[k],
            decreases self.nodes@.len() - i,
        {
            let tag = if self.nodes[i].online && self.nodes[i].shares.contains(key) {
                Outcome::Valid
            } else {
                Outcome::Timeout
            };
            tags.push(tag);
            i += 1;
        }
        assert(tags@ =~= self@.availability(key@));
        tags
    }

    /// Asks the holders of a key's shares that are online for the point
    /// `probe` times their shares, and tags their answers.
    pub(crate) fn answer_tags(&self, key: &ServerKeyId, probe: &Public) -> (tags: Vec<Outcome>)
        requires
            self.wf(),
        ensures
            tags@ == self@.answers(key@, probe@),
    {
        let mut tags: Vec<Outcome> = Vec::new();
        let mut i: usize = 0;
        while i < self.nodes.len()
            invariant
                self.wf(),
                i <= self.nodes@.len(),
                tags@.len() == i,
                forall|k: int| 0 <= k < i ==> #[trigger] tags@[k] == self@.answers(key@, probe@)[k],
            decreases self.nodes@.len() - i,
        {
            let tag = if self.nodes[i].online {
                match self.nodes[i].shares.get(key) {
                    Some(record) => match curve::mul_point(probe, &record.share) {
                        Some(_) => Outcome::Valid,
                        None => Outcome::Inconsistent,
                    },
                    None => Outcome::Timeout,
                }
            } else {
                Outcome::Timeout
            };
            tags.push(tag);
            i += 1;
        }
        assert(tags@ =~= self@.answers(key@, probe@));
        tags
    }

    pub(crate) fn holding_tags(&self, key: &ServerKeyId) -> (tags: Vec<Outcome>)
        requires
            self.wf(),
        ensures
            tags@ == self@.holding(key@),
    {
        let mut tags: Vec<Outcome> = Vec::new();
        let mut i: usize = 0;
        while i < self.nodes.len()
            invariant
                self.wf(),
                i <= self.nodes@.len(),
                tags@.len() == i,
                forall|k: int| 0 <= k < i ==> #[trigger] tags@[k] == self@.holding(key@)[k],
            decreases self.nodes@.len() - i,
        {
            let tag = if self.nodes[i].shares.contains(key) {
                Outcome::Valid
            } else {
                Outcome::Timeout
            };
            tags.push(tag);
            i += 1;
        }
        assert(tags@ =~= self@.holding(key@));
        tags
    }

    /// Whether the address is on the access list of the key.
    pub(crate) fn is_delegate(&self, key: &ServerKeyId, address: &Address) -> (r: bool)
        ensures
            r == self@.delegates.contains((key@, address@)),
    {
        let mut i: usize = 0;
        while i < self.delegates.len()
            invariant
                i <= self.delegates@.len(),
                forall|k: int| 0 <= k < i ==> self@.delegates[k] != (key@, address@),
            decreases self.delegates@.len() - i,
        {
            if self.delegates[i].key.same(key) && self.delegates[i].address.same(address) {
                assert(self@.delegates[i as int] == (key@, address@));
                return true;
            }
            i += 1;
        }
        false
    }

    /// Whether the requester may use the key.
    pub(crate) fn check_access(&self, key_id: &ServerKeyId, entry: &ServerKey, requester: &Requester) -> (r:
        bool)
        requires
            self@.keys.contains_key(key_id@),
            self@.keys[key_id@] == *entry,
        ensures
            r == self@.may_access(key_id@, requester.resolved_address(key_id@)),
    {
        match requester.address(key_id) {
            Ok(address) => entry.author.same(&address) || self.is_delegate(key_id, &address),
            Err(_) => false,
        }
    }

    /// Whether the requester is the key's author.
    pub(crate) fn check_author(&self, key_id: &ServerKeyId, entry: &ServerKey, author: &Requester) -> (r: bool)
        requires
            self@.keys.contains_key(key_id@),
            self@.keys[key_id@] == *entry,
        ensures
            r == self@.is_author(key_id@, author.resolved_address(key_id@)),
    {
        match author.address(key_id) {
            Ok(address) => entry.author.same(&address),
            Err(_) => false,
        }
    }

}

} // verus!
