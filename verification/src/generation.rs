//! Generation of a server key. Every node deals a random polynomial: it
//! commits to the coefficients, then hands each node the polynomial's value at
//! that node's number. The key's public point is the sum of the constant
//! commitments of the dealers whose shares match; a node's share is the sum of
//! what those dealers gave it. The session that collects the answers is a
//! state machine that is driven by the arrival of answers and by timeouts.

use vstd::prelude::*;
use crate::error::Error;
use crate::math::{points_sum, public_views, scalars_sum, secret_views, sum_points, sum_scalars};
use crate::quorum::{check_quorum, check_threshold, verdict, Outcome};
use crate::sharing::{commit, commitments_of, deal, shares_match, shares_of, verify_shares};
use crate::types::{Public, Secret};

verus! {

/// Where a generation session stands.
#[derive(Clone, Copy, Debug, PartialEq, Eq, Structural)]
pub enum GenerationState {
    Initialized,
    CollectingCommitments,
    CollectingShares,
    Completed,
    Failed,
}

/// What a completed session leaves: the key's public point, and for every
/// node its share, or `None` where the node holds none.
#[derive(Debug)]
pub struct GeneratedKey {
    pub public: Public,
    pub shares: Vec<Option<Secret>>,
}

/// A generated key as the contracts see it.
pub struct GeneratedModel {
    pub public: Seq<u8>,
    pub shares: Seq<Option<Seq<u8>>>,
}

/// The bytes of the shares, where there are any.
pub open spec fn share_views(shares: Seq<Option<Secret>>) -> Seq<Option<Seq<u8>>> {
    Seq::new(
        shares.len(),
        |i: int|
            match shares[i] {
                Some(share) => Some(share@),
                None => None,
            },
    )
}

impl View for GeneratedKey {
    type V = GeneratedModel;

    open spec fn view(&self) -> GeneratedModel {
        GeneratedModel { public: self.public@, shares: share_views(self.shares@) }
    }
}

/// A session as the contracts see it.
pub struct SessionModel {
    pub threshold: nat,
    pub state: GenerationState,
    /// What each node committed to, where it answered.
    pub commitments: Seq<Option<Seq<Seq<u8>>>>,
    /// What each node dealt to the nodes, where it answered.
    pub shares: Seq<Option<Seq<Seq<u8>>>>,
    pub failure: Option<Error>,
}

/// The tag of a node's answer in the first round: commitments are valid when
/// there is one for each coefficient.
pub open spec fn commitment_outcome(commitments: Option<Seq<Seq<u8>>>, threshold: nat) -> Outcome {
    match commitments {
        None => Outcome::Timeout,
        Some(points) => if points.len() == threshold + 1 {
            Outcome::Valid
        } else {
            Outcome::Inconsistent
        },
    }
}

/// The tag of a node's answer in the second round: its shares are valid when
/// its commitments were, there is one share for each node, and every share
/// matches the commitments.
pub open spec fn share_outcome(
    commitments: Option<Seq<Seq<u8>>>,
    shares: Option<Seq<Seq<u8>>>,
    threshold: nat,
    nodes: nat,
) -> Outcome {
    match shares {
        None => Outcome::Timeout,
        Some(dealt) => match commitments {
            None => Outcome::Inconsistent,
            Some(points) => if points.len() == threshold + 1 && dealt.len() == nodes
                && shares_match(dealt, points) {
                Outcome::Valid
            } else {
                Outcome::Inconsistent
            },
        },
    }
}

/// The tags of the first round.
pub open spec fn commitment_outcomes(m: SessionModel) -> Seq<Outcome> {
    Seq::new(m.commitments.len(), |i: int| commitment_outcome(m.commitments[i], m.threshold))
}

/// The tags of the second round.
pub open spec fn share_outcomes(m: SessionModel) -> Seq<Outcome> {
    Seq::new(
        m.commitments.len(),
        |i: int| share_outcome(m.commitments[i], m.shares[i], m.threshold, m.commitments.len()),
    )
}

/// The constant commitments of the valid dealers among the first `upto`.
pub open spec fn joint_terms(
    commitments: Seq<Option<Seq<Seq<u8>>>>,
    outcomes: Seq<Outcome>,
    upto: nat,
) -> Seq<Seq<u8>>
    decreases upto,
{
    if upto == 0 {
        Seq::empty()
    } else if outcomes[upto - 1] == Outcome::Valid {
        joint_terms(commitments, outcomes, (upto - 1) as nat).push(
            commitments[upto - 1]->Some_0[0],
        )
    } else {
        joint_terms(commitments, outcomes, (upto - 1) as nat)
    }
}

/// What the valid dealers among the first `upto` gave to the node at
/// `receiver`.
pub open spec fn share_terms(
    shares: Seq<Option<Seq<Seq<u8>>>>,
    outcomes: Seq<Outcome>,
    receiver: int,
    upto: nat,
) -> Seq<Seq<u8>>
    decreases upto,
{
    if upto == 0 {
        Seq::empty()
    } else if outcomes[upto - 1] == Outcome::Valid {
        share_terms(shares, outcomes, receiver, (upto - 1) as nat).push(
            shares[upto - 1]->Some_0[receiver],
        )
    } else {
        share_terms(shares, outcomes, receiver, (upto - 1) as nat)
    }
}

/// The public point of the key: the sum of the valid dealers' constant
/// commitments.
pub open spec fn joint_public(m: SessionModel) -> Option<Seq<u8>> {
    let terms = joint_terms(m.commitments, share_outcomes(m), m.commitments.len());
    points_sum(terms, terms.len())
}

/// The share of the node at `receiver`: the sum of what the valid dealers gave
/// it.
pub open spec fn joint_share(m: SessionModel, receiver: int) -> Option<Seq<u8>> {
    let terms = share_terms(m.shares, share_outcomes(m), receiver, m.commitments.len());
    scalars_sum(terms, terms.len())
}

/// The key that the answers give, where every sum is defined. The holders are
/// the valid dealers.
pub open spec fn generated(m: SessionModel) -> Option<GeneratedModel> {
    let outcomes = share_outcomes(m);
    if joint_public(m) is Some && (forall|j: int|
        0 <= j < outcomes.len() && outcomes[j] == Outcome::Valid ==> #[trigger] joint_share(m, j)
            is Some) {
        Some(
            GeneratedModel {
                public: joint_public(m)->Some_0,
                shares: Seq::new(
                    outcomes.len(),
                    |j: int|
                        if outcomes[j] == Outcome::Valid {
                            joint_share(m, j)
                        } else {
                            None
                        },
                ),
            },
        )
    } else {
        None
    }
}

/// How the session ends once the second round is closed: by the quorum rule
/// over the tags of the second round, and then by whether the sums are defined.
pub open spec fn session_result(m: SessionModel) -> Result<GeneratedModel, Error> {
    match verdict(share_outcomes(m), m.threshold) {
        Err(e) => Err(e),
        Ok(()) => match generated(m) {
            Some(key) => Ok(key),
            None => Err(Error::InconsistentShare),
        },
    }
}

/// The nodes among the first `upto` that answered inconsistently, in
/// either round: the nodes that the session warns of.
pub open spec fn suspects(m: SessionModel, upto: nat) -> Seq<int>
    decreases upto,
{
    if upto == 0 {
        Seq::empty()
    } else if commitment_outcomes(m)[upto - 1] == Outcome::Inconsistent || share_outcomes(
        m,
    )[upto - 1] == Outcome::Inconsistent {
        suspects(m, (upto - 1) as nat).push(upto - 1)
    } else {
        suspects(m, (upto - 1) as nat)
    }
}

/// Every node has answered.
pub open spec fn all_answered<T>(answers: Seq<Option<T>>) -> bool {
    forall|i: int| 0 <= i < answers.len() ==> (#[trigger] answers[i]) is Some
}

/// Closing the round that the session is in. The first round ends by the
/// quorum rule over its tags; the second ends the session.
pub open spec fn closed(m: SessionModel) -> SessionModel {
    match m.state {
        GenerationState::CollectingCommitments => match verdict(
            commitment_outcomes(m),
            m.threshold,
        ) {
            Ok(()) => SessionModel { state: GenerationState::CollectingShares, ..m },
            Err(e) => SessionModel { state: GenerationState::Failed, failure: Some(e), ..m },
        },
        GenerationState::CollectingShares => match session_result(m) {
            Ok(_) => SessionModel { state: GenerationState::Completed, ..m },
            Err(e) => SessionModel { state: GenerationState::Failed, failure: Some(e), ..m },
        },
        _ => m,
    }
}

/// The session after a node's commitments arrive. Only the first answer of a
/// node counts, and only in the first round; the round closes with the last
/// answer.
pub open spec fn with_commitments(m: SessionModel, node: int, points: Seq<Seq<u8>>) -> SessionModel {
    if m.state == GenerationState::CollectingCommitments && 0 <= node < m.commitments.len()
        && m.commitments[node] is None {
        let recorded = SessionModel { commitments: m.commitments.update(node, Some(points)), ..m };
        if all_answered(recorded.commitments) {
            closed(recorded)
        } else {
            recorded
        }
    } else {
        m
    }
}

/// The session after a node's shares arrive. Only the first answer of a node
/// counts, and only in the second round; the round closes with the last
/// answer.
pub open spec fn with_shares(m: SessionModel, node: int, dealt: Seq<Seq<u8>>) -> SessionModel {
    if m.state == GenerationState::CollectingShares && 0 <= node < m.shares.len()
        && m.shares[node] is None {
        let recorded = SessionModel { shares: m.shares.update(node, Some(dealt)), ..m };
        if all_answered(recorded.shares) {
            closed(recorded)
        } else {
            recorded
        }
    } else {
        m
    }
}

/// The session once it is started.
pub open spec fn started(m: SessionModel) -> SessionModel {
    if m.state == GenerationState::Initialized {
        SessionModel { state: GenerationState::CollectingCommitments, ..m }
    } else {
        m
    }
}

/// The bytes of the commitments that have arrived.
pub open spec fn commitment_views(answers: Seq<Option<Vec<Public>>>) -> Seq<Option<Seq<Seq<u8>>>> {
    Seq::new(
        answers.len(),
        |i: int|
            match answers[i] {
                Some(points) => Some(public_views(points@)),
                None => None,
            },
    )
}

/// The bytes of the scalars that each node has dealt, or deals.
pub open spec fn dealt_views(answers: Seq<Option<Vec<Secret>>>) -> Seq<Option<Seq<Seq<u8>>>> {
    Seq::new(
        answers.len(),
        |i: int|
            match answers[i] {
                Some(dealt) => Some(secret_views(dealt@)),
                None => None,
            },
    )
}


/// The initiator's side of a generation session.
pub struct ServerKeyGenerationSession {
    threshold: usize,
    state: GenerationState,
    commitments: Vec<Option<Vec<Public>>>,
    shares: Vec<Option<Vec<Secret>>>,
    key: Option<GeneratedKey>,
    failure: Option<Error>,
}

impl View for ServerKeyGenerationSession {
    type V = SessionModel;

    closed spec fn view(&self) -> SessionModel {
        SessionModel {
            threshold: self.threshold as nat,
            state: self.state,
            commitments: commitment_views(self.commitments@),
            shares: dealt_views(self.shares@),
            failure: self.failure,
        }
    }
}

/// How a session ends depends on the answers and on the threshold alone.
pub proof fn lemma_result_of_answers(a: SessionModel, b: SessionModel)
    requires
        a.threshold == b.threshold,
        a.commitments == b.commitments,
        a.shares == b.shares,
    ensures
        commitment_outcomes(a) == commitment_outcomes(b),
        share_outcomes(a) == share_outcomes(b),
        session_result(a) == session_result(b),
{
    assert(commitment_outcomes(a) =~= commitment_outcomes(b));
    assert(share_outcomes(a) =~= share_outcomes(b));
    assert(joint_public(a) == joint_public(b));
    assert forall|j: int| joint_share(a, j) == joint_share(b, j) by {}
    if generated(a) is Some {
        assert(generated(b) is Some);
        assert(generated(a)->Some_0.shares =~= generated(b)->Some_0.shares);
    }
}

/// A session that has not begun, for a number of nodes.
pub open spec fn fresh(nodes: nat, threshold: nat) -> SessionModel {
    SessionModel {
        threshold,
        state: GenerationState::Initialized,
        commitments: Seq::new(nodes, |i: int| None),
        shares: Seq::new(nodes, |i: int| None),
        failure: None,
    }
}

impl ServerKeyGenerationSession {
    /// The session holds an answer slot of each kind for every node, the
    /// threshold fits the nodes, and a completed session holds its key.
    pub closed spec fn wf(&self) -> bool {
        &&& self.commitments@.len() == self.shares@.len()
        &&& self.threshold < self.commitments@.len()
        &&& self.state == GenerationState::Completed ==> self.key is Some && session_result(self@)
            == Ok::<GeneratedModel, Error>(self.key->Some_0@)
        &&& self.state == GenerationState::Failed ==> self.failure is Some
    }

    /// Opens a session among `nodes` nodes. A threshold that is not less than
    /// their number is refused.
    pub fn new(nodes: usize, threshold: usize) -> (r: Result<ServerKeyGenerationSession, Error>)
        ensures
            threshold >= nodes ==> (r matches Err(e) && e == Error::InvalidThreshold),
            threshold < nodes ==> (r matches Ok(session) && session.wf() && session@ == fresh(
                nodes as nat,
                threshold as nat,
            )),
    {
        match check_threshold(threshold, nodes) {
            Err(e) => {
                return Err(e);
            },
            Ok(()) => {},
        }
        let mut commitments: Vec<Option<Vec<Public>>> = Vec::new();
        let mut shares: Vec<Option<Vec<Secret>>> = Vec::new();
        let mut i: usize = 0;
        while i < nodes
            invariant
                i <= nodes,
                commitments@.len() == i,
                shares@.len() == i,
                forall|k: int| 0 <= k < i ==> (#[trigger] commitments@[k]) is None,
                forall|k: int| 0 <= k < i ==> (#[trigger] shares@[k]) is None,
            decreases nodes - i,
        {
            commitments.push(None);
            shares.push(None);
            i += 1;
        }
        let session = ServerKeyGenerationSession {
            threshold,
            state: GenerationState::Initialized,
            commitments,
            shares,
            key: None,
            failure: None,
        };
        assert(session@.commitments =~= fresh(nodes as nat, threshold as nat).commitments);
        assert(session@.shares =~= fresh(nodes as nat, threshold as nat).shares);
        Ok(session)
    }

    /// Where the session stands.
    pub fn state(&self) -> (state: GenerationState)
        ensures
            state == self@.state,
    {
        self.state
    }

    /// Begins the first round.
    pub fn start(&mut self)
        requires
            old(self).wf(),
        ensures
            final(self).wf(),
            final(self)@ == started(old(self)@),
    {
        if self.state == GenerationState::Initialized {
            self.state = GenerationState::CollectingCommitments;
        }
    }

    fn commitment_tags(&self) -> (tags: Vec<Outcome>)
        requires
            self.wf(),
        ensures
            tags@ == commitment_outcomes(self@),
    {
        let mut tags: Vec<Outcome> = Vec::new();
        let mut i: usize = 0;
        while i < self.commitments.len()
            invariant
                self.wf(),
                i <= self.commitments@.len(),
                tags@.len() == i,
                forall|k: int| 0 <= k < i ==> #[trigger] tags@[k] == commitment_outcomes(self@)[k],
            decreases self.commitments@.len() - i,
        {
            let tag = match &self.commitments[i] {
                None => Outcome::Timeout,
                Some(points) => if points.len() == self.threshold + 1 {
                    Outcome::Valid
                } else {
                    Outcome::Inconsistent
                },
            };
            tags.push(tag);
            i += 1;
        }
        assert(tags@ =~= commitment_outcomes(self@));
        tags
    }

    fn share_tags(&self) -> (tags: Vec<Outcome>)
        requires
            self.wf(),
        ensures
            tags@ == share_outcomes(self@),
    {
        let nodes = self.commitments.len();
        let mut tags: Vec<Outcome> = Vec::new();
        let mut i: usize = 0;
        while i < nodes
            invariant
                self.wf(),
                nodes == self.commitments@.len(),
                i <= nodes,
                tags@.len() == i,
                forall|k: int| 0 <= k < i ==> #[trigger] tags@[k] == share_outcomes(self@)[k],
            decreases nodes - i,
        {
            let tag = match &self.shares[i] {
                None => Outcome::Timeout,
                Some(dealt) => match &self.commitments[i] {
                    None => Outcome::Inconsistent,
                    Some(points) => if points.len() == self.threshold + 1 && dealt.len() == nodes
                        && verify_shares(dealt, points) {
                        Outcome::Valid
                    } else {
                        Outcome::Inconsistent
                    },
                },
            };
            tags.push(tag);
            i += 1;
        }
        assert(tags@ =~= share_outcomes(self@));
        tags
    }

    fn joint_terms_of(&self, tags: &Vec<Outcome>) -> (terms: Vec<Public>)
        requires
            self.wf(),
            tags@ == share_outcomes(self@),
        ensures
            public_views(terms@) == joint_terms(
                self@.commitments,
                tags@,
                self@.commitments.len(),
            ),
    {
        let mut terms: Vec<Public> = Vec::new();
        let mut i: usize = 0;
        while i < self.commitments.len()
            invariant
                self.wf(),
                tags@ == share_outcomes(self@),
                i <= self.commitments@.len(),
                public_views(terms@) == joint_terms(self@.commitments, tags@, i as nat),
            decreases self.commitments@.len() - i,
        {
            if tags[i] == Outcome::Valid {
                assert(share_outcomes(self@)[i as int] == Outcome::Valid);
                match &self.commitments[i] {
                    Some(points) => {
                        if points.len() > 0 {
                            let ghost before = public_views(terms@);
                            terms.push(points[0]);
                            assert(public_views(terms@) =~= before.push(points@[0]@));
                        }
                    },
                    None => {},
                }
            }
            i += 1;
        }
        terms
    }

    fn share_terms_of(&self, tags: &Vec<Outcome>, receiver: usize) -> (terms: Vec<Secret>)
        requires
            self.wf(),
            tags@ == share_outcomes(self@),
            receiver < self@.commitments.len(),
        ensures
            secret_views(terms@) == share_terms(
                self@.shares,
                tags@,
                receiver as int,
                self@.commitments.len(),
            ),
    {
        let mut terms: Vec<Secret> = Vec::new();
        let mut i: usize = 0;
        while i < self.shares.len()
            invariant
                self.wf(),
                tags@ == share_outcomes(self@),
                receiver < self@.commitments.len(),
                i <= self.shares@.len(),
                secret_views(terms@) == share_terms(self@.shares, tags@, receiver as int, i as nat),
            decreases self.shares@.len() - i,
        {
            if tags[i] == Outcome::Valid {
                assert(share_outcomes(self@)[i as int] == Outcome::Valid);
                match &self.shares[i] {
                    Some(dealt) => {
                        if receiver < dealt.len() {
                            let ghost before = secret_views(terms@);
                            terms.push(dealt[receiver]);
                            assert(secret_views(terms@) =~= before.push(dealt@[receiver as int]@));
                        }
                    },
                    None => {},
                }
            }
            i += 1;
        }
        terms
    }

    fn combine(&self, tags: &Vec<Outcome>) -> (r: Option<GeneratedKey>)
        requires
            self.wf(),
            tags@ == share_outcomes(self@),
        ensures
            r is Some <==> generated(self@) is Some,
            r matches Some(key) ==> generated(self@) == Some(key@),
    {
        let nodes = self.commitments.len();
        let terms = self.joint_terms_of(tags);
        let public = match sum_points(&terms) {
            Some(p) => p,
            None => {
                return None;
            },
        };
        let mut shares: Vec<Option<Secret>> = Vec::new();
        let mut j: usize = 0;
        while j < nodes
            invariant
                self.wf(),
                tags@ == share_outcomes(self@),
                nodes == self@.commitments.len(),
                j <= nodes,
                shares@.len() == j,
                forall|k: int|
                    0 <= k < j && tags@[k] == Outcome::Valid ==> (#[trigger] shares@[k]) is Some
                        && joint_share(self@, k) == Some(shares@[k]->Some_0@),
                forall|k: int|
                    0 <= k < j && tags@[k] != Outcome::Valid ==> (#[trigger] shares@[k]) is None,
            decreases nodes - j,
        {
            if tags[j] == Outcome::Valid {
                let dealt = self.share_terms_of(tags, j);
                match sum_scalars(&dealt) {
                    Some(share) => {
                        shares.push(Some(share));
                    },
                    None => {
                        assert(joint_share(self@, j as int) is None);
                        return None;
                    },
                }
            } else {
                shares.push(None);
            }
            j += 1;
        }
        let key = GeneratedKey { public, shares };
        assert forall|k: int|
            0 <= k < nodes && tags@[k] == Outcome::Valid implies #[trigger] joint_share(
            self@,
            k,
        ) is Some by {
            assert(shares@[k] is Some);
        }
        assert(key@.shares =~= generated(self@)->Some_0.shares);
        Some(key)
    }

    fn close(&mut self)
        requires
            old(self).wf(),
        ensures
            final(self).wf(),
            final(self)@ == closed(old(self)@),
    {
        match self.state {
            GenerationState::CollectingCommitments => {
                let tags = self.commitment_tags();
                match check_quorum(&tags, self.threshold) {
                    Ok(()) => {
                        self.state = GenerationState::CollectingShares;
                    },
                    Err(e) => {
                        self.state = GenerationState::Failed;
                        self.failure = Some(e);
                    },
                }
            },
            GenerationState::CollectingShares => {
                let tags = self.share_tags();
                let combined = match check_quorum(&tags, self.threshold) {
                    Ok(()) => match self.combine(&tags) {
                        Some(key) => Ok(key),
                        None => Err(Error::InconsistentShare),
                    },
                    Err(e) => Err(e),
                };
                match combined {
                    Ok(key) => {
                        self.state = GenerationState::Completed;
                        self.key = Some(key);
                        proof {
                            lemma_result_of_answers(old(self)@, self@);
                        }
                    },
                    Err(e) => {
                        self.state = GenerationState::Failed;
                        self.failure = Some(e);
                    },
                }
            },
            _ => {},
        }
    }

    /// The current round ends without the answers that are still missing.
    pub fn on_timeout(&mut self)
        requires
            old(self).wf(),
        ensures
            final(self).wf(),
            final(self)@ == closed(old(self)@),
    {
        self.close();
    }

    fn everyone_committed(&self) -> (r: bool)
        ensures
            r == all_answered(self@.commitments),
    {
        let mut i: usize = 0;
        while i < self.commitments.len()
            invariant
                i <= self.commitments@.len(),
                forall|k: int| 0 <= k < i ==> (#[trigger] self@.commitments[k]) is Some,
            decreases self.commitments@.len() - i,
        {
            if self.commitments[i].is_none() {
                assert(self@.commitments[i as int] is None);
                return false;
            }
            i += 1;
        }
        true
    }

    fn everyone_dealt(&self) -> (r: bool)
        ensures
            r == all_answered(self@.shares),
    {
        let mut i: usize = 0;
        while i < self.shares.len()
            invariant
                i <= self.shares@.len(),
                forall|k: int| 0 <= k < i ==> (#[trigger] self@.shares[k]) is Some,
            decreases self.shares@.len() - i,
        {
            if self.shares[i].is_none() {
                assert(self@.shares[i as int] is None);
                return false;
            }
            i += 1;
        }
        true
    }

    /// A node's commitments arrive.
    pub fn on_commitments(&mut self, node: usize, points: Vec<Public>)
        requires
            old(self).wf(),
        ensures
            final(self).wf(),
            final(self)@ == with_commitments(old(self)@, node as int, public_views(points@)),
    {
        if self.state == GenerationState::CollectingCommitments && node < self.commitments.len()
            && self.commitments[node].is_none() {
            assert(old(self)@.commitments[node as int] is None);
            let ghost views = public_views(points@);
            self.commitments[node] = Some(points);
            assert(self@.commitments =~= old(self)@.commitments.update(node as int, Some(views)));
            if self.everyone_committed() {
                self.close();
            }
        } else {
            assert(node < self.commitments@.len() ==> (old(self)@.commitments[node as int] is None
                <==> self.commitments@[node as int] is None));
        }
    }

    /// A node's shares arrive.
    pub fn on_shares(&mut self, node: usize, dealt: Vec<Secret>)
        requires
            old(self).wf(),
        ensures
            final(self).wf(),
            final(self)@ == with_shares(old(self)@, node as int, secret_views(dealt@)),
    {
        if self.state == GenerationState::CollectingShares && node < self.shares.len()
            && self.shares[node].is_none() {
            assert(old(self)@.shares[node as int] is None);
            let ghost views = secret_views(dealt@);
            self.shares[node] = Some(dealt);
            assert(self@.shares =~= old(self)@.shares.update(node as int, Some(views)));
            if self.everyone_dealt() {
                self.close();
            }
        } else {
            assert(node < self.shares@.len() ==> (old(self)@.shares[node as int] is None
                <==> self.shares@[node as int] is None));
        }
    }

    /// The nodes that answered inconsistently so far. A session that is
    /// completed in spite of them has met its quorum without them.
    pub fn inconsistent_nodes(&self) -> (nodes: Vec<usize>)
        requires
            self.wf(),
        ensures
            nodes@.len() == suspects(self@, self@.commitments.len()).len(),
            forall|k: int|
                0 <= k < nodes@.len() ==> #[trigger] nodes@[k] == suspects(
                    self@,
                    self@.commitments.len(),
                )[k],
    {
        let first = self.commitment_tags();
        let second = self.share_tags();
        let mut nodes: Vec<usize> = Vec::new();
        let mut i: usize = 0;
        while i < first.len()
            invariant
                i <= first@.len(),
                first@ == commitment_outcomes(self@),
                second@ == share_outcomes(self@),
                first@.len() == second@.len(),
                nodes@.len() == suspects(self@, i as nat).len(),
                forall|k: int|
                    0 <= k < nodes@.len() ==> #[trigger] nodes@[k] == suspects(self@, i as nat)[k],
            decreases first@.len() - i,
        {
            if first[i] == Outcome::Inconsistent || second[i] == Outcome::Inconsistent {
                nodes.push(i);
            }
            i += 1;
        }
        nodes
    }

    /// How the session ended: the key of a completed session, the failure of
    /// a failed one, `None` while it runs.
    pub fn into_result(self) -> (r: Option<Result<GeneratedKey, Error>>)
        requires
            self.wf(),
        ensures
            self@.state == GenerationState::Completed ==> (r matches Some(Ok(key))
                && session_result(self@) == Ok::<GeneratedModel, Error>(key@)),
            self@.state == GenerationState::Failed ==> (r matches Some(Err(e)) && self@.failure
                == Some(e)),
            self@.state != GenerationState::Completed && self@.state != GenerationState::Failed
                ==> r is None,
    {
        match self.state {
            GenerationState::Completed => match self.key {
                Some(key) => Some(Ok(key)),
                None => None,
            },
            GenerationState::Failed => match self.failure {
                Some(e) => Some(Err(e)),
                None => None,
            },
            _ => None,
        }
    }
}


/// What a node that deals the polynomial commits to. A node whose polynomial
/// has no commitments answers with none, which is inconsistent.
pub open spec fn committed(polynomial: Seq<Seq<u8>>) -> Seq<Seq<u8>> {
    match commitments_of(polynomial) {
        Some(points) => points,
        None => Seq::empty(),
    }
}

/// What a node that deals the polynomial gives to `nodes` nodes. A node whose
/// polynomial has no value at some number answers with no share, which is
/// inconsistent.
pub open spec fn handed_out(polynomial: Seq<Seq<u8>>, nodes: nat) -> Seq<Seq<u8>> {
    match shares_of(polynomial, nodes) {
        Some(shares) => shares,
        None => Seq::empty(),
    }
}

/// The first round when the first `upto` nodes have had their turn: a node
/// that deals has answered with its commitments.
pub open spec fn round_one(
    polynomials: Seq<Option<Seq<Seq<u8>>>>,
    threshold: nat,
    upto: int,
) -> SessionModel {
    SessionModel {
        threshold,
        state: GenerationState::CollectingCommitments,
        commitments: Seq::new(
            polynomials.len(),
            |i: int|
                if i < upto {
                    match polynomials[i] {
                        Some(p) => Some(committed(p)),
                        None => None,
                    }
                } else {
                    None
                },
        ),
        shares: Seq::new(polynomials.len(), |i: int| None),
        failure: None,
    }
}

/// The second round when the first `upto` nodes have had their turn.
pub open spec fn round_two(
    polynomials: Seq<Option<Seq<Seq<u8>>>>,
    threshold: nat,
    upto: int,
) -> SessionModel {
    SessionModel {
        threshold,
        state: GenerationState::CollectingShares,
        commitments: round_one(polynomials, threshold, polynomials.len() as int).commitments,
        shares: Seq::new(
            polynomials.len(),
            |i: int|
                if i < upto {
                    match polynomials[i] {
                        Some(p) => Some(handed_out(p, polynomials.len())),
                        None => None,
                    }
                } else {
                    None
                },
        ),
        failure: None,
    }
}

/// How a generation ends in which the nodes deal the given polynomials, a
/// node without a polynomial being one that does not answer: by the quorum
/// rule over the commitments, then by the quorum rule over the shares and by
/// the sums.
pub open spec fn generation_outcome(polynomials: Seq<Option<Seq<Seq<u8>>>>, threshold: nat)
    -> Result<GeneratedModel, Error> {
    let n = polynomials.len() as int;
    match verdict(commitment_outcomes(round_one(polynomials, threshold, n)), threshold) {
        Err(e) => Err(e),
        Ok(()) => session_result(round_two(polynomials, threshold, n)),
    }
}

fn commitments_for(polynomial: &Vec<Secret>) -> (points: Vec<Public>)
    ensures
        public_views(points@) == committed(secret_views(polynomial@)),
{
    match commit(polynomial) {
        Some(points) => points,
        None => {
            let points: Vec<Public> = Vec::new();
            assert(public_views(points@) =~= Seq::<Seq<u8>>::empty());
            points
        },
    }
}

fn shares_for(polynomial: &Vec<Secret>, nodes: usize) -> (shares: Vec<Secret>)
    ensures
        secret_views(shares@) == handed_out(secret_views(polynomial@), nodes as nat),
{
    match deal(polynomial, nodes) {
        Some(shares) => shares,
        None => {
            let shares: Vec<Secret> = Vec::new();
            assert(secret_views(shares@) =~= Seq::<Seq<u8>>::empty());
            shares
        },
    }
}

fn run_first_round(
    session: &mut ServerKeyGenerationSession,
    polynomials: &Vec<Option<Vec<Secret>>>,
    threshold: usize,
)
    requires
        old(session).wf(),
        old(session)@ == round_one(dealt_views(polynomials@), threshold as nat, 0),
    ensures
        final(session).wf(),
        final(session)@ == closed(
            round_one(dealt_views(polynomials@), threshold as nat, polynomials@.len() as int),
        ),
{
    let ghost dealt = dealt_views(polynomials@);
    let ghost t = threshold as nat;
    let mut i: usize = 0;
    while i < polynomials.len()
        invariant
            i <= polynomials@.len(),
            dealt == dealt_views(polynomials@),
            t == threshold as nat,
            session.wf(),
            session@ == round_one(dealt, t, i as int) || (i == polynomials@.len() && session@
                == closed(round_one(dealt, t, i as int))),
        decreases polynomials@.len() - i,
    {
        let ghost before = round_one(dealt, t, i as int);
        let ghost after = round_one(dealt, t, i as int + 1);
        match &polynomials[i] {
            Some(polynomial) => {
                let points = commitments_for(polynomial);
                session.on_commitments(i, points);
                assert(after.commitments =~= before.commitments.update(
                    i as int,
                    Some(committed(secret_views(polynomial@))),
                ));
                assert(after.shares =~= before.shares);
                if i + 1 < polynomials.len() {
                    assert(after.commitments[i as int + 1] is None);
                }
            },
            None => {
                assert(after.commitments =~= before.commitments);
                assert(after.shares =~= before.shares);
            },
        }
        i += 1;
    }
    if session.state() == GenerationState::CollectingCommitments {
        session.on_timeout();
    }
}

fn run_second_round(
    session: &mut ServerKeyGenerationSession,
    polynomials: &Vec<Option<Vec<Secret>>>,
    threshold: usize,
)
    requires
        old(session).wf(),
        old(session)@ == round_two(dealt_views(polynomials@), threshold as nat, 0),
    ensures
        final(session).wf(),
        final(session)@ == closed(
            round_two(dealt_views(polynomials@), threshold as nat, polynomials@.len() as int),
        ),
{
    let ghost dealt = dealt_views(polynomials@);
    let ghost t = threshold as nat;
    let nodes = polynomials.len();
    let mut i: usize = 0;
    while i < nodes
        invariant
            nodes == polynomials@.len(),
            i <= nodes,
            dealt == dealt_views(polynomials@),
            t == threshold as nat,
            session.wf(),
            session@ == round_two(dealt, t, i as int) || (i == nodes && session@ == closed(
                round_two(dealt, t, i as int),
            )),
        decreases nodes - i,
    {
        let ghost before = round_two(dealt, t, i as int);
        let ghost after = round_two(dealt, t, i as int + 1);
        match &polynomials[i] {
            Some(polynomial) => {
                let shares = shares_for(polynomial, nodes);
                session.on_shares(i, shares);
                assert(after.shares =~= before.shares.update(
                    i as int,
                    Some(handed_out(secret_views(polynomial@), nodes as nat)),
                ));
                if i + 1 < nodes {
                    assert(after.shares[i as int + 1] is None);
                }
            },
            None => {
                assert(after.shares =~= before.shares);
            },
        }
        i += 1;
    }
    if session.state() == GenerationState::CollectingShares {
        session.on_timeout();
    }
}

/// Runs a generation among nodes that deal the given polynomials. A node
/// without a polynomial does not answer.
pub fn run_generation(polynomials: &Vec<Option<Vec<Secret>>>, threshold: usize) -> (r: Result<
    GeneratedKey,
    Error,
>)
    ensures
        threshold >= polynomials@.len() ==> (r matches Err(e) && e == Error::InvalidThreshold),
        threshold < polynomials@.len() ==> {
            &&& r matches Ok(key) ==> generation_outcome(
                dealt_views(polynomials@),
                threshold as nat,
            ) == Ok::<GeneratedModel, Error>(key@)
            &&& r matches Err(e) ==> generation_outcome(
                dealt_views(polynomials@),
                threshold as nat,
            ) == Err::<GeneratedModel, Error>(e)
        },
{
    let ghost dealt = dealt_views(polynomials@);
    let ghost t = threshold as nat;
    let ghost n = polynomials@.len() as int;
    let mut session = match ServerKeyGenerationSession::new(polynomials.len(), threshold) {
        Ok(session) => session,
        Err(e) => {
            return Err(e);
        },
    };
    session.start();
    assert(session@.commitments =~= round_one(dealt, t, 0).commitments);
    assert(session@.shares =~= round_one(dealt, t, 0).shares);
    run_first_round(&mut session, polynomials, threshold);
    if session.state() == GenerationState::CollectingShares {
        assert(session@.shares =~= round_two(dealt, t, 0).shares);
        run_second_round(&mut session, polynomials, threshold);
        proof {
            lemma_result_of_answers(round_two(dealt, t, n), session@);
        }
    }
    match session.into_result() {
        Some(r) => r,
        None => {
            assert(false);
            Err(Error::NetworkTimeout)
        },
    }
}

} // verus!
