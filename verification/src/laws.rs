//! What holds of the cluster whatever its state: the laws that the
//! operations' contracts add up to.

use vstd::prelude::*;
use crate::document_key::{restored, DocumentKey};
use crate::error::Error;
use crate::generation::{
    closed, commitment_outcomes, generated, generation_outcome, round_one, round_two,
    share_outcomes, GenerationState, SessionModel,
};
use crate::model::{key_generated, stored, ClusterModel, Scheme};
use crate::quorum::{
    count_reachable, count_valid, lemma_counts_are_monotone, lemma_valid_positions_bounds,
    verdict, Outcome,
};
use crate::servers_set_change::{key_done, verified, ChangeModel, ChangeState};

verus! {

/// The quorum rule lets a round succeed if and only if more participants
/// than the threshold answered validly.
pub proof fn law_quorum_rule(outcomes: Seq<Outcome>, threshold: nat)
    ensures
        verdict(outcomes, threshold) is Ok <==> count_valid(outcomes) >= threshold + 1,
{
    lemma_valid_positions_bounds(outcomes, outcomes.len());
}

/// Whichever participants are missing, a round in which fewer than the
/// threshold plus one were reached fails for want of nodes.
pub proof fn law_quorum_floor(outcomes: Seq<Outcome>, threshold: nat)
    requires
        count_reachable(outcomes) < threshold + 1,
    ensures
        verdict(outcomes, threshold) == Err::<(), Error>(Error::InsufficientNodes),
{
}

/// A generation session whose second round is closed is completed only if
/// at least the threshold plus one nodes answered consistently; and with that
/// many it is completed, provided that the sums of what they dealt are
/// defined on the curve.
pub proof fn law_generation_succeeds_with_a_quorum(m: SessionModel)
    requires
        m.state == GenerationState::CollectingShares,
    ensures
        closed(m).state == GenerationState::Completed ==> count_valid(share_outcomes(m))
            >= m.threshold + 1,
        count_valid(share_outcomes(m)) >= m.threshold + 1 && generated(m) is Some ==> closed(
            m,
        ).state == GenerationState::Completed,
        closed(m).state == GenerationState::Completed || closed(m).state
            == GenerationState::Failed,
{
    lemma_valid_positions_bounds(share_outcomes(m), share_outcomes(m).len());
}

/// A generation among nodes that deal given polynomials succeeds if and only
/// if at least the threshold plus one of them deal consistently and the sums
/// of what these deal are defined on the curve.
pub proof fn law_generation_succeeds_iff_quorum_is_consistent(
    polynomials: Seq<Option<Seq<Seq<u8>>>>,
    threshold: nat,
)
    ensures
        generation_outcome(polynomials, threshold) is Ok <==> count_valid(
            share_outcomes(round_two(polynomials, threshold, polynomials.len() as int)),
        ) >= threshold + 1 && generated(
            round_two(polynomials, threshold, polynomials.len() as int),
        ) is Some,
{
    let n = polynomials.len();
    let first = commitment_outcomes(round_one(polynomials, threshold, n as int));
    let second = share_outcomes(round_two(polynomials, threshold, n as int));
    lemma_counts_are_monotone(second, first, n);
    lemma_valid_positions_bounds(first, n);
    lemma_valid_positions_bounds(second, n);
}

/// Once a key is generated, its author is given the same public point
/// whichever nodes are online, and whatever else the cluster has done since,
/// as long as the key's entry stands.
pub proof fn law_public_point_is_the_same_from_any_quorum(
    before: ClusterModel,
    after: ClusterModel,
    later: ClusterModel,
    key: Seq<u8>,
    author: Seq<u8>,
    threshold: nat,
    public: Seq<u8>,
)
    requires
        key_generated(before, after, key, author, threshold, public),
        later.keys.contains_key(key),
        later.keys[key].author == after.keys[key].author,
        later.keys[key].public == after.keys[key].public,
    ensures
        later.public_of(key, Some(author)) == Ok::<Seq<u8>, Error>(public),
{
}

/// A document key that was stored is not refused to its author; and with
/// more valid answers of the key's holders than the threshold, what is
/// restored is made of the pair that was stored and of the shares of the
/// key's quorum.
pub proof fn law_restore_follows_store(
    m: ClusterModel,
    key: Seq<u8>,
    author: Seq<u8>,
    document_key: DocumentKey,
)
    requires
        m.store_refusal(key, Some(author)) is None,
    ensures
        stored(m, key, document_key).restore_refusal(key, Some(author)) is None,
        verdict(m.answers(key, document_key.common_point@), m.keys[key].threshold as nat) is Ok
            ==> stored(m, key, document_key).document_key(key) == restored(
            document_key,
            m.quorum_numbers(key, m.keys[key].threshold as nat, document_key.common_point@),
            m.quorum_shares(key, m.keys[key].threshold as nat, document_key.common_point@),
            None,
        ),
{
    let after = stored(m, key, document_key);
    let probe = document_key.common_point@;
    assert(after.availability(key) =~= m.availability(key));
    assert(after.answers(key, probe) =~= m.answers(key, probe));
    let t = m.keys[key].threshold as nat;
    assert(after.quorum_numbers(key, t, probe) =~= m.quorum_numbers(key, t, probe));
    assert(after.quorum_shares(key, t, probe) =~= m.quorum_shares(key, t, probe));
}

/// A document key is restored for nobody but the author of its server key and
/// those whom the access list names.
pub proof fn law_access_is_enforced(m: ClusterModel, key: Seq<u8>, requester: Option<Seq<u8>>)
    requires
        m.keys.contains_key(key),
        !m.may_access(key, requester),
    ensures
        m.restore_refusal(key, requester) == Some(Error::AccessDenied),
{
}

/// Whichever nodes are missing: with fewer of a key's holders online than
/// the key's threshold plus one, a request that is otherwise in order is
/// refused for want of nodes, be it to restore or to sign.
pub proof fn law_use_needs_a_quorum(
    m: ClusterModel,
    key: Seq<u8>,
    requester: Option<Seq<u8>>,
    scheme: Scheme,
)
    requires
        m.keys.contains_key(key),
        m.may_access(key, requester),
        count_reachable(m.availability(key)) < m.keys[key].threshold + 1,
    ensures
        m.keys[key].document_key is Some ==> m.restore_refusal(key, requester) == Some(
            Error::InsufficientNodes,
        ),
        m.signing_refusal(key, requester, scheme) == Some(Error::InsufficientNodes),
{
}

/// Whichever nodes are missing: with fewer members of the servers set online
/// than the threshold plus one, a request to generate a key that is otherwise
/// in order is refused for want of nodes.
pub proof fn law_generation_needs_a_quorum(
    m: ClusterModel,
    key: Seq<u8>,
    author: Seq<u8>,
    threshold: nat,
)
    requires
        threshold < m.members(),
        !m.keys.contains_key(key),
        count_reachable(m.participation()) < threshold + 1,
    ensures
        m.generation_refusal(key, Some(author), threshold) == Some(Error::InsufficientNodes),
{
}

/// A change of the servers set goes on to move keys only if both signatures
/// are good; with one of them forged or made over another set, the session
/// is rejected, and stays so.
pub proof fn law_change_needs_both_signatures(
    m: ChangeModel,
    old_set_good: bool,
    new_set_good: bool,
    key: Seq<u8>,
    moved: bool,
)
    requires
        m.state == ChangeState::Verifying,
        !(old_set_good && new_set_good),
    ensures
        verified(m, old_set_good, new_set_good).state == ChangeState::Rejected,
        key_done(verified(m, old_set_good, new_set_good), key, moved) == verified(
            m,
            old_set_good,
            new_set_good,
        ),
{
}

} // verus!
