//! The quorum rule. Every participant's answer in a round is tagged; the rule
//! reads the tags and nothing else, so it holds whatever a node does.

use vstd::prelude::*;
use crate::error::Error;

verus! {

/// How one participant answered in a round.
#[derive(Clone, Copy, Debug, PartialEq, Eq, Structural)]
pub enum Outcome {
    /// The answer came and passed every check.
    Valid,
    /// The answer came and failed a check.
    Inconsistent,
    /// No answer came in time.
    Timeout,
}

/// The positions among the first `upto` at which the answer is valid, in
/// ascending order.
pub open spec fn valid_positions(outcomes: Seq<Outcome>, upto: nat) -> Seq<int>
    decreases upto,
{
    if upto == 0 {
        Seq::empty()
    } else if outcomes[upto - 1] == Outcome::Valid {
        valid_positions(outcomes, (upto - 1) as nat).push(upto - 1)
    } else {
        valid_positions(outcomes, (upto - 1) as nat)
    }
}

/// How many of the participants answered validly.
pub open spec fn count_valid(outcomes: Seq<Outcome>) -> nat {
    valid_positions(outcomes, outcomes.len()).len()
}

/// How many of the first `upto` participants answered at all.
pub open spec fn answered(outcomes: Seq<Outcome>, upto: nat) -> nat
    decreases upto,
{
    if upto == 0 {
        0
    } else if outcomes[upto - 1] == Outcome::Timeout {
        answered(outcomes, (upto - 1) as nat)
    } else {
        answered(outcomes, (upto - 1) as nat) + 1
    }
}

/// How many of the participants could be reached.
pub open spec fn count_reachable(outcomes: Seq<Outcome>) -> nat {
    answered(outcomes, outcomes.len())
}

/// The participants that take part in the computation: the first
/// `threshold + 1` that answered validly.
pub open spec fn quorum_of(outcomes: Seq<Outcome>, threshold: nat) -> Seq<int> {
    valid_positions(outcomes, outcomes.len()).take(threshold as int + 1)
}

/// What the quorum rule says of a round, for a threshold `t`: with fewer than
/// `t + 1` participants reached the round fails for want of nodes; with enough
/// reached but fewer than `t + 1` valid answers it fails on the inconsistent
/// ones; otherwise it succeeds.
pub open spec fn verdict(outcomes: Seq<Outcome>, threshold: nat) -> Result<(), Error> {
    if count_reachable(outcomes) <= threshold {
        Err(Error::InsufficientNodes)
    } else if count_valid(outcomes) <= threshold {
        Err(Error::InconsistentShare)
    } else {
        Ok(())
    }
}

/// The valid positions lie among the participants, ascend, and are no more
/// than the participants reached.
pub proof fn lemma_valid_positions_bounds(outcomes: Seq<Outcome>, upto: nat)
    requires
        upto <= outcomes.len(),
    ensures
        valid_positions(outcomes, upto).len() <= answered(outcomes, upto) <= upto,
        forall|k: int|
            0 <= k < valid_positions(outcomes, upto).len() ==> {
                &&& 0 <= #[trigger] valid_positions(outcomes, upto)[k] < upto
                &&& outcomes[valid_positions(outcomes, upto)[k]] == Outcome::Valid
            },
        forall|j: int, k: int|
            0 <= j < k < valid_positions(outcomes, upto).len() ==> valid_positions(outcomes, upto)[j]
                < valid_positions(outcomes, upto)[k],
    decreases upto,
{
    if upto > 0 {
        lemma_valid_positions_bounds(outcomes, (upto - 1) as nat);
    }
}

/// The valid positions among fewer participants are the first of those among
/// more.
pub proof fn lemma_valid_positions_prefix(outcomes: Seq<Outcome>, fewer: nat, more: nat)
    requires
        fewer <= more,
    ensures
        valid_positions(outcomes, fewer).len() <= valid_positions(outcomes, more).len(),
        valid_positions(outcomes, more).take(valid_positions(outcomes, fewer).len() as int)
            == valid_positions(outcomes, fewer),
    decreases more - fewer,
{
    if fewer < more {
        lemma_valid_positions_prefix(outcomes, fewer, (more - 1) as nat);
        let shorter = valid_positions(outcomes, (more - 1) as nat);
        let n = valid_positions(outcomes, fewer).len() as int;
        assert(valid_positions(outcomes, more).take(n) =~= shorter.take(n));
    } else {
        let all = valid_positions(outcomes, more);
        assert(all.take(all.len() as int) =~= all);
    }
}

/// Counts the valid answers.
pub fn valid_count(outcomes: &Vec<Outcome>) -> (n: usize)
    ensures
        n == count_valid(outcomes@),
{
    let mut n: usize = 0;
    let mut i: usize = 0;
    while i < outcomes.len()
        invariant
            i <= outcomes@.len(),
            n == valid_positions(outcomes@, i as nat).len(),
            n <= i,
        decreases outcomes@.len() - i,
    {
        if outcomes[i] == Outcome::Valid {
            n += 1;
        }
        i += 1;
    }
    n
}

/// Counts the participants that answered, validly or not.
pub fn reachable_count(outcomes: &Vec<Outcome>) -> (n: usize)
    ensures
        n == count_reachable(outcomes@),
{
    let mut n: usize = 0;
    let mut i: usize = 0;
    while i < outcomes.len()
        invariant
            i <= outcomes@.len(),
            n == answered(outcomes@, i as nat),
            n <= i,
        decreases outcomes@.len() - i,
    {
        if outcomes[i] != Outcome::Timeout {
            n += 1;
        }
        i += 1;
    }
    n
}

/// A threshold fits a set of `nodes` servers when it is less than their
/// number.
pub fn check_threshold(threshold: usize, nodes: usize) -> (r: Result<(), Error>)
    ensures
        threshold < nodes ==> r == Ok::<(), Error>(()),
        threshold >= nodes ==> r == Err::<(), Error>(Error::InvalidThreshold),
{
    if threshold < nodes {
        Ok(())
    } else {
        Err(Error::InvalidThreshold)
    }
}

/// Applies the quorum rule to a round.
pub fn check_quorum(outcomes: &Vec<Outcome>, threshold: usize) -> (r: Result<(), Error>)
    ensures
        r == verdict(outcomes@, threshold as nat),
{
    if reachable_count(outcomes) <= threshold {
        Err(Error::InsufficientNodes)
    } else if valid_count(outcomes) <= threshold {
        Err(Error::InconsistentShare)
    } else {
        Ok(())
    }
}

/// Picks the participants of the computation: the first `threshold + 1` that
/// answered validly, in ascending order.
pub fn select_quorum(outcomes: &Vec<Outcome>, threshold: usize) -> (r: Result<Vec<usize>, Error>)
    ensures
        r is Ok <==> verdict(outcomes@, threshold as nat) is Ok,
        r matches Err(e) ==> Err::<(), Error>(e) == verdict(outcomes@, threshold as nat),
        r matches Ok(quorum) ==> {
            &&& quorum@.len() == threshold + 1
            &&& forall|k: int|
                0 <= k < quorum@.len() ==> #[trigger] quorum@[k] == quorum_of(
                    outcomes@,
                    threshold as nat,
                )[k]
        },
{
    match check_quorum(outcomes, threshold) {
        Err(e) => {
            return Err(e);
        },
        Ok(()) => {},
    }
    let mut quorum: Vec<usize> = Vec::new();
    let mut i: usize = 0;
    while quorum.len() <= threshold
        invariant
            i <= outcomes@.len(),
            count_valid(outcomes@) > threshold,
            quorum@.len() <= threshold + 1,
            quorum@.len() == valid_positions(outcomes@, i as nat).len(),
            forall|k: int|
                0 <= k < quorum@.len() ==> #[trigger] quorum@[k] == valid_positions(
                    outcomes@,
                    i as nat,
                )[k],
        decreases outcomes@.len() - i,
    {
        if i == outcomes.len() {
            // every valid answer is in the quorum, and there are more than `threshold`
            assert(false);
        }
        if outcomes[i] == Outcome::Valid {
            quorum.push(i);
        }
        i += 1;
    }
    proof {
        lemma_valid_positions_prefix(outcomes@, i as nat, outcomes@.len());
    }
    Ok(quorum)
}


/// How many participants were reached depends only on who timed out.
pub proof fn lemma_same_reachability(a: Seq<Outcome>, b: Seq<Outcome>, upto: nat)
    requires
        upto <= a.len(),
        upto <= b.len(),
        forall|i: int| 0 <= i < upto ==> (a[i] == Outcome::Timeout <==> b[i] == Outcome::Timeout),
    ensures
        answered(a, upto) == answered(b, upto),
    decreases upto,
{
    if upto > 0 {
        lemma_same_reachability(a, b, (upto - 1) as nat);
    }
}

/// Where the valid answers stand depends only on which answers are valid.
pub proof fn lemma_same_validity(a: Seq<Outcome>, b: Seq<Outcome>, upto: nat)
    requires
        upto <= a.len(),
        upto <= b.len(),
        forall|i: int| 0 <= i < upto ==> (a[i] == Outcome::Valid <==> b[i] == Outcome::Valid),
    ensures
        valid_positions(a, upto) == valid_positions(b, upto),
    decreases upto,
{
    if upto > 0 {
        lemma_same_validity(a, b, (upto - 1) as nat);
    }
}

/// Where no answer is inconsistent, every participant reached is valid.
pub proof fn lemma_reached_are_valid(a: Seq<Outcome>, upto: nat)
    requires
        upto <= a.len(),
        forall|i: int| 0 <= i < upto ==> a[i] != Outcome::Inconsistent,
    ensures
        answered(a, upto) == valid_positions(a, upto).len(),
    decreases upto,
{
    if upto > 0 {
        lemma_reached_are_valid(a, (upto - 1) as nat);
    }
}

/// Participants that did not answer, added at the end, change nothing in
/// how many were reached.
pub proof fn lemma_more_timeouts(a: Seq<Outcome>, b: Seq<Outcome>, upto: nat)
    requires
        a.len() <= upto <= b.len(),
        forall|i: int| 0 <= i < a.len() ==> (a[i] == Outcome::Timeout <==> b[i] == Outcome::Timeout),
        forall|i: int| a.len() <= i < b.len() ==> b[i] == Outcome::Timeout,
    ensures
        answered(a, a.len()) == answered(b, upto),
    decreases upto - a.len(),
{
    if upto > a.len() {
        lemma_more_timeouts(a, b, (upto - 1) as nat);
    } else {
        lemma_same_reachability(a, b, upto);
    }
}

/// Where every participant that is valid in one round is valid in another,
/// and every participant reached in the one is reached in the other, the
/// other round counts at least as many of each.
pub proof fn lemma_counts_are_monotone(a: Seq<Outcome>, b: Seq<Outcome>, upto: nat)
    requires
        upto <= a.len(),
        upto <= b.len(),
        forall|i: int| 0 <= i < upto && a[i] == Outcome::Valid ==> b[i] == Outcome::Valid,
        forall|i: int| 0 <= i < upto && a[i] != Outcome::Timeout ==> b[i] != Outcome::Timeout,
    ensures
        valid_positions(a, upto).len() <= valid_positions(b, upto).len(),
        answered(a, upto) <= answered(b, upto),
    decreases upto,
{
    if upto > 0 {
        lemma_counts_are_monotone(a, b, (upto - 1) as nat);
    }
}

} // verus!
