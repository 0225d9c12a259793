use vstd::prelude::*;

verus! {

/// The number of positions `i < n` at which `target` and `guess` agree.
pub open spec fn matches_before(target: Seq<char>, guess: Seq<char>, n: int) -> nat
    decreases n,
{
    if n <= 0 {
        0
    } else {
        matches_before(target, guess, n - 1) + if target[n - 1] == guess[n - 1] {
            1nat
        } else {
            0nat
        }
    }
}

/// Fitness: the count of positions where the guess has the target's
/// character (case-sensitive); positions past the shorter of the two count
/// for nothing.
pub open spec fn score_of(target: Seq<char>, guess: Seq<char>) -> nat {
    if target.len() <= guess.len() {
        matches_before(target, guess, target.len() as int)
    } else {
        matches_before(target, guess, guess.len() as int)
    }
}

/// The sum of a sequence of scores.
pub open spec fn score_sum(scores: Seq<u16>) -> nat
    decreases scores.len(),
{
    if scores.len() == 0 {
        0
    } else {
        score_sum(scores.drop_last()) + scores.last() as nat
    }
}

/// Position `i` holds the largest score, and no earlier position holds one
/// as large.
pub open spec fn is_first_max(scores: Seq<u16>, i: int) -> bool {
    &&& 0 <= i < scores.len()
    &&& forall|j: int| 0 <= j < scores.len() ==> #[trigger] scores[j] <= scores[i]
    &&& forall|j: int| 0 <= j < i ==> #[trigger] scores[j] < scores[i]
}

/// At most `n` positions below `n` can agree, and exactly `n` do when the two
/// agree everywhere below `n`.
pub proof fn lemma_matches_before(target: Seq<char>, guess: Seq<char>, n: int)
    requires
        0 <= n <= target.len(),
        n <= guess.len(),
    ensures
        matches_before(target, guess, n) <= n,
        matches_before(target, guess, n) == n <==> (forall|i: int|
            0 <= i < n ==> #[trigger] target[i] == guess[i]),
    decreases n,
{
    if n > 0 {
        lemma_matches_before(target, guess, n - 1);
    }
}

/// A candidate's score lies between zero and the target's length, and it is
/// the target's length exactly when the guess is the target.
pub proof fn lemma_score_bounds(target: Seq<char>, guess: Seq<char>)
    requires
        guess.len() == target.len(),
    ensures
        0 <= score_of(target, guess) <= target.len(),
        score_of(target, guess) == target.len() <==> guess == target,
{
    lemma_matches_before(target, guess, target.len() as int);
    if score_of(target, guess) == target.len() {
        assert(guess =~= target);
    }
}

/// A sum of scores, each at most `bound`, is at most `bound` times their
/// number.
pub proof fn lemma_score_sum_bound(scores: Seq<u16>, bound: nat)
    requires
        forall|i: int| 0 <= i < scores.len() ==> #[trigger] scores[i] <= bound,
    ensures
        score_sum(scores) <= scores.len() * bound,
    decreases scores.len(),
{
    if scores.len() > 0 {
        let rest = scores.drop_last();
        assert forall|i: int| 0 <= i < rest.len() implies #[trigger] rest[i] <= bound by {
            assert(rest[i] == scores[i]);
        }
        lemma_score_sum_bound(rest, bound);
        assert(scores.len() * bound == rest.len() * bound + bound) by (nonlinear_arith)
            requires
                rest.len() + 1 == scores.len(),
        ;
    }
}

} // verus!
