//! Facts about sequences of ledger transitions.
use vstd::prelude::*;
use crate::ledger::{after_vote, after_votes, empty_model, ledger_inv, vote_result, LedgerError, LedgerModel};
use crate::store::count_of;

verus! {

/// The identities named in a sequence of submissions.
pub open spec fn identities(ops: Seq<(Seq<char>, Seq<char>)>) -> Set<Seq<char>> {
    ops.map_values(|o: (Seq<char>, Seq<char>)| o.1).to_set()
}

/// `n` submissions of a vote for `c` by identity `i`.
pub open spec fn repeated(c: Seq<char>, i: Seq<char>, n: nat) -> Seq<(Seq<char>, Seq<char>)> {
    Seq::new(n, |_j: int| (c, i))
}

/// An empty ledger reads zero votes and zero rewards and no voted flag for
/// every key.
pub proof fn lemma_zero_defaults(k: Seq<char>)
    ensures
        count_of(empty_model().votes, k) == 0,
        !empty_model().voted.contains(k),
        count_of(empty_model().rewards, k) == 0,
{
}

/// A submission with an empty candidate or identity is refused as an invalid
/// argument and leaves the ledger as it was.
pub proof fn lemma_empty_field_rejected(m: LedgerModel, c: Seq<char>, i: Seq<char>)
    requires
        c.len() == 0 || i.len() == 0,
    ensures
        vote_result(m, c, i) == Err::<(), LedgerError>(LedgerError::InvalidArgument),
        after_vote(m, c, i) == m,
{
}

/// An identity's second vote, for another candidate, is refused: only the first
/// candidate's tally goes up, by one, and the identity holds one reward.
pub proof fn lemma_no_double_counting(m: LedgerModel, a: Seq<char>, b: Seq<char>, i: Seq<char>)
    requires
        ledger_inv(m),
        a != b,
        a.len() > 0,
        b.len() > 0,
        i.len() > 0,
        !m.voted.contains(i),
        count_of(m.votes, a) < u64::MAX,
    ensures
        vote_result(m, a, i) == Ok::<(), LedgerError>(()),
        vote_result(after_vote(m, a, i), b, i) == Err::<(), LedgerError>(LedgerError::AlreadyVoted),
        count_of(after_vote(after_vote(m, a, i), b, i).votes, a) == count_of(m.votes, a) + 1,
        count_of(after_vote(after_vote(m, a, i), b, i).votes, b) == count_of(m.votes, b),
        after_vote(after_vote(m, a, i), b, i).voted.contains(i),
        count_of(after_vote(after_vote(m, a, i), b, i).rewards, i) == 1,
{
    let m1 = after_vote(m, a, i);
    crate::ledger::lemma_vote_preserves_inv(m, a, i);
    crate::store::lemma_put(m.votes, a, count_of(m.votes, a) + 1);
    assert(m1.voted[m.voted.len() as int] == i);
    assert(m1.voted.contains(i));
}

proof fn lemma_repeated_prefix(m: LedgerModel, c: Seq<char>, i: Seq<char>, k: nat)
    requires
        ledger_inv(m),
        k >= 1,
        vote_result(m, c, i) is Ok,
    ensures
        after_votes(m, repeated(c, i, k)) == after_vote(m, c, i),
    decreases k,
{
    let ops = repeated(c, i, k);
    assert(ops.drop_last() =~= repeated(c, i, (k - 1) as nat));
    if k == 1 {
        assert(after_votes(m, ops.drop_last()) == m);
    } else {
        lemma_repeated_prefix(m, c, i, (k - 1) as nat);
        let m1 = after_vote(m, c, i);
        assert(m1.voted[m.voted.len() as int] == i);
        assert(m1.voted.contains(i));
    }
}

/// Of `n` submissions of one vote by one identity that has not voted yet, the
/// first is accepted and every later one is refused as already voted; the
/// candidate's tally goes up by exactly one.
pub proof fn lemma_repeated_vote_counts_once(m: LedgerModel, c: Seq<char>, i: Seq<char>, n: nat)
    requires
        ledger_inv(m),
        n >= 1,
        c.len() > 0,
        i.len() > 0,
        !m.voted.contains(i),
        count_of(m.votes, c) < u64::MAX,
    ensures
        vote_result(m, c, i) == Ok::<(), LedgerError>(()),
        forall|k: nat|
            1 <= k < n ==> vote_result(#[trigger] after_votes(m, repeated(c, i, n).take(k as int)), c, i)
                == Err::<(), LedgerError>(LedgerError::AlreadyVoted),
        count_of(after_votes(m, repeated(c, i, n)).votes, c) == count_of(m.votes, c) + 1,
        after_votes(m, repeated(c, i, n)).voted == m.voted.push(i),
{
    crate::store::lemma_put(m.votes, c, count_of(m.votes, c) + 1);
    lemma_repeated_prefix(m, c, i, n);
    let m1 = after_vote(m, c, i);
    assert(m1.voted[m.voted.len() as int] == i);
    assert forall|k: nat|
        1 <= k < n implies vote_result(#[trigger] after_votes(m, repeated(c, i, n).take(k as int)), c, i)
            == Err::<(), LedgerError>(LedgerError::AlreadyVoted) by {
        assert(repeated(c, i, n).take(k as int) =~= repeated(c, i, k));
        lemma_repeated_prefix(m, c, i, k);
    }
}

/// Any sequence of submissions preserves the ledger invariants, and every
/// identity that has voted was already a voter or is named in the sequence.
pub proof fn lemma_after_votes_inv(m: LedgerModel, ops: Seq<(Seq<char>, Seq<char>)>)
    requires
        ledger_inv(m),
    ensures
        ledger_inv(after_votes(m, ops)),
        after_votes(m, ops).voted.to_set().subset_of(m.voted.to_set().union(identities(ops))),
    decreases ops.len(),
{
    if ops.len() > 0 {
        let rest = ops.drop_last();
        let p = after_votes(m, rest);
        lemma_after_votes_inv(m, rest);
        crate::ledger::lemma_vote_preserves_inv(p, ops.last().0, ops.last().1);
        let f = |o: (Seq<char>, Seq<char>)| o.1;
        assert(ops.map_values(f) =~= rest.map_values(f).push(ops.last().1));
        rest.map_values(f).lemma_push_to_set_commute(ops.last().1);
        p.voted.lemma_push_to_set_commute(ops.last().1);
    }
}

/// Starting from an empty ledger, after any sequence of submissions the sum of
/// all tallies equals the number of identities that voted, which is at most the
/// number of distinct identities named in the sequence.
pub proof fn lemma_tallies_count_voters(ops: Seq<(Seq<char>, Seq<char>)>)
    ensures
        crate::store::total(after_votes(empty_model(), ops).votes) == after_votes(
            empty_model(),
            ops,
        ).voted.to_set().len(),
        after_votes(empty_model(), ops).voted.to_set().len() <= identities(ops).len(),
{
    let m = empty_model();
    assert(forall|k: Seq<char>| !m.voted.contains(k));
    lemma_after_votes_inv(m, ops);
    let r = after_votes(m, ops);
    r.voted.unique_seq_to_set();
    assert(m.voted.to_set() =~= Set::empty());
    assert(m.voted.to_set().union(identities(ops)) =~= identities(ops));
    vstd::set_lib::lemma_len_subset(r.voted.to_set(), identities(ops));
}

/// An identity holds a reward only if it has voted.
pub proof fn lemma_reward_implies_voted(m: LedgerModel, k: Seq<char>)
    requires
        ledger_inv(m),
    ensures
        count_of(m.rewards, k) > 0 ==> m.voted.contains(k),
{
}

/// The `k`-th submission of `ops`, made after the ones before it, was accepted.
pub open spec fn accepted_at(m: LedgerModel, ops: Seq<(Seq<char>, Seq<char>)>, k: int) -> bool {
    0 <= k < ops.len() && vote_result(after_votes(m, ops.take(k)), ops[k].0, ops[k].1) is Ok
}

/// After any sequence of submissions, at most one identity per submission
/// has been added to the voters, and each added voter is the identity of a
/// submission in the sequence that was accepted.
pub proof fn lemma_voters_from_accepted_calls(m: LedgerModel, ops: Seq<(Seq<char>, Seq<char>)>)
    ensures
        after_votes(m, ops).voted.len() <= m.voted.len() + ops.len(),
        forall|d: Seq<char>|
            #[trigger] after_votes(m, ops).voted.contains(d) ==> m.voted.contains(d) || exists|k: int|
                #[trigger] accepted_at(m, ops, k) && ops[k].1 == d,
    decreases ops.len(),
{
    if ops.len() > 0 {
        let rest = ops.drop_last();
        let p = after_votes(m, rest);
        let last = ops.len() - 1;
        lemma_voters_from_accepted_calls(m, rest);
        assert(ops.take(last) =~= rest);
        assert forall|k: int| 0 <= k < rest.len() && #[trigger] accepted_at(m, rest, k) implies accepted_at(
            m,
            ops,
            k,
        ) by {
            assert(rest.take(k) =~= ops.take(k));
        }
        let n = after_votes(m, ops);
        assert forall|d: Seq<char>| #[trigger] n.voted.contains(d) implies m.voted.contains(d)
            || exists|k: int| #[trigger] accepted_at(m, ops, k) && ops[k].1 == d by {
            if vote_result(p, ops[last].0, ops[last].1) is Ok {
                let j = choose|j: int| 0 <= j < n.voted.len() && n.voted[j] == d;
                if j < p.voted.len() {
                    assert(p.voted[j] == d);
                    assert(p.voted.contains(d));
                } else {
                    assert(accepted_at(m, ops, last));
                }
            } else {
                assert(p.voted.contains(d));
            }
        }
    }
}

/// Starting from an empty ledger, after `M` submissions over `K` distinct
/// identities the number of voters is at most both `K` and `M`, and every voter
/// is the identity of an accepted submission.
pub proof fn lemma_voters_bounded_by_calls(ops: Seq<(Seq<char>, Seq<char>)>)
    ensures
        after_votes(empty_model(), ops).voted.to_set().len() <= identities(ops).len(),
        after_votes(empty_model(), ops).voted.to_set().len() <= ops.len(),
        forall|d: Seq<char>| #[trigger]
            after_votes(empty_model(), ops).voted.contains(d) ==> exists|k: int|
                #[trigger] accepted_at(empty_model(), ops, k) && ops[k].1 == d,
{
    let m = empty_model();
    assert(forall|k: Seq<char>| !m.voted.contains(k));
    lemma_tallies_count_voters(ops);
    lemma_after_votes_inv(m, ops);
    lemma_voters_from_accepted_calls(m, ops);
    after_votes(m, ops).voted.unique_seq_to_set();
}

} // verus!
