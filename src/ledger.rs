//! The vote ledger: tallies per candidate, a voted flag and a reward counter
//! per identity, and the transition that records one vote.
use vstd::prelude::*;
use crate::store::{
    count_of, keys_unique, lemma_put, put, total, CountTable, Entries, FlagSet,
};

verus! {

/// Why a ledger operation was refused.
#[derive(Debug, Clone, Copy, PartialEq, Eq, Structural)]
pub enum LedgerError {
    /// A required field (candidate or identity) is missing or empty.
    InvalidArgument,
    /// The identity has already cast its vote.
    AlreadyVoted,
    /// The store cannot take the write.
    StoreUnavailable,
}

/// Abstract state of a ledger.
pub struct LedgerModel {
    /// Vote tally per candidate.
    pub votes: Entries,
    /// Identities whose voted flag is set, in the order they voted.
    pub voted: Seq<Seq<char>>,
    /// Reward counter per identity.
    pub rewards: Entries,
}

/// The ledger in which nothing has been recorded.
pub open spec fn empty_model() -> LedgerModel {
    LedgerModel { votes: Seq::empty(), voted: Seq::empty(), rewards: Seq::empty() }
}

/// The invariants that every reachable ledger state satisfies: the sum of all
/// tallies is the number of identities that voted, and an identity's reward
/// counter is one if it voted and zero otherwise.
pub open spec fn ledger_inv(m: LedgerModel) -> bool {
    &&& keys_unique(m.votes)
    &&& keys_unique(m.rewards)
    &&& m.voted.no_duplicates()
    &&& total(m.votes) == m.voted.len()
    &&& forall|k: Seq<char>| #[trigger]
        count_of(m.rewards, k) == if m.voted.contains(k) {
            1nat
        } else {
            0nat
        }
}

/// The outcome of submitting a vote for `c` by identity `i` in state `m`.
pub open spec fn vote_result(m: LedgerModel, c: Seq<char>, i: Seq<char>) -> Result<(), LedgerError> {
    if c.len() == 0 || i.len() == 0 {
        Err(LedgerError::InvalidArgument)
    } else if m.voted.contains(i) {
        Err(LedgerError::AlreadyVoted)
    } else if count_of(m.votes, c) >= u64::MAX || count_of(m.rewards, i) >= u64::MAX {
        Err(LedgerError::StoreUnavailable)
    } else {
        Ok(())
    }
}

/// The state after submitting a vote for `c` by identity `i` in state `m`: all
/// three writes when the vote is accepted, none otherwise.
pub open spec fn after_vote(m: LedgerModel, c: Seq<char>, i: Seq<char>) -> LedgerModel {
    if vote_result(m, c, i) is Ok {
        LedgerModel {
            votes: put(m.votes, c, count_of(m.votes, c) + 1),
            voted: m.voted.push(i),
            rewards: put(m.rewards, i, count_of(m.rewards, i) + 1),
        }
    } else {
        m
    }
}

/// The state after submitting each `(candidate, identity)` pair of `ops` in order.
pub open spec fn after_votes(m: LedgerModel, ops: Seq<(Seq<char>, Seq<char>)>) -> LedgerModel
    decreases ops.len(),
{
    if ops.len() == 0 {
        m
    } else {
        let p = after_votes(m, ops.drop_last());
        after_vote(p, ops.last().0, ops.last().1)
    }
}

/// One vote transition preserves the ledger invariants.
pub proof fn lemma_vote_preserves_inv(m: LedgerModel, c: Seq<char>, i: Seq<char>)
    requires
        ledger_inv(m),
    ensures
        ledger_inv(after_vote(m, c, i)),
{
    if vote_result(m, c, i) is Ok {
        let n = after_vote(m, c, i);
        lemma_put(m.votes, c, count_of(m.votes, c) + 1);
        lemma_put(m.rewards, i, count_of(m.rewards, i) + 1);
        assert(n.voted.no_duplicates()) by {
            assert forall|a: int, b: int|
                0 <= a < n.voted.len() && 0 <= b < n.voted.len() && a != b implies n.voted[a]
                != n.voted[b] by {
                if a == m.voted.len() {
                    assert(m.voted.contains(n.voted[b]));
                } else if b == m.voted.len() {
                    assert(m.voted.contains(n.voted[a]));
                }
            }
        }
        assert forall|k: Seq<char>| #[trigger]
            count_of(n.rewards, k) == if n.voted.contains(k) {
                1nat
            } else {
                0nat
            } by {
            if n.voted.contains(k) && k != i {
                let j = choose|j: int| 0 <= j < n.voted.len() && n.voted[j] == k;
                assert(m.voted[j] == k);
            }
            if m.voted.contains(k) {
                let j = choose|j: int| 0 <= j < m.voted.len() && m.voted[j] == k;
                assert(n.voted[j] == k);
            }
            assert(n.voted[m.voted.len() as int] == i);
        }
    }
}

/// A vote ledger.
pub struct Ledger {
    votes: CountTable,
    voted: FlagSet,
    rewards: CountTable,
}

impl View for Ledger {
    type V = LedgerModel;

    closed spec fn view(&self) -> LedgerModel {
        LedgerModel { votes: self.votes@, voted: self.voted@, rewards: self.rewards@ }
    }
}

impl Ledger {
    /// Well-formedness: the ledger invariants hold of its contents.
    pub closed spec fn wf(&self) -> bool {
        ledger_inv(self@)
    }

    /// A well-formed ledger satisfies the ledger invariants, so every fact
    /// proved of such states holds of it.
    pub proof fn lemma_wf(&self)
        requires
            self.wf(),
        ensures
            ledger_inv(self@),
    {
    }

    /// An empty ledger.
    pub fn new() -> (r: Ledger)
        ensures
            r.wf(),
            r@ == empty_model(),
    {
        let r = Ledger { votes: CountTable::new(), voted: FlagSet::new(), rewards: CountTable::new() };
        proof {
            assert(forall|k: Seq<char>| !r@.voted.contains(k));
        }
        r
    }

    /// Records a vote for `candidate` by `identity`: the candidate's tally and
    /// the identity's reward counter each go up by one and its voted flag is
    /// set. Nothing changes when the vote is refused.
    pub fn vote(&mut self, candidate: &str, identity: &str) -> (r: Result<(), LedgerError>)
        requires
            old(self).wf(),
        ensures
            final(self).wf(),
            r == vote_result(old(self)@, candidate@, identity@),
            final(self)@ == after_vote(old(self)@, candidate@, identity@),
    {
        if candidate.is_empty() || identity.is_empty() {
            return Err(LedgerError::InvalidArgument);
        }
        let c = candidate.to_owned();
        let i = identity.to_owned();
        if self.voted.contains(&i) {
            return Err(LedgerError::AlreadyVoted);
        }
        let tally = self.votes.get(&c);
        let reward = self.rewards.get(&i);
        if tally == u64::MAX || reward == u64::MAX {
            return Err(LedgerError::StoreUnavailable);
        }
        proof {
            self.votes.lemma_bounded(c@);
            self.rewards.lemma_bounded(i@);
            lemma_vote_preserves_inv(self@, c@, i@);
        }
        self.votes.set(c, tally + 1);
        self.voted.insert(i.clone());
        self.rewards.set(i, reward + 1);
        Ok(())
    }

    /// The tally of `candidate`; zero for a candidate nobody voted for.
    pub fn get_votes(&self, candidate: &str) -> (r: u64)
        requires
            self.wf(),
        ensures
            r as nat == count_of(self@.votes, candidate@),
    {
        self.votes.get(&candidate.to_owned())
    }

    /// Whether `identity` has voted.
    pub fn has_voted(&self, identity: &str) -> (r: bool)
        ensures
            r == self@.voted.contains(identity@),
    {
        self.voted.contains(&identity.to_owned())
    }

    /// The reward counter of `identity`; zero for an identity that never voted.
    pub fn get_rewards(&self, identity: &str) -> (r: u64)
        requires
            self.wf(),
        ensures
            r as nat == count_of(self@.rewards, identity@),
    {
        self.rewards.get(&identity.to_owned())
    }
}

} // verus!
