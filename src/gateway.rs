//! Entry points that take the raw call fields, check that each required one
//! is present and non-empty, and dispatch to the ledger.
use vstd::prelude::*;
use crate::ledger::{after_vote, vote_result, Ledger, LedgerError};
use crate::store::count_of;

verus! {

/// A required field is absent or empty.
pub open spec fn missing(f: Option<&str>) -> bool {
    match f {
        Some(s) => s@.len() == 0,
        None => true,
    }
}

/// The text of a field known to be present.
pub open spec fn field_text(f: Option<&str>) -> Seq<char> {
    match f {
        Some(s) => s@,
        None => Seq::empty(),
    }
}

fn present(f: Option<&str>) -> (r: Option<&str>)
    ensures
        match r {
            Some(s) => !missing(f) && f == Some(s),
            None => missing(f),
        },
{
    match f {
        Some(s) => {
            if s.is_empty() {
                None
            } else {
                Some(s)
            }
        },
        None => None,
    }
}

/// Submits a vote for `candidate` by the identity `did`.
pub fn func_vote(ledger: &mut Ledger, candidate: Option<&str>, did: Option<&str>) -> (r: Result<(), LedgerError>)
    requires
        old(ledger).wf(),
    ensures
        final(ledger).wf(),
        missing(candidate) || missing(did) ==> r == Err::<(), LedgerError>(
            LedgerError::InvalidArgument,
        ) && final(ledger)@ == old(ledger)@,
        !missing(candidate) && !missing(did) ==> r == vote_result(
            old(ledger)@,
            field_text(candidate),
            field_text(did),
        ) && final(ledger)@ == after_vote(old(ledger)@, field_text(candidate), field_text(did)),
{
    match (present(candidate), present(did)) {
        (Some(c), Some(d)) => ledger.vote(c, d),
        _ => Err(LedgerError::InvalidArgument),
    }
}

/// The tally of `candidate`.
pub fn view_get_votes(ledger: &Ledger, candidate: Option<&str>) -> (r: Result<u64, LedgerError>)
    requires
        ledger.wf(),
    ensures
        missing(candidate) ==> r == Err::<u64, LedgerError>(LedgerError::InvalidArgument),
        !missing(candidate) ==> (r matches Ok(n) && n as nat == count_of(
            ledger@.votes,
            field_text(candidate),
        )),
{
    match present(candidate) {
        Some(c) => Ok(ledger.get_votes(c)),
        None => Err(LedgerError::InvalidArgument),
    }
}

/// Whether the identity `did` has voted.
pub fn view_has_voted(ledger: &Ledger, did: Option<&str>) -> (r: Result<bool, LedgerError>)
    ensures
        missing(did) ==> r == Err::<bool, LedgerError>(LedgerError::InvalidArgument),
        !missing(did) ==> r == Ok::<bool, LedgerError>(ledger@.voted.contains(field_text(did))),
{
    match present(did) {
        Some(d) => Ok(ledger.has_voted(d)),
        None => Err(LedgerError::InvalidArgument),
    }
}

/// The reward counter of the identity `did`.
pub fn view_get_rewards(ledger: &Ledger, did: Option<&str>) -> (r: Result<u64, LedgerError>)
    requires
        ledger.wf(),
    ensures
        missing(did) ==> r == Err::<u64, LedgerError>(LedgerError::InvalidArgument),
        !missing(did) ==> (r matches Ok(n) && n as nat == count_of(ledger@.rewards, field_text(did))),
{
    match present(did) {
        Some(d) => Ok(ledger.get_rewards(d)),
        None => Err(LedgerError::InvalidArgument),
    }
}

} // verus!
