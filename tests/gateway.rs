use iota_voting::gateway::{func_vote, view_get_rewards, view_get_votes, view_has_voted};
use iota_voting::ledger::{Ledger, LedgerError};

#[test]
fn func_vote_records_and_views_read_back() {
    let mut l = Ledger::new();
    assert_eq!(func_vote(&mut l, Some("party"), Some("did:iota:1")), Ok(()));
    assert_eq!(view_get_votes(&l, Some("party")), Ok(1));
    assert_eq!(view_has_voted(&l, Some("did:iota:1")), Ok(true));
    assert_eq!(view_get_rewards(&l, Some("did:iota:1")), Ok(1));
    assert_eq!(
        func_vote(&mut l, Some("other"), Some("did:iota:1")),
        Err(LedgerError::AlreadyVoted)
    );
    assert_eq!(view_get_votes(&l, Some("other")), Ok(0));
}

#[test]
fn func_vote_missing_fields() {
    let mut l = Ledger::new();
    assert_eq!(func_vote(&mut l, None, Some("d")), Err(LedgerError::InvalidArgument));
    assert_eq!(func_vote(&mut l, Some("c"), None), Err(LedgerError::InvalidArgument));
    assert_eq!(func_vote(&mut l, Some(""), Some("d")), Err(LedgerError::InvalidArgument));
    assert_eq!(func_vote(&mut l, Some("c"), Some("")), Err(LedgerError::InvalidArgument));
    assert_eq!(view_has_voted(&l, Some("d")), Ok(false));
    assert_eq!(view_get_votes(&l, Some("c")), Ok(0));
    assert_eq!(view_get_rewards(&l, Some("d")), Ok(0));
}

#[test]
fn views_missing_fields() {
    let l = Ledger::new();
    assert_eq!(view_get_votes(&l, None), Err(LedgerError::InvalidArgument));
    assert_eq!(view_has_voted(&l, None), Err(LedgerError::InvalidArgument));
    assert_eq!(view_get_rewards(&l, None), Err(LedgerError::InvalidArgument));
    assert_eq!(view_get_votes(&l, Some("")), Err(LedgerError::InvalidArgument));
}

#[test]
fn views_default_to_zero() {
    let l = Ledger::new();
    assert_eq!(view_get_votes(&l, Some("nonexistent")), Ok(0));
    assert_eq!(view_has_voted(&l, Some("nonexistent")), Ok(false));
    assert_eq!(view_get_rewards(&l, Some("nonexistent")), Ok(0));
}
