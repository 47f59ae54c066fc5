use iota_voting::ledger::{Ledger, LedgerError};

#[test]
fn second_vote_for_other_candidate_is_refused() {
    let mut l = Ledger::new();
    assert_eq!(l.vote("alice", "did:1"), Ok(()));
    assert_eq!(l.vote("bob", "did:1"), Err(LedgerError::AlreadyVoted));
    assert_eq!(l.get_votes("alice"), 1);
    assert_eq!(l.get_votes("bob"), 0);
    assert!(l.has_voted("did:1"));
    assert_eq!(l.get_rewards("did:1"), 1);
}

#[test]
fn repeated_submissions_count_once() {
    let mut l = Ledger::new();
    let mut accepted = 0;
    let mut refused = 0;
    for _ in 0..10 {
        match l.vote("carol", "did:same") {
            Ok(()) => accepted += 1,
            Err(LedgerError::AlreadyVoted) => refused += 1,
            Err(e) => panic!("unexpected error {:?}", e),
        }
    }
    assert_eq!(accepted, 1);
    assert_eq!(refused, 9);
    assert_eq!(l.get_votes("carol"), 1);
    assert_eq!(l.get_rewards("did:same"), 1);
}

#[test]
fn unknown_keys_read_as_zero() {
    let l = Ledger::new();
    assert_eq!(l.get_votes("nonexistent"), 0);
    assert!(!l.has_voted("nonexistent"));
    assert_eq!(l.get_rewards("nonexistent"), 0);
}

#[test]
fn tallies_sum_to_number_of_voters() {
    let mut l = Ledger::new();
    let subs = [
        ("a", "id1"),
        ("b", "id2"),
        ("a", "id3"),
        ("c", "id1"),
        ("b", "id2"),
        ("a", "id4"),
        ("", "id5"),
        ("c", ""),
    ];
    for (c, i) in subs.iter() {
        let _ = l.vote(c, i);
    }
    let sum = l.get_votes("a") + l.get_votes("b") + l.get_votes("c");
    let ids = ["id1", "id2", "id3", "id4", "id5"];
    let voters = ids.iter().filter(|i| l.has_voted(i)).count() as u64;
    assert_eq!(l.get_votes("a"), 3);
    assert_eq!(l.get_votes("b"), 1);
    assert_eq!(l.get_votes("c"), 0);
    assert_eq!(sum, 4);
    assert_eq!(voters, 4);
    assert!(voters <= ids.len() as u64);
}

#[test]
fn empty_fields_are_rejected_without_change() {
    let mut l = Ledger::new();
    assert_eq!(l.vote("", "id1"), Err(LedgerError::InvalidArgument));
    assert_eq!(l.vote("cand", ""), Err(LedgerError::InvalidArgument));
    assert_eq!(l.get_votes(""), 0);
    assert_eq!(l.get_votes("cand"), 0);
    assert!(!l.has_voted("id1"));
    assert!(!l.has_voted(""));
    assert_eq!(l.get_rewards("id1"), 0);
    assert_eq!(l.get_rewards(""), 0);
}

#[test]
fn rewards_only_for_voters() {
    let mut l = Ledger::new();
    let _ = l.vote("x", "v1");
    let _ = l.vote("y", "v2");
    let _ = l.vote("y", "v1");
    for id in ["v1", "v2", "v3", "other"].iter() {
        if l.get_rewards(id) > 0 {
            assert!(l.has_voted(id));
        }
        assert_eq!(l.get_rewards(id), if l.has_voted(id) { 1 } else { 0 });
    }
    assert_eq!(l.get_rewards("v3"), 0);
}

#[test]
fn tallies_accumulate_across_identities() {
    let mut l = Ledger::new();
    for i in 0..5 {
        let id = format!("id{}", i);
        assert_eq!(l.vote("yes", &id), Ok(()));
    }
    assert_eq!(l.vote("no", "id9"), Ok(()));
    assert_eq!(l.get_votes("yes"), 5);
    assert_eq!(l.get_votes("no"), 1);
    assert_eq!(l.get_votes("YES"), 0);
}
