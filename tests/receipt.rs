use iota_voting::receipt::{
    policy_vote_response, submit_policy_vote, submit_vote, vote_response, PolicyVoteRequest,
    VoteRequest,
};

fn check_receipt(s: &str) {
    let b = s.as_bytes();
    assert_eq!(b.len(), 36);
    for (j, c) in b.iter().enumerate() {
        if j == 8 || j == 13 || j == 18 || j == 23 {
            assert_eq!(*c, b'-');
        } else {
            assert!(c.is_ascii_digit() || (b'a'..=b'f').contains(c));
        }
    }
    assert_eq!(b[14], b'4');
    assert!(matches!(b[19], b'8' | b'9' | b'a' | b'b'));
}

#[test]
fn vote_is_acknowledged_with_receipt() {
    let req = VoteRequest {
        user_id: "u1".to_string(),
        vote: "Party A".to_string(),
        candidate: "alice".to_string(),
        did: "did:iota:rms:1".to_string(),
    };
    let r = submit_vote(req.clone());
    assert_eq!(r.party, "Party A");
    assert_eq!(r.message, "Vote recorded successfully.");
    check_receipt(&r.notarization_receipt);
    let r2 = submit_vote(req);
    assert_ne!(r.notarization_receipt, r2.notarization_receipt);
}

#[test]
fn policy_vote_is_acknowledged_with_receipt() {
    let req = PolicyVoteRequest {
        user_id: "u2".to_string(),
        policy: "P-17".to_string(),
        vote: "yes".to_string(),
    };
    let r = submit_policy_vote(req);
    assert_eq!(r.policy, "P-17");
    assert_eq!(r.message, "Policy vote recorded successfully.");
    check_receipt(&r.notarization_receipt);
}

#[test]
fn responses_carry_given_receipt() {
    let r = vote_response("B".to_string(), "rcpt".to_string());
    assert_eq!(r.party, "B");
    assert_eq!(r.notarization_receipt, "rcpt");
    let p = policy_vote_response("Q".to_string(), "rc2".to_string());
    assert_eq!(p.policy, "Q");
    assert_eq!(p.notarization_receipt, "rc2");
    assert_eq!(p.message, "Policy vote recorded successfully.");
}
