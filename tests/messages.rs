use iota_voting::messages::{issue_credential, submit_feedback};

#[test]
fn credential_text_for_each_age_width() {
    assert_eq!(
        issue_credential("did:iota:rms:0xab", "North", 42),
        "Credential for did:iota:rms:0xab in region North age 42"
    );
    assert_eq!(issue_credential("d", "r", 0), "Credential for d in region r age 0");
    assert_eq!(issue_credential("d", "r", 7), "Credential for d in region r age 7");
    assert_eq!(issue_credential("d", "r", 100), "Credential for d in region r age 100");
    assert_eq!(issue_credential("d", "r", 255), "Credential for d in region r age 255");
}

#[test]
fn credential_text_matches_std_formatting() {
    for age in 0..=255u8 {
        assert_eq!(
            issue_credential("x", "y", age),
            format!("Credential for {} in region {} age {}", "x", "y", age)
        );
    }
}

#[test]
fn feedback_text() {
    assert_eq!(
        submit_feedback("did:1", "More parks, please."),
        "Feedback from did:1: More parks, please."
    );
    assert_eq!(submit_feedback("", ""), "Feedback from : ");
}
