//! Receipts handed to the submitter of a vote: a fresh random token that
//! acknowledges the submission and is not bound to the ledger's state.
use vstd::prelude::*;

verus! {

pub open spec fn is_lower_hex(c: char) -> bool {
    ('0' <= c && c <= '9') || ('a' <= c && c <= 'f')
}

/// A version-4 UUID in lowercase hyphenated form (8-4-4-4-12 hex digits),
/// with the version digit `4` and the variant digit one of `8`, `9`, `a`, `b`.
pub open spec fn is_receipt(s: Seq<char>) -> bool {
    &&& s.len() == 36
    &&& forall|j: int|
        0 <= j < 36 ==> if j == 8 || j == 13 || j == 18 || j == 23 {
            s[j] == '-'
        } else {
            is_lower_hex(#[trigger] s[j])
        }
    &&& s[14] == '4'
    &&& (s[19] == '8' || s[19] == '9' || s[19] == 'a' || s[19] == 'b')
}

/// Relies on `uuid::Uuid::new_v4` (random bits with the version and variant
/// fields set) and on `Uuid`'s `Display`, which writes the lowercase
/// hyphenated form.
#[verifier::external_body]
fn new_receipt() -> (r: String)
    ensures
        is_receipt(r@),
{
    uuid::Uuid::new_v4().to_string()
}

/// A request to vote in an election.
#[derive(Debug, Clone)]
pub struct VoteRequest {
    pub user_id: String,
    pub vote: String,
    pub candidate: String,
    pub did: String,
}

/// The acknowledgement of an election vote.
#[derive(Debug, Clone)]
pub struct VoteResponse {
    pub party: String,
    pub notarization_receipt: String,
    pub message: String,
}

/// A request to vote on a policy.
#[derive(Debug, Clone)]
pub struct PolicyVoteRequest {
    pub user_id: String,
    pub policy: String,
    pub vote: String,
}

/// The acknowledgement of a policy vote.
#[derive(Debug, Clone)]
pub struct PolicyVoteResponse {
    pub policy: String,
    pub notarization_receipt: String,
    pub message: String,
}

pub open spec fn vote_message() -> Seq<char> {
    "Vote recorded successfully."@
}

pub open spec fn policy_vote_message() -> Seq<char> {
    "Policy vote recorded successfully."@
}

/// The acknowledgement of a vote for `party` under the given receipt.
pub fn vote_response(party: String, receipt: String) -> (r: VoteResponse)
    ensures
        r.party@ == party@,
        r.notarization_receipt@ == receipt@,
        r.message@ == vote_message(),
{
    proof {
        reveal_strlit("Vote recorded successfully.");
    }
    VoteResponse { party, notarization_receipt: receipt, message: "Vote recorded successfully.".to_owned() }
}

/// The acknowledgement of a vote on `policy` under the given receipt.
pub fn policy_vote_response(policy: String, receipt: String) -> (r: PolicyVoteResponse)
    ensures
        r.policy@ == policy@,
        r.notarization_receipt@ == receipt@,
        r.message@ == policy_vote_message(),
{
    proof {
        reveal_strlit("Policy vote recorded successfully.");
    }
    PolicyVoteResponse {
        policy,
        notarization_receipt: receipt,
        message: "Policy vote recorded successfully.".to_owned(),
    }
}

/// Acknowledges an election vote with a fresh receipt.
pub fn submit_vote(req: VoteRequest) -> (r: VoteResponse)
    ensures
        r.party@ == req.vote@,
        is_receipt(r.notarization_receipt@),
        r.message@ == vote_message(),
{
    let receipt = new_receipt();
    vote_response(req.vote, receipt)
}

/// Acknowledges a policy vote with a fresh receipt.
pub fn submit_policy_vote(req: PolicyVoteRequest) -> (r: PolicyVoteResponse)
    ensures
        r.policy@ == req.policy@,
        is_receipt(r.notarization_receipt@),
        r.message@ == policy_vote_message(),
{
    let receipt = new_receipt();
    policy_vote_response(req.policy, receipt)
}

} // verus!
