//! Texts returned for credential issuance and feedback submission.
use vstd::prelude::*;

verus! {

/// The decimal digit for `d < 10`.
pub open spec fn digit_char(d: nat) -> char {
    if d == 0 {
        '0'
    } else if d == 1 {
        '1'
    } else if d == 2 {
        '2'
    } else if d == 3 {
        '3'
    } else if d == 4 {
        '4'
    } else if d == 5 {
        '5'
    } else if d == 6 {
        '6'
    } else if d == 7 {
        '7'
    } else if d == 8 {
        '8'
    } else {
        '9'
    }
}

/// `n` written in decimal without leading zeros.
pub open spec fn decimal(n: nat) -> Seq<char>
    decreases n,
{
    if n < 10 {
        seq![digit_char(n)]
    } else {
        decimal(n / 10) + seq![digit_char(n % 10)]
    }
}

/// The credential issued to `did` for a region and an age.
pub open spec fn credential_spec(did: Seq<char>, region: Seq<char>, age: nat) -> Seq<char> {
    "Credential for "@ + did + " in region "@ + region + " age "@ + decimal(age)
}

/// The acknowledgement of feedback from `did`.
pub open spec fn feedback_spec(did: Seq<char>, feedback: Seq<char>) -> Seq<char> {
    "Feedback from "@ + did + ": "@ + feedback
}

fn push_digit(s: &mut String, d: u8)
    requires
        d < 10,
    ensures
        final(s)@ == old(s)@.push(digit_char(d as nat)),
{
    let t: &str = match d {
        0 => "0",
        1 => "1",
        2 => "2",
        3 => "3",
        4 => "4",
        5 => "5",
        6 => "6",
        7 => "7",
        8 => "8",
        _ => "9",
    };
    proof {
        reveal_strlit("0");
        reveal_strlit("1");
        reveal_strlit("2");
        reveal_strlit("3");
        reveal_strlit("4");
        reveal_strlit("5");
        reveal_strlit("6");
        reveal_strlit("7");
        reveal_strlit("8");
        reveal_strlit("9");
    }
    s.append(t);
    assert(s@ =~= old(s)@.push(digit_char(d as nat)));
}

/// Appends `n` in decimal.
fn push_decimal(s: &mut String, n: u8)
    ensures
        final(s)@ == old(s)@ + decimal(n as nat),
{
    let ghost m = n as nat;
    if n >= 100 {
        push_digit(s, n / 100);
        push_digit(s, n / 10 % 10);
        push_digit(s, n % 10);
        assert(decimal(m / 10 / 10) == seq![digit_char(m / 100)]);
        assert(decimal(m / 10) == decimal(m / 10 / 10) + seq![digit_char(m / 10 % 10)]);
        assert(decimal(m) == decimal(m / 10) + seq![digit_char(m % 10)]);
        assert(s@ =~= old(s)@ + decimal(m));
    } else if n >= 10 {
        push_digit(s, n / 10);
        push_digit(s, n % 10);
        assert(decimal(m / 10) == seq![digit_char(m / 10)]);
        assert(decimal(m) == decimal(m / 10) + seq![digit_char(m % 10)]);
        assert(s@ =~= old(s)@ + decimal(m));
    } else {
        push_digit(s, n);
        assert(s@ =~= old(s)@ + decimal(m));
    }
}

/// The credential text for `did`, `region` and `age`.
pub fn issue_credential(did: &str, region: &str, age: u8) -> (r: String)
    ensures
        r@ == credential_spec(did@, region@, age as nat),
{
    let mut s = "Credential for ".to_owned();
    s.append(did);
    s.append(" in region ");
    s.append(region);
    s.append(" age ");
    push_decimal(&mut s, age);
    assert(s@ =~= credential_spec(did@, region@, age as nat));
    s
}

/// The acknowledgement text for `feedback` from `did`.
pub fn submit_feedback(did: &str, feedback: &str) -> (r: String)
    ensures
        r@ == feedback_spec(did@, feedback@),
{
    let mut s = "Feedback from ".to_owned();
    s.append(did);
    s.append(": ");
    s.append(feedback);
    assert(s@ =~= feedback_spec(did@, feedback@));
    s
}

} // verus!
