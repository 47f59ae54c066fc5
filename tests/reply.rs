use iota_voting::reply::{parse_count_reply, parse_flag_reply};

#[test]
fn count_on_its_own_line() {
    assert_eq!(parse_count_reply(b"votes: 5", b"votes:"), 5);
    assert_eq!(parse_count_reply(b"header\nvotes: 12\r\nfooter\n", b"votes:"), 12);
}

#[test]
fn count_first_matching_line_wins() {
    assert_eq!(parse_count_reply(b"votes: 3\nvotes: 9\n", b"votes:"), 3);
}

#[test]
fn count_takes_second_colon_piece() {
    assert_eq!(parse_count_reply(b"votes: 3: extra", b"votes:"), 3);
    assert_eq!(parse_count_reply(b"result votes:7", b"votes:"), 7);
    assert_eq!(parse_count_reply(b"a:b votes: 4", b"votes:"), 0);
}

#[test]
fn count_defaults_to_zero() {
    assert_eq!(parse_count_reply(b"", b"votes:"), 0);
    assert_eq!(parse_count_reply(b"nothing here", b"votes:"), 0);
    assert_eq!(parse_count_reply(b"votes: abc", b"votes:"), 0);
    assert_eq!(parse_count_reply(b"votes:", b"votes:"), 0);
    assert_eq!(parse_count_reply(b"votes: -1", b"votes:"), 0);
    assert_eq!(parse_count_reply(b"votes: +", b"votes:"), 0);
}

#[test]
fn count_sign_and_limits() {
    assert_eq!(parse_count_reply(b"rewards: +7", b"rewards:"), 7);
    assert_eq!(
        parse_count_reply(b"rewards: 18446744073709551615", b"rewards:"),
        u64::MAX
    );
    assert_eq!(parse_count_reply(b"rewards: 18446744073709551616", b"rewards:"), 0);
    assert_eq!(parse_count_reply(b"rewards: 007", b"rewards:"), 7);
}

#[test]
fn count_matches_std_parsing() {
    let cases: [&str; 6] = ["votes: 42", " votes:\t8 ", "x\nvotes: 1 2", "votes: 99\n", "votes : 5", "votes:+0"];
    for c in cases.iter() {
        let expected = c
            .lines()
            .find(|line| line.contains("votes:"))
            .and_then(|line| line.split(':').nth(1))
            .and_then(|v| v.trim().parse::<u64>().ok())
            .unwrap_or(0);
        assert_eq!(parse_count_reply(c.as_bytes(), b"votes:"), expected);
    }
}

#[test]
fn flag_reading() {
    assert!(parse_flag_reply(b"has_voted: true", b"has_voted:"));
    assert!(parse_flag_reply(b"x\nhas_voted:true\r\n", b"has_voted:"));
    assert!(!parse_flag_reply(b"has_voted: false", b"has_voted:"));
    assert!(!parse_flag_reply(b"has_voted: True", b"has_voted:"));
    assert!(!parse_flag_reply(b"has_voted: truex", b"has_voted:"));
    assert!(!parse_flag_reply(b"", b"has_voted:"));
}

fn std_count(out: &str, label: &str) -> u64 {
    out.lines()
        .find(|line| line.contains(label))
        .and_then(|line| line.split(':').nth(1))
        .and_then(|v| v.trim().parse::<u64>().ok())
        .unwrap_or(0)
}

#[test]
fn unicode_whitespace_is_trimmed() {
    assert_eq!(parse_count_reply("votes:\u{a0}7".as_bytes(), b"votes:"), 7);
    assert_eq!(parse_count_reply("rewards:\u{a0}1".as_bytes(), b"rewards:"), 1);
    assert!(parse_flag_reply("has_voted:\u{a0}true".as_bytes(), b"has_voted:"));
    assert!(parse_flag_reply("has_voted:\u{3000}true\u{2029}".as_bytes(), b"has_voted:"));
    assert_eq!(parse_count_reply("votes: 12\u{85}\u{2028}".as_bytes(), b"votes:"), 12);
}

#[test]
fn every_whitespace_char_matches_std_trim() {
    let mut seen = 0;
    for u in 0u32..0x4000 {
        let c = match char::from_u32(u) {
            Some(c) => c,
            None => continue,
        };
        if c == '\n' || c == ':' {
            continue;
        }
        let out = format!("votes:{}{}42{}{}", c, c, c, c);
        assert_eq!(parse_count_reply(out.as_bytes(), b"votes:"), std_count(&out, "votes:"), "char {:#x}", u);
        let flag = format!("has_voted:{}true{}", c, c);
        let expected = flag
            .lines()
            .find(|line| line.contains("has_voted:"))
            .and_then(|line| line.split(':').nth(1))
            .map(|v| v.trim() == "true")
            .unwrap_or(false);
        assert_eq!(parse_flag_reply(flag.as_bytes(), b"has_voted:"), expected, "char {:#x}", u);
        if c.is_whitespace() {
            seen += 1;
        }
    }
    assert_eq!(seen, 24);
}
