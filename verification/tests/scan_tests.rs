//! The note scanner run on real text: classification priority, ambient
//! date and read state, URL extraction, and the fatal error cases.

use chrono::TimeZone;
use notefeed::parser::{parse_note, LinkState, ParseError};

fn parsed_date(day_and_month: &str) -> String {
    let request = format!("{} 09:00:00 2021", day_and_month);
    chrono::NaiveDateTime::parse_from_str(&request, "%e %B %T %Y")
        .unwrap()
        .and_utc()
        .to_rfc2822()
}

#[test]
fn example_note_yields_two_links() {
    let text = "28 November\nread\nhttp://a.example/page\nunread\nhttp://b.example/x.pdf\n";
    let links = parse_note(text).unwrap();
    assert_eq!(links.len(), 2);
    let date = parsed_date("28 November");
    assert_eq!(date, "Sun, 28 Nov 2021 09:00:00 +0000");
    assert_eq!(links[0].url, "http://a.example/page");
    assert_eq!(links[0].state, LinkState::Read);
    assert_eq!(links[0].date, date);
    assert!(links[0].tags.is_empty());
    assert_eq!(links[1].url, "http://b.example/x.pdf");
    assert_eq!(links[1].state, LinkState::Unread);
    assert_eq!(links[1].date, date);
}

#[test]
fn link_count_matches_link_lines() {
    let text = "1 January\nunread\nhttp://a.example/1\nread\n[[http://a.example/2]]\n\nunread\nhttp://a.example/3\n2 January\nhttp://a.example/4";
    let links = parse_note(text).unwrap();
    assert_eq!(links.len(), 4);
}

#[test]
fn link_before_any_date_carries_fallback_date() {
    let links = parse_note("http://early.example/a\n1 March\nhttp://later.example/b").unwrap();
    let fallback = chrono::Utc
        .with_ymd_and_hms(2014, 11, 28, 12, 0, 9)
        .unwrap()
        .to_rfc2822();
    assert_eq!(fallback, "Fri, 28 Nov 2014 12:00:09 +0000");
    assert_eq!(links[0].date, fallback);
    assert_eq!(links[1].date, parsed_date("1 March"));
}

#[test]
fn unread_holds_until_next_directive() {
    let text = "unread\nhttp://a.example/1\n\nhttp://a.example/2\nread\nhttp://a.example/3\nunread\nhttp://a.example/4";
    let links = parse_note(text).unwrap();
    assert_eq!(links[0].state, LinkState::Unread);
    assert_eq!(links[1].state, LinkState::Unread);
    assert_eq!(links[2].state, LinkState::Read);
    assert_eq!(links[3].state, LinkState::Unread);
}

#[test]
fn new_date_line_resets_state_to_read() {
    let text = "unread\nhttp://a.example/1\n2 February\nhttp://a.example/2";
    let links = parse_note(text).unwrap();
    assert_eq!(links[0].state, LinkState::Unread);
    assert_eq!(links[1].state, LinkState::Read);
    assert_eq!(links[1].date, parsed_date("2 February"));
}

#[test]
fn trailing_period_is_stripped() {
    let links = parse_note("http://a.example/page.\n[[http://b.example/doc. a note]]").unwrap();
    assert_eq!(links[0].url, "http://a.example/page");
    assert_eq!(links[1].url, "http://b.example/doc");
}

#[test]
fn url_without_trailing_period_is_unchanged() {
    let links = parse_note("http://a.example/page").unwrap();
    assert_eq!(links[0].url, "http://a.example/page");
}

#[test]
fn annotation_after_first_space_is_discarded() {
    let links = parse_note("http://a.example/p some words after\n[[http://b.example/q tag]]")
        .unwrap();
    assert_eq!(links[0].url, "http://a.example/p");
    assert_eq!(links[1].url, "http://b.example/q");
}

#[test]
fn read_prefix_rule_is_a_prefix_rule() {
    // A line beginning with "read" is a directive even when more follows.
    let links = parse_note("unread\nreading list for later\nhttp://a.example/1").unwrap();
    assert_eq!(links.len(), 1);
    assert_eq!(links[0].state, LinkState::Read);
}

#[test]
fn blank_and_whitespace_lines_are_ignored() {
    let text = "unread\n\n   \n\t\nhttp://a.example/1";
    let links = parse_note(text).unwrap();
    assert_eq!(links.len(), 1);
    assert_eq!(links[0].state, LinkState::Unread);
}

#[test]
fn crlf_line_endings_are_handled() {
    let links = parse_note("unread\r\nhttp://a.example/1\r\n").unwrap();
    assert_eq!(links.len(), 1);
    assert_eq!(links[0].url, "http://a.example/1");
    assert_eq!(links[0].state, LinkState::Unread);
}

#[test]
fn empty_text_yields_no_links() {
    let links = parse_note("").unwrap();
    assert!(links.is_empty());
}

#[test]
fn date_line_is_trimmed_before_parsing() {
    let links = parse_note("   28 November   \nhttp://a.example/1").unwrap();
    assert_eq!(links[0].date, parsed_date("28 November"));
}

#[test]
fn malformed_date_line_aborts_the_run() {
    let err = parse_note("http://a.example/1\nnot a date at all\nhttp://a.example/2")
        .unwrap_err();
    match err {
        ParseError::BadDate { line } => assert_eq!(line, "not a date at all"),
        other => panic!("{:?}", other),
    }
}

#[test]
fn unclosed_bracketed_link_aborts_the_run() {
    let err = parse_note("[[http://a.example/1").unwrap_err();
    match err {
        ParseError::UnclosedLink { line } => assert_eq!(line, "[[http://a.example/1"),
        other => panic!("{:?}", other),
    }
}

#[test]
fn bare_https_line_is_a_link_line() {
    let links = parse_note("https://a.example/s").unwrap();
    assert_eq!(links.len(), 1);
    assert_eq!(links[0].url, "https://a.example/s");
}
