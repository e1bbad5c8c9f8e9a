//! The feed builder's selection run on real links, and the whole pipeline
//! on the worked example.

use notefeed::feed::{build_entries, feed_title, make_entry, unread_links};
use notefeed::parser::{parse_note, Link, LinkState};
use notefeed::title::derived_title;

fn link(url: &str, state: LinkState) -> Link {
    Link { url: url.to_owned(), tags: vec![], state, date: "Fri, 28 Nov 2014 12:00:09 +0000".to_owned() }
}

#[test]
fn feed_keeps_exactly_the_unread_links_in_order() {
    let links = vec![
        link("http://a.example/1", LinkState::Read),
        link("http://a.example/2", LinkState::Unread),
        link("http://a.example/3", LinkState::Read),
        link("http://a.example/4", LinkState::Unread),
        link("http://a.example/5", LinkState::Unread),
    ];
    let unread = unread_links(links);
    let urls: Vec<&str> = unread.iter().map(|l| l.url.as_str()).collect();
    assert_eq!(urls, vec!["http://a.example/2", "http://a.example/4", "http://a.example/5"]);
    assert!(unread.iter().all(|l| l.state == LinkState::Unread));
}

#[test]
fn all_read_links_give_an_empty_feed() {
    let links = vec![link("http://a.example/1", LinkState::Read)];
    assert!(unread_links(links).is_empty());
}

#[test]
fn no_links_give_an_empty_feed() {
    assert!(unread_links(Vec::new()).is_empty());
}

#[test]
fn entry_carries_title_url_and_date() {
    let l = link("http://a.example/2", LinkState::Unread);
    let entry = make_entry(l, Some("A Page".to_owned()));
    assert_eq!(entry.title, Some("A Page".to_owned()));
    assert_eq!(entry.url, "http://a.example/2");
    assert_eq!(entry.date, "Fri, 28 Nov 2014 12:00:09 +0000");
    let l2 = link("http://a.example/3", LinkState::Unread);
    let entry2 = make_entry(l2, None);
    assert_eq!(entry2.title, None);
}

#[test]
fn entries_pair_links_with_their_titles_in_order() {
    let links = vec![
        link("http://a.example/1", LinkState::Unread),
        link("http://a.example/2", LinkState::Unread),
    ];
    let titles = vec![Some("One".to_owned()), None];
    let entries = build_entries(links, titles);
    assert_eq!(entries.len(), 2);
    assert_eq!(entries[0].url, "http://a.example/1");
    assert_eq!(entries[0].title, Some("One".to_owned()));
    assert_eq!(entries[1].url, "http://a.example/2");
    assert_eq!(entries[1].title, None);
    assert_eq!(entries[1].date, "Fri, 28 Nov 2014 12:00:09 +0000");
}

#[test]
fn channel_title_is_fixed() {
    assert_eq!(feed_title(), "local channel");
}

#[test]
fn example_note_feeds_only_the_unread_pdf() {
    let text = "28 November\nread\nhttp://a.example/page\nunread\nhttp://b.example/x.pdf\n";
    let links = parse_note(text).unwrap();
    let unread = unread_links(links);
    assert_eq!(unread.len(), 1);
    let title = derived_title(&unread[0].url, None);
    let entry = make_entry(unread.into_iter().next().unwrap(), title);
    assert_eq!(entry.url, "http://b.example/x.pdf");
    assert_eq!(entry.title, Some("http://b.example/x.pdf".to_owned()));
    assert_eq!(entry.date, "Sun, 28 Nov 2021 09:00:00 +0000");
}
