//! The title enricher's decisions run against real HTML.

use notefeed::title::{derived_title, wants_fetch};

#[test]
fn pdf_url_is_never_fetched() {
    assert!(!wants_fetch("http://b.example/x.pdf"));
    assert!(wants_fetch("http://b.example/x"));
    assert!(wants_fetch("http://b.example/x.PDF"));
}

#[test]
fn pdf_title_is_the_url_itself() {
    assert_eq!(
        derived_title("http://b.example/x.pdf", None),
        Some("http://b.example/x.pdf".to_owned())
    );
}

#[test]
fn pdf_title_ignores_any_body() {
    assert_eq!(
        derived_title("http://b.example/x.pdf", Some("<title>something else</title>")),
        Some("http://b.example/x.pdf".to_owned())
    );
}

#[test]
fn html_title_is_extracted_and_trimmed() {
    let body = "<html><head><title>  A Fine Page \t</title></head><body>text</body></html>";
    assert_eq!(
        derived_title("http://a.example/page", Some(body)),
        Some("A Fine Page".to_owned())
    );
}

#[test]
fn first_title_element_wins() {
    let body = "<html><head><title>first</title></head><body><svg><title>second</title></svg></body></html>";
    assert_eq!(derived_title("http://a.example/page", Some(body)), Some("first".to_owned()));
}

#[test]
fn body_without_title_gives_none() {
    let body = "<html><head></head><body><p>no heading here</p></body></html>";
    assert_eq!(derived_title("http://a.example/page", Some(body)), None);
}

#[test]
fn no_body_gives_none() {
    assert_eq!(derived_title("http://a.example/page", None), None);
}
