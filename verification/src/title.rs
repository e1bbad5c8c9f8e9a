//! The title enricher's decisions: whether a URL is fetched at all, and what
//! display title a link gets from its URL and the page body, if one was
//! fetched. The fetch itself is the caller's business; everything decided
//! here is verified.

use vstd::prelude::*;

use crate::text::{ends_with, str_ends_with, trim, trim_spec};

verus! {

/// The text of the first element named `tag` in `html`, if the parsed
/// document has one; both strings determine the outcome completely.
pub uninterp spec fn element_text_of(html: Seq<char>, tag: Seq<char>) -> Option<Seq<char>>;

/// Relies on select's `Document::from`, `Document::find` under the `Name`
/// predicate, and `Node::text`: parsing `html` and taking the text of the
/// first element named `tag` is a function of the two strings alone, and
/// there is none exactly when the parsed document has no such element.
#[verifier::external_body]
fn first_element_text(html: &str, tag: &str) -> (r: Option<String>)
    ensures
        r is Some <==> element_text_of(html@, tag@) is Some,
        r matches Some(t) ==> element_text_of(html@, tag@) == Some(t@),
{
    let document = select::document::Document::from(html);
    match document.find(select::predicate::Name(tag)).next() {
        None => None,
        Some(node) => Some(node.text()),
    }
}

/// A URL naming a PDF document: never fetched, titled by its own URL.
pub open spec fn is_pdf_url(url: Seq<char>) -> bool {
    ends_with(url, ".pdf"@)
}

/// Whether enriching this link calls for a fetch at all: everything but a
/// `.pdf` URL does.
pub fn wants_fetch(url: &str) -> (b: bool)
    ensures
        b == !is_pdf_url(url@),
{
    !str_ends_with(url, ".pdf")
}

/// The display title a link gets: a `.pdf` URL is its own title, whatever
/// was or was not fetched; otherwise the trimmed text of the body's first
/// `title` element, and none when there is no body or no such element.
pub open spec fn spec_title(url: Seq<char>, body: Option<Seq<char>>) -> Option<Seq<char>> {
    if is_pdf_url(url) {
        Some(url)
    } else {
        match body {
            None => None,
            Some(b) => match element_text_of(b, "title"@) {
                None => None,
                Some(t) => Some(trim_spec(t)),
            },
        }
    }
}

/// Derives a link's display title from its URL and the fetched page body,
/// verified against [`spec_title`]. `body` is `None` when nothing was
/// fetched or the fetch failed; a missing title is an absent value, never an
/// error.
pub fn derived_title(url: &str, body: Option<&str>) -> (r: Option<String>)
    ensures
        r.deep_view() == spec_title(url@, body.deep_view()),
{
    if !wants_fetch(url) {
        Some(url.to_owned())
    } else {
        match body {
            None => None,
            Some(b) => match first_element_text(b, "title") {
                None => None,
                Some(t) => Some(trim(t.as_str()).to_owned()),
            },
        }
    }
}

/// Law: a `.pdf`-suffixed URL's derived title is the URL itself, no matter
/// what was or was not fetched for it.
pub proof fn lemma_pdf_title(url: Seq<char>, body: Option<Seq<char>>)
    requires
        is_pdf_url(url),
    ensures
        spec_title(url, body) == Some(url),
{
}

} // verus!
