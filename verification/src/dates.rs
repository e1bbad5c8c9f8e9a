//! Dates for links: parsing a date line's text and the fixed fallback date.
//!
//! A date line carries only a day and a month ("28 November"); the scanner
//! appends a fixed time of day and a fixed year token before parsing, and a
//! link stores its date already rendered in RFC 2822 form.

use chrono::Datelike;
use vstd::prelude::*;

verus! {

/// The RFC 2822 rendering that parsing `s` under format `fmt` yields, when
/// chrono accepts `s`; both strings determine the outcome completely.
pub uninterp spec fn utc_rfc2822_of(s: Seq<char>, fmt: Seq<char>) -> Option<Seq<char>>;

/// Relies on chrono's `NaiveDateTime::parse_from_str` and
/// `DateTime::<Utc>::to_rfc2822`: parsing `s` with format `fmt` (English
/// month names; no locale, clock or time zone lookup is involved) and
/// rendering the parsed instant, taken as UTC, in RFC 2822 form is a
/// function of the two strings alone. `None` comes back exactly when
/// chrono rejects `s` against `fmt`, or when the parsed year falls outside
/// 0..=9999 — the only years the RFC 2822 renderer accepts; it would panic
/// on any other, so the body refuses them instead.
#[verifier::external_body]
pub(crate) fn utc_rfc2822(s: &str, fmt: &str) -> (r: Option<String>)
    ensures
        r is Some <==> utc_rfc2822_of(s@, fmt@) is Some,
        r matches Some(d) ==> utc_rfc2822_of(s@, fmt@) == Some(d@),
{
    match chrono::NaiveDateTime::parse_from_str(s, fmt) {
        Ok(t) if (0..=9999).contains(&t.year()) => Some(t.and_utc().to_rfc2822()),
        _ => None,
    }
}

/// The sentinel date a link carries when no date line came before it:
/// 2014-11-28 12:00:09 UTC, rendered in RFC 2822 form.
pub open spec fn fallback_date() -> Seq<char> {
    "Fri, 28 Nov 2014 12:00:09 +0000"@
}

pub fn fallback_date_string() -> (r: String)
    ensures
        r@ == fallback_date(),
{
    "Fri, 28 Nov 2014 12:00:09 +0000".to_owned()
}

} // verus!
