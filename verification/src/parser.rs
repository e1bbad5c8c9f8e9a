//! The note scanner: a one-pass, priority-ordered line classifier with two
//! pieces of ambient context, the current date and the current read state.
//!
//! [`scan_lines`] is the mathematical model: a fold of [`scan_step`] over the
//! lines of a file. [`parse_note`] is the executable scanner, verified to
//! return exactly what the model says, link for link and error for error.

use vstd::prelude::*;
use vstd::string::StringExecFns;

use crate::dates::{fallback_date, fallback_date_string, utc_rfc2822, utc_rfc2822_of};
use crate::text::{
    blank_line, is_blank, spec_lines, split_lines, starts_with, str_ends_with, str_starts_with,
    trim, trim_spec, until_char, ends_with, lemma_until_char_is,
};

verus! {

/// Read/unread status in effect when a link is encountered.
#[derive(Clone, Copy, Debug, PartialEq, Eq, Structural)]
pub enum LinkState {
    Read,
    Unread,
}

/// One discovered reference: its URL, its labels (none yet), the read state
/// and the date that were current at its line.
#[derive(Debug)]
pub struct Link {
    pub url: String,
    pub tags: Vec<String>,
    pub state: LinkState,
    pub date: String,
}

/// The mathematical image of a [`Link`].
pub struct LinkView {
    pub url: Seq<char>,
    pub tags: Seq<Seq<char>>,
    pub state: LinkState,
    pub date: Seq<char>,
}

impl View for Link {
    type V = LinkView;

    open spec fn view(&self) -> LinkView {
        LinkView {
            url: self.url@,
            tags: self.tags.deep_view(),
            state: self.state,
            date: self.date@,
        }
    }
}

/// The links of a sequence, seen through their views.
pub open spec fn views_of_links(links: Seq<Link>) -> Seq<LinkView> {
    links.map_values(|l: Link| l@)
}

/// A fatal scanner failure: the offending line and what was wrong with it.
/// Date lines that the date grammar rejects and bracketed links missing
/// their closing delimiter abort the run; nothing is silently dropped.
#[derive(Debug)]
pub enum ParseError {
    BadDate { line: String },
    UnclosedLink { line: String },
}

/// The mathematical image of a [`ParseError`].
pub enum ScanError {
    BadDate { line: Seq<char> },
    UnclosedLink { line: Seq<char> },
}

impl View for ParseError {
    type V = ScanError;

    open spec fn view(&self) -> ScanError {
        match self {
            ParseError::BadDate { line } => ScanError::BadDate { line: line@ },
            ParseError::UnclosedLink { line } => ScanError::UnclosedLink { line: line@ },
        }
    }
}

/// What a line is, by the first rule that matches it.
#[derive(Clone, Copy, Debug, PartialEq, Eq, Structural)]
pub enum LineKind {
    BracketedLink,
    BareLink,
    MarkRead,
    MarkUnread,
    Blank,
    Date,
}

/// Per-line classification, in priority order: bracketed link, bare link,
/// `read` directive, `unread` directive, blank line; every other line is
/// taken for a date line.
pub open spec fn classify(line: Seq<char>) -> LineKind {
    if starts_with(line, "[["@) {
        LineKind::BracketedLink
    } else if starts_with(line, "http"@) {
        LineKind::BareLink
    } else if starts_with(line, "read"@) {
        LineKind::MarkRead
    } else if starts_with(line, "unread"@) {
        LineKind::MarkUnread
    } else if blank_line(line) {
        LineKind::Blank
    } else {
        LineKind::Date
    }
}

pub fn classify_line(line: &str) -> (k: LineKind)
    ensures
        k == classify(line@),
{
    if str_starts_with(line, "[[") {
        LineKind::BracketedLink
    } else if str_starts_with(line, "http") {
        LineKind::BareLink
    } else if str_starts_with(line, "read") {
        LineKind::MarkRead
    } else if str_starts_with(line, "unread") {
        LineKind::MarkUnread
    } else if is_blank(line) {
        LineKind::Blank
    } else {
        LineKind::Date
    }
}

/// A line that produces a link, under either link-line rule.
pub open spec fn is_link_line(line: Seq<char>) -> bool {
    classify(line) == LineKind::BracketedLink || classify(line) == LineKind::BareLink
}

/// A bracketed link line whose closing delimiter is present.
pub open spec fn closed_bracket(line: Seq<char>) -> bool {
    line.len() >= 4 && ends_with(line, "]]"@)
}

/// The text between the `[[` and `]]` delimiters.
pub open spec fn bracket_interior(line: Seq<char>) -> Seq<char> {
    line.subrange(2, line.len() - 2)
}

/// The URL candidate of a link line's content: the token before the first
/// space, with a trailing period stripped.
pub open spec fn first_token(s: Seq<char>) -> Seq<char> {
    s.take(until_char(s, ' ') as int)
}

/// A trailing period is prose punctuation, not part of the URL.
pub open spec fn strip_trailing_dot(t: Seq<char>) -> Seq<char> {
    if t.len() > 0 && t.last() == '.' {
        t.drop_last()
    } else {
        t
    }
}

pub open spec fn url_of_line(s: Seq<char>) -> Seq<char> {
    strip_trailing_dot(first_token(s))
}

/// The context the scanner carries across lines: the most recent date seen,
/// and the read state in effect.
pub struct ScanCtx {
    pub date: Option<Seq<char>>,
    pub mark: LinkState,
}

/// At the top of a file no date has been seen and links count as read.
pub open spec fn initial_ctx() -> ScanCtx {
    ScanCtx { date: None, mark: LinkState::Read }
}

/// What a date line hands to the date grammar: its trimmed text with the
/// fixed time of day and year token appended.
pub open spec fn date_request_of(line: Seq<char>) -> Seq<char> {
    trim_spec(line) + " 09:00:00 2021"@
}

/// The date a date line sets, if the grammar accepts it.
pub open spec fn date_of_line(line: Seq<char>) -> Option<Seq<char>> {
    utc_rfc2822_of(date_request_of(line), "%e %B %T %Y"@)
}

/// The link a link line emits under context `ctx`: the URL candidate of
/// `content`, no tags, the current read state, and the current date or the
/// fallback when none has been seen.
pub open spec fn emitted_link(content: Seq<char>, ctx: ScanCtx) -> LinkView {
    LinkView {
        url: url_of_line(content),
        tags: Seq::empty(),
        state: ctx.mark,
        date: match ctx.date {
            Some(d) => d,
            None => fallback_date(),
        },
    }
}

/// One line's effect on the scan: a link appended, the context changed, or a
/// fatal error.
pub open spec fn scan_step(ctx: ScanCtx, links: Seq<LinkView>, line: Seq<char>) -> Result<
    (ScanCtx, Seq<LinkView>),
    ScanError,
> {
    match classify(line) {
        LineKind::BracketedLink => if closed_bracket(line) {
            Ok((ctx, links.push(emitted_link(bracket_interior(line), ctx))))
        } else {
            Err(ScanError::UnclosedLink { line })
        },
        LineKind::BareLink => Ok((ctx, links.push(emitted_link(line, ctx)))),
        LineKind::MarkRead => Ok((ScanCtx { date: ctx.date, mark: LinkState::Read }, links)),
        LineKind::MarkUnread => Ok((ScanCtx { date: ctx.date, mark: LinkState::Unread }, links)),
        LineKind::Blank => Ok((ctx, links)),
        LineKind::Date => match date_of_line(line) {
            Some(d) => Ok((ScanCtx { date: Some(d), mark: LinkState::Read }, links)),
            None => Err(ScanError::BadDate { line }),
        },
    }
}

/// The scan of a whole file, line by line from the top: the model that
/// [`parse_note`] is verified against.
pub open spec fn scan_lines(lines: Seq<Seq<char>>) -> Result<
    (ScanCtx, Seq<LinkView>),
    ScanError,
> {
    scan_prefix(lines, lines.len() as int)
}

/// The scan of the first `n` lines.
pub open spec fn scan_prefix(lines: Seq<Seq<char>>, n: int) -> Result<
    (ScanCtx, Seq<LinkView>),
    ScanError,
>
    decreases n,
{
    if n <= 0 {
        Ok((initial_ctx(), Seq::empty()))
    } else {
        match scan_prefix(lines, n - 1) {
            Ok((ctx, links)) => scan_step(ctx, links, lines[n - 1]),
            Err(e) => Err(e),
        }
    }
}

/// The context the scanner carries after its first `n` lines, when the scan
/// of that prefix succeeds.
pub open spec fn ctx_at(lines: Seq<Seq<char>>, n: int) -> ScanCtx {
    scan_prefix(lines, n)->Ok_0.0
}

/// The links the scanner has produced after its first `n` lines, when the
/// scan of that prefix succeeds.
pub open spec fn links_at(lines: Seq<Seq<char>>, n: int) -> Seq<LinkView> {
    scan_prefix(lines, n)->Ok_0.1
}

/// Once some prefix of the lines has failed, the whole scan fails the same
/// way: the scanner aborts rather than skip data.
pub proof fn lemma_scan_error_persists(lines: Seq<Seq<char>>, k: int)
    requires
        0 <= k <= lines.len(),
        scan_prefix(lines, k) is Err,
    ensures
        scan_lines(lines) == scan_prefix(lines, k),
    decreases lines.len() - k,
{
    if k < lines.len() {
        lemma_scan_error_persists(lines, k + 1);
    }
}

/// The view of an optional owned string.
pub open spec fn opt_view(o: Option<String>) -> Option<Seq<char>> {
    match o {
        Some(s) => Some(s@),
        None => None,
    }
}

/// The URL candidate of a link line's content, verified against
/// [`url_of_line`]: the token before the first space, a trailing period
/// stripped.
pub fn link_url(content: &str) -> (r: String)
    ensures
        r@ == url_of_line(content@),
{
    let n = content.unicode_len();
    let mut i: usize = 0;
    while i < n && content.get_char(i) != ' '
        invariant
            i <= n,
            n == content@.len(),
            forall|j: int| 0 <= j < i ==> content@[j] != ' ',
        decreases n - i,
    {
        i = i + 1;
    }
    proof {
        lemma_until_char_is(content@, ' ', i as int);
    }
    let ghost token = first_token(content@);
    if i > 0 && content.get_char(i - 1) == '.' {
        proof {
            assert(token.last() == content@[i - 1]);
            assert(token.drop_last() =~= content@.subrange(0, i - 1));
        }
        content.substring_char(0, i - 1).to_owned()
    } else {
        proof {
            assert(token =~= content@.subrange(0, i as int));
            if token.len() > 0 {
                assert(token.last() == content@[i - 1]);
            }
        }
        content.substring_char(0, i).to_owned()
    }
}

/// Parses a date line: its trimmed text with the fixed time of day and year
/// appended, handed to the date grammar.
fn parse_date_line(line: &str) -> (r: Option<String>)
    ensures
        r is Some <==> date_of_line(line@) is Some,
        r matches Some(d) ==> date_of_line(line@) == Some(d@),
{
    let trimmed = trim(line);
    let mut request: String = trimmed.to_owned();
    request.append(" 09:00:00 2021");
    utc_rfc2822(request.as_str(), "%e %B %T %Y")
}

/// Scans the full text of one note file and produces its links, in line
/// order, each carrying the read state and date current at its line; or the
/// first fatal error, exactly as the model [`scan_lines`] says.
pub fn parse_note(text: &str) -> (r: Result<Vec<Link>, ParseError>)
    ensures
        r matches Ok(links) ==> scan_lines(spec_lines(text@)) matches Ok(p) && views_of_links(
            links@,
        ) == p.1,
        r matches Err(e) ==> scan_lines(spec_lines(text@)) matches Err(se) && se == e@,
{
    let lines = split_lines(text);
    let ghost lv = spec_lines(text@);
    let mut links: Vec<Link> = Vec::new();
    let mut cur_date: Option<String> = None;
    let mut cur_mark: LinkState = LinkState::Read;
    let mut idx: usize = 0;
    proof {
        assert(views_of_links(links@) =~= Seq::<LinkView>::empty());
    }
    while idx < lines.len()
        invariant
            idx <= lines.len(),
            lines.deep_view() == lv,
            lv == spec_lines(text@),
            lines@.len() == lv.len(),
            scan_prefix(lv, idx as int) == Ok::<(ScanCtx, Seq<LinkView>), ScanError>(
                (ScanCtx { date: opt_view(cur_date), mark: cur_mark }, views_of_links(links@)),
            ),
        decreases lines.len() - idx,
    {
        let line: &str = lines[idx].as_str();
        proof {
            assert(lv[idx as int] == lines@[idx as int]@);
        }
        let ghost prev_ctx = ScanCtx { date: opt_view(cur_date), mark: cur_mark };
        let ghost prev_links = views_of_links(links@);
        let kind = classify_line(line);
        match kind {
            LineKind::BracketedLink => {
                let n = line.unicode_len();
                let closed = if n >= 4 {
                    str_ends_with(line, "]]")
                } else {
                    false
                };
                if closed {
                    let interior = line.substring_char(2, n - 2);
                    let url = link_url(interior);
                    let date_string = match &cur_date {
                        Some(d) => d.clone(),
                        None => fallback_date_string(),
                    };
                    let link = Link { url, tags: Vec::new(), state: cur_mark, date: date_string };
                    proof {
                        assert(link@.tags =~= Seq::<Seq<char>>::empty());
                        assert(link@ == emitted_link(bracket_interior(lv[idx as int]), prev_ctx));
                    }
                    links.push(link);
                    proof {
                        assert(views_of_links(links@) =~= prev_links.push(
                            emitted_link(bracket_interior(lv[idx as int]), prev_ctx),
                        ));
                    }
                } else {
                    let err = ParseError::UnclosedLink { line: line.to_owned() };
                    proof {
                        assert(scan_prefix(lv, idx + 1) == Err::<(ScanCtx, Seq<LinkView>),
                            ScanError,
                        >(ScanError::UnclosedLink { line: lv[idx as int] }));
                        lemma_scan_error_persists(lv, idx + 1);
                    }
                    return Err(err);
                }
            },
            LineKind::BareLink => {
                let url = link_url(line);
                let date_string = match &cur_date {
                    Some(d) => d.clone(),
                    None => fallback_date_string(),
                };
                let link = Link { url, tags: Vec::new(), state: cur_mark, date: date_string };
                proof {
                    assert(link@.tags =~= Seq::<Seq<char>>::empty());
                    assert(link@ == emitted_link(lv[idx as int], prev_ctx));
                }
                links.push(link);
                proof {
                    assert(views_of_links(links@) =~= prev_links.push(
                        emitted_link(lv[idx as int], prev_ctx),
                    ));
                }
            },
            LineKind::MarkRead => {
                cur_mark = LinkState::Read;
            },
            LineKind::MarkUnread => {
                cur_mark = LinkState::Unread;
            },
            LineKind::Blank => {
            },
            LineKind::Date => {
                match parse_date_line(line) {
                    Some(d) => {
                        cur_date = Some(d);
                        cur_mark = LinkState::Read;
                    },
                    None => {
                        let err = ParseError::BadDate { line: line.to_owned() };
                        proof {
                            assert(scan_prefix(lv, idx + 1) == Err::<(ScanCtx, Seq<LinkView>),
                                ScanError,
                            >(ScanError::BadDate { line: lv[idx as int] }));
                            lemma_scan_error_persists(lv, idx + 1);
                        }
                        return Err(err);
                    },
                }
            },
        }
        idx = idx + 1;
    }
    proof {
        assert(scan_lines(lv) == scan_prefix(lv, lv.len() as int));
    }
    Ok(links)
}

} // verus!
