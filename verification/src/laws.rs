//! The stated properties of the note scanner, proved of its model
//! [`scan_lines`]: link count, fallback date, the unread window, and the
//! reset on a new date line.

use vstd::prelude::*;

use crate::dates::fallback_date;
use crate::parser::{
    bracket_interior, classify, ctx_at, emitted_link, first_token, is_link_line, links_at,
    scan_lines, scan_prefix, strip_trailing_dot, url_of_line, LineKind, LinkState,
};

verus! {

/// The content a link line hands to the URL rule: the bracket interior for a
/// bracketed link, the whole line for a bare one.
pub open spec fn link_content(line: Seq<char>) -> Seq<char> {
    if classify(line) == LineKind::BracketedLink {
        bracket_interior(line)
    } else {
        line
    }
}

/// A line whose effect is to change the scanner's read state: a directive or
/// a date line.
pub open spec fn mark_directive(line: Seq<char>) -> bool {
    ||| classify(line) == LineKind::MarkRead
    ||| classify(line) == LineKind::MarkUnread
    ||| classify(line) == LineKind::Date
}

/// Line `j` puts lines up to `i` under `unread`: `j` is an `unread`
/// directive, and nothing between `j` and `i` changes the read state.
pub open spec fn unread_window(lines: Seq<Seq<char>>, j: int, i: int) -> bool {
    &&& 0 <= j < i
    &&& classify(lines[j]) == LineKind::MarkUnread
    &&& forall|k: int| j < k < i ==> !mark_directive(lines[k])
}

/// A scan that got through `m` lines got through every shorter prefix.
pub proof fn lemma_scan_prefix_ok(lines: Seq<Seq<char>>, n: int, m: int)
    requires
        0 <= n <= m,
        scan_prefix(lines, m) is Ok,
    ensures
        scan_prefix(lines, n) is Ok,
    decreases m - n,
{
    if n < m {
        lemma_scan_prefix_ok(lines, n, m - 1);
    }
}

/// Links are only ever appended: what the scan has produced by line `n` is
/// still there, in place, at any later line.
pub proof fn lemma_links_monotone(lines: Seq<Seq<char>>, n: int, m: int)
    requires
        0 <= n <= m,
        scan_prefix(lines, m) is Ok,
    ensures
        links_at(lines, n).len() <= links_at(lines, m).len(),
        forall|k: int|
            0 <= k < links_at(lines, n).len() ==> links_at(lines, m)[k] == links_at(lines, n)[k],
    decreases m - n,
{
    if n < m {
        lemma_links_monotone(lines, n, m - 1);
    }
}

/// What line `i` contributes when it is a link line: one link, at position
/// `links_at(lines, i).len()`, made of the line's content and the context
/// current before it.
pub proof fn lemma_link_at_line(lines: Seq<Seq<char>>, i: int)
    requires
        0 <= i < lines.len(),
        scan_prefix(lines, i + 1) is Ok,
        is_link_line(lines[i]),
    ensures
        links_at(lines, i + 1) == links_at(lines, i).push(
            emitted_link(link_content(lines[i]), ctx_at(lines, i)),
        ),
{
}

/// Law: for every note file the scan accepts, the number of produced links
/// equals the number of lines matching either link-line rule, however many
/// date or state directive lines stand between them.
pub proof fn lemma_link_count(lines: Seq<Seq<char>>, n: int)
    requires
        0 <= n <= lines.len(),
        scan_prefix(lines, n) is Ok,
    ensures
        links_at(lines, n).len() == lines.take(n).filter(|l: Seq<char>| is_link_line(l)).len(),
    decreases n,
{
    reveal(Seq::filter);
    if n == 0 {
        assert(lines.take(0) =~= Seq::<Seq<char>>::empty());
    } else {
        lemma_scan_prefix_ok(lines, n - 1, n);
        lemma_link_count(lines, n - 1);
        assert(lines.take(n).drop_last() =~= lines.take(n - 1));
        assert(lines.take(n).last() == lines[n - 1]);
    }
}

/// Law ([`lemma_link_count`] over the whole file): as many links as link
/// lines.
pub proof fn lemma_link_count_file(lines: Seq<Seq<char>>)
    requires
        scan_lines(lines) is Ok,
    ensures
        scan_lines(lines)->Ok_0.1.len() == lines.filter(|l: Seq<char>| is_link_line(l)).len(),
{
    lemma_link_count(lines, lines.len() as int);
    assert(lines.take(lines.len() as int) =~= lines);
}

/// Before any date line has been seen, the scanner carries no date.
pub proof fn lemma_no_date_ctx(lines: Seq<Seq<char>>, i: int)
    requires
        0 <= i <= lines.len(),
        scan_prefix(lines, i) is Ok,
        forall|j: int| 0 <= j < i ==> classify(lines[j]) != LineKind::Date,
    ensures
        ctx_at(lines, i).date is None,
    decreases i,
{
    if i > 0 {
        lemma_scan_prefix_ok(lines, i - 1, i);
        lemma_no_date_ctx(lines, i - 1);
    }
}

/// Law: a link appearing before any date line carries the fixed fallback
/// date.
pub proof fn lemma_fallback_date(lines: Seq<Seq<char>>, i: int)
    requires
        scan_lines(lines) is Ok,
        0 <= i < lines.len(),
        is_link_line(lines[i]),
        forall|j: int| 0 <= j < i ==> classify(lines[j]) != LineKind::Date,
    ensures
        links_at(lines, i).len() < scan_lines(lines)->Ok_0.1.len(),
        scan_lines(lines)->Ok_0.1[links_at(lines, i).len() as int].date == fallback_date(),
{
    let n = lines.len() as int;
    lemma_scan_prefix_ok(lines, i + 1, n);
    lemma_scan_prefix_ok(lines, i, i + 1);
    lemma_no_date_ctx(lines, i);
    lemma_link_at_line(lines, i);
    lemma_links_monotone(lines, i + 1, n);
}

/// The scanner's read state is `Unread` exactly when some `unread` directive
/// stands before line `i` with nothing after it that changes the state.
pub proof fn lemma_mark_characterization(lines: Seq<Seq<char>>, i: int)
    requires
        0 <= i <= lines.len(),
        scan_prefix(lines, i) is Ok,
    ensures
        ctx_at(lines, i).mark == LinkState::Unread <==> exists|j: int| unread_window(lines, j, i),
    decreases i,
{
    if i == 0 {
        assert(ctx_at(lines, 0).mark == LinkState::Read);
        assert(forall|j: int| !unread_window(lines, j, 0));
    } else {
        lemma_scan_prefix_ok(lines, i - 1, i);
        lemma_mark_characterization(lines, i - 1);
        let prev = lines[i - 1];
        if classify(prev) == LineKind::MarkUnread {
            assert(unread_window(lines, i - 1, i));
        } else if classify(prev) == LineKind::MarkRead || classify(prev) == LineKind::Date {
            assert(ctx_at(lines, i).mark == LinkState::Read);
            assert forall|j: int| !unread_window(lines, j, i) by {
                if 0 <= j < i - 1 && classify(lines[j]) == LineKind::MarkUnread {
                    assert(mark_directive(lines[i - 1]));
                }
            }
        } else {
            assert(ctx_at(lines, i).mark == ctx_at(lines, i - 1).mark);
            assert(!mark_directive(lines[i - 1]));
            if exists|j: int| #[trigger] unread_window(lines, j, i - 1) {
                let j = choose|j: int| #[trigger] unread_window(lines, j, i - 1);
                assert(unread_window(lines, j, i));
            }
            if exists|j: int| #[trigger] unread_window(lines, j, i) {
                let j = choose|j: int| #[trigger] unread_window(lines, j, i);
                assert(classify(lines[j]) == LineKind::MarkUnread);
                assert(j != i - 1);
                assert(unread_window(lines, j, i - 1));
            }
        }
    }
}

/// Law: a link appearing after an `unread` directive and before the next
/// `read`, `unread` or date line carries state `Unread`; all others carry
/// `Read`.
pub proof fn lemma_unread_window_law(lines: Seq<Seq<char>>, i: int)
    requires
        scan_lines(lines) is Ok,
        0 <= i < lines.len(),
        is_link_line(lines[i]),
    ensures
        links_at(lines, i).len() < scan_lines(lines)->Ok_0.1.len(),
        (scan_lines(lines)->Ok_0.1[links_at(lines, i).len() as int].state == LinkState::Unread
            <==> exists|j: int| unread_window(lines, j, i)),
        !(exists|j: int| unread_window(lines, j, i)) ==> scan_lines(lines)->Ok_0.1[links_at(
            lines,
            i,
        ).len() as int].state == LinkState::Read,
{
    let n = lines.len() as int;
    lemma_scan_prefix_ok(lines, i + 1, n);
    lemma_scan_prefix_ok(lines, i, i + 1);
    lemma_mark_characterization(lines, i);
    lemma_link_at_line(lines, i);
    lemma_links_monotone(lines, i + 1, n);
}

/// Law: a trailing period on the URL token is stripped, and a token without
/// one passes through unchanged; the URL rule does nothing else to the
/// token before the first space.
pub proof fn lemma_trailing_dot(content: Seq<char>)
    ensures
        ({
            let token = first_token(content);
            &&& token.len() > 0 && token.last() == '.' ==> url_of_line(content)
                == token.drop_last()
            &&& !(token.len() > 0 && token.last() == '.') ==> url_of_line(content) == token
        }),
{
    assert(url_of_line(content) == strip_trailing_dot(first_token(content)));
}

/// Law: a new date line always resets the read state to `Read`, even when
/// the state just before it was `Unread`.
pub proof fn lemma_date_resets(lines: Seq<Seq<char>>, i: int)
    requires
        0 <= i < lines.len(),
        classify(lines[i]) == LineKind::Date,
        scan_prefix(lines, i + 1) is Ok,
    ensures
        ctx_at(lines, i + 1).mark == LinkState::Read,
{
}

} // verus!
