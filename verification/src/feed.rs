//! The feed builder's selection: which links the feed carries and in what
//! order, and what each entry holds. Serializing the result is the caller's
//! business; what the feed contains is decided and verified here.

use vstd::prelude::*;

use crate::parser::{opt_view, views_of_links, Link, LinkState, LinkView};

verus! {

/// One feed entry: the enriched title (absent is a valid field, not an
/// error), the link's URL, and its date in RFC 2822 form.
#[derive(Debug)]
pub struct FeedEntry {
    pub title: Option<String>,
    pub url: String,
    pub date: String,
}

/// The mathematical image of a [`FeedEntry`].
pub struct FeedEntryView {
    pub title: Option<Seq<char>>,
    pub url: Seq<char>,
    pub date: Seq<char>,
}

impl View for FeedEntry {
    type V = FeedEntryView;

    open spec fn view(&self) -> FeedEntryView {
        FeedEntryView { title: opt_view(self.title), url: self.url@, date: self.date@ }
    }
}

/// The feed's own constant title, naming it as a locally derived channel.
pub open spec fn spec_feed_title() -> Seq<char> {
    "local channel"@
}

pub fn feed_title() -> (r: String)
    ensures
        r@ == spec_feed_title(),
{
    "local channel".to_owned()
}

pub open spec fn is_unread(l: LinkView) -> bool {
    l.state == LinkState::Unread
}

/// The unread links among `s`, in the order they stand in `s`.
pub open spec fn unread_of(s: Seq<LinkView>) -> Seq<LinkView>
    decreases s.len(),
{
    if s.len() == 0 {
        Seq::empty()
    } else if is_unread(s[0]) {
        seq![s[0]] + unread_of(s.drop_first())
    } else {
        unread_of(s.drop_first())
    }
}

/// Law: the feed's selection is exactly a filter of the links on the unread
/// state — every unread link kept, every read one dropped, encounter order
/// preserved.
pub proof fn lemma_unread_of_is_filter(s: Seq<LinkView>)
    ensures
        unread_of(s) == s.filter(|l: LinkView| is_unread(l)),
    decreases s.len(),
{
    reveal(Seq::filter);
    if s.len() == 0 {
        assert(unread_of(s) =~= s.filter(|l: LinkView| is_unread(l)));
    } else {
        lemma_unread_of_is_filter(s.drop_first());
        Seq::filter_distributes_over_add(seq![s[0]], s.drop_first(), |l: LinkView| is_unread(l));
        assert(seq![s[0]] + s.drop_first() =~= s);
        assert(seq![s[0]].drop_last() =~= Seq::<LinkView>::empty());
        assert(Seq::<LinkView>::empty().filter(|l: LinkView| is_unread(l))
            =~= Seq::<LinkView>::empty());
        assert(seq![s[0]].last() == s[0]);
        if is_unread(s[0]) {
            assert(seq![s[0]].filter(|l: LinkView| is_unread(l)) =~= seq![s[0]]);
            assert(unread_of(s) =~= seq![s[0]] + unread_of(s.drop_first()));
        } else {
            assert(seq![s[0]].filter(|l: LinkView| is_unread(l)) =~= Seq::<LinkView>::empty());
            assert(unread_of(s) =~= unread_of(s.drop_first()));
        }
    }
}

/// Law: no link with state `Read` appears in the feed's selection.
pub proof fn lemma_only_unread_selected(s: Seq<LinkView>, i: int)
    requires
        0 <= i < unread_of(s).len(),
    ensures
        is_unread(unread_of(s)[i]),
{
    lemma_unread_of_is_filter(s);
    s.lemma_filter_pred(|l: LinkView| is_unread(l), i);
}

/// Law: every link with state `Unread` appears in the feed's selection.
pub proof fn lemma_every_unread_selected(s: Seq<LinkView>, i: int)
    requires
        0 <= i < s.len(),
        is_unread(s[i]),
    ensures
        unread_of(s).contains(s[i]),
{
    lemma_unread_of_is_filter(s);
    s.lemma_filter_contains(|l: LinkView| is_unread(l), i);
}

/// Keeps exactly the links with state `Unread`, in encounter order.
pub fn unread_links(links: Vec<Link>) -> (r: Vec<Link>)
    ensures
        views_of_links(r@) == unread_of(views_of_links(links@)),
{
    let ghost all = views_of_links(links@);
    let mut rest = links;
    let mut out: Vec<Link> = Vec::new();
    proof {
        assert(views_of_links(out@) =~= Seq::<LinkView>::empty());
        assert(views_of_links(rest@) =~= all);
        assert(unread_of(all) =~= views_of_links(out@) + unread_of(views_of_links(rest@)));
    }
    while rest.len() > 0
        invariant
            unread_of(all) =~= views_of_links(out@) + unread_of(views_of_links(rest@)),
        decreases rest.len(),
    {
        let ghost rest_views = views_of_links(rest@);
        let link = rest.remove(0);
        proof {
            assert(views_of_links(rest@) =~= rest_views.drop_first());
            assert(rest_views[0] == link@);
        }
        let keep = match link.state {
            LinkState::Unread => true,
            LinkState::Read => false,
        };
        if keep {
            let ghost out_views = views_of_links(out@);
            out.push(link);
            proof {
                assert(views_of_links(out@) =~= out_views.push(link@));
                assert(unread_of(rest_views) =~= seq![rest_views[0]] + unread_of(
                    rest_views.drop_first(),
                ));
                assert(unread_of(all) =~= views_of_links(out@) + unread_of(
                    views_of_links(rest@),
                ));
            }
        } else {
            proof {
                assert(unread_of(rest_views) =~= unread_of(rest_views.drop_first()));
            }
        }
    }
    proof {
        assert(views_of_links(rest@) =~= Seq::<LinkView>::empty());
        assert(unread_of(views_of_links(rest@)) =~= Seq::<LinkView>::empty());
        assert(views_of_links(out@) =~= unread_of(all));
    }
    out
}

/// Builds one feed entry from a link and its enriched title: the entry's
/// link field is the URL, its date field the link's date, its title the
/// enricher's result.
pub fn make_entry(link: Link, title: Option<String>) -> (e: FeedEntry)
    ensures
        e@.url == link@.url,
        e@.date == link@.date,
        e@.title == opt_view(title),
{
    FeedEntry { title, url: link.url, date: link.date }
}

/// Builds the feed's entries: one per link, in the links' own order, each
/// holding its link's URL and date and the title enriched for it.
pub fn build_entries(links: Vec<Link>, titles: Vec<Option<String>>) -> (r: Vec<FeedEntry>)
    requires
        links@.len() == titles@.len(),
    ensures
        r@.len() == links@.len(),
        forall|i: int|
            0 <= i < r@.len() ==> (#[trigger] r@[i]@).url == links@[i]@.url && r@[i]@.date
                == links@[i]@.date && r@[i]@.title == opt_view(titles@[i]),
{
    let ghost all_links = links@;
    let ghost all_titles = titles@;
    let mut rest_links = links;
    let mut rest_titles = titles;
    let mut entries: Vec<FeedEntry> = Vec::new();
    proof {
        assert(rest_links@ =~= all_links.skip(0));
        assert(rest_titles@ =~= all_titles.skip(0));
    }
    while rest_links.len() > 0
        invariant
            entries@.len() + rest_links@.len() == all_links.len(),
            rest_links@ =~= all_links.skip(entries@.len() as int),
            rest_titles@ =~= all_titles.skip(entries@.len() as int),
            all_links.len() == all_titles.len(),
            forall|i: int|
                0 <= i < entries@.len() ==> (#[trigger] entries@[i]@).url == all_links[i]@.url
                    && entries@[i]@.date == all_links[i]@.date && entries@[i]@.title == opt_view(
                    all_titles[i],
                ),
        decreases rest_links@.len(),
    {
        let ghost done = entries@.len() as int;
        let link = rest_links.remove(0);
        let title = rest_titles.remove(0);
        proof {
            assert(link == all_links[done]);
            assert(title == all_titles[done]);
        }
        let entry = make_entry(link, title);
        entries.push(entry);
        proof {
            assert(rest_links@ =~= all_links.skip(entries@.len() as int));
            assert(rest_titles@ =~= all_titles.skip(entries@.len() as int));
        }
    }
    entries
}

} // verus!
