//! Assembling the digest: for each configured feed, in configuration order,
//! the stored feed row and its unread backlog. Assembly only reads the
//! store; clearing the backlog is a separate, explicit step that a dry run
//! never takes.

use vstd::prelude::*;

use crate::database::{
    clone_feed, feed_by_url, has_feed, sorted_by_date, unread_pred, Database, Feed as FeedRow,
    FeedView, Item as ItemRow, item_views, ItemView,
};

verus! {

/// One digest section: a feed and its unread items, oldest first.
pub struct FeedWithItems {
    pub feed: FeedRow,
    pub items: Vec<ItemRow>,
}

pub ghost struct FeedWithItemsView {
    pub feed: FeedView,
    pub items: Seq<ItemView>,
}

impl View for FeedWithItems {
    type V = FeedWithItemsView;

    open spec fn view(&self) -> FeedWithItemsView {
        FeedWithItemsView { feed: self.feed@, items: item_views(self.items@) }
    }
}

pub open spec fn section_views(s: Seq<FeedWithItems>) -> Seq<FeedWithItemsView> {
    s.map_values(|x: FeedWithItems| x@)
}

/// The urls of a digest's sections, in order.
pub open spec fn section_urls(s: Seq<FeedWithItemsView>) -> Seq<Seq<char>> {
    s.map_values(|x: FeedWithItemsView| x.feed.url)
}

pub open spec fn str_views(s: Seq<String>) -> Seq<Seq<char>> {
    s.map_values(|x: String| x@)
}

/// Whether a url has a stored feed row.
pub open spec fn present_pred(feeds: Seq<FeedView>) -> spec_fn(Seq<char>) -> bool {
    |u: Seq<char>| has_feed(feeds, u)
}

/// Reads the digest out of the store: one section per configured url that
/// has a stored feed row, in configuration order; urls never fetched are
/// skipped. Each section holds the stored feed row and exactly that feed's
/// unread items, ordered by publication date ascending. Assembly never
/// mutates the store: a dry run that stops here leaves the unread backlog
/// exactly as it was.
pub fn assemble_digest(db: &Database, feed_urls: &Vec<String>) -> (r: Vec<FeedWithItems>)
    requires
        db.wf(),
    ensures
        section_urls(section_views(r@)) == str_views(feed_urls@).filter(
            present_pred(db@.feeds),
        ),
        forall|k: int|
            0 <= k < r@.len() ==> {
                let sec = #[trigger] section_views(r@)[k];
                &&& has_feed(db@.feeds, sec.feed.url)
                &&& sec.feed == feed_by_url(db@.feeds, sec.feed.url)
                &&& sorted_by_date(sec.items)
                &&& sec.items.to_multiset() == db@.items.filter(
                    unread_pred(sec.feed.url),
                ).to_multiset()
            },
{
    let ghost urls = str_views(feed_urls@);
    let ghost pred = present_pred(db@.feeds);
    let mut out: Vec<FeedWithItems> = Vec::new();
    let mut i: usize = 0;
    proof {
        broadcast use vstd::seq_lib::group_filter_ensures;

        assert(urls.take(0).filter(pred) =~= Seq::<Seq<char>>::empty());
        assert(section_urls(section_views(out@)) =~= Seq::<Seq<char>>::empty());
    }
    while i < feed_urls.len()
        invariant
            db.wf(),
            urls == str_views(feed_urls@),
            pred == present_pred(db@.feeds),
            i <= feed_urls.len(),
            section_urls(section_views(out@)) == urls.take(i as int).filter(pred),
            forall|k: int|
                0 <= k < out@.len() ==> {
                    let sec = #[trigger] section_views(out@)[k];
                    &&& has_feed(db@.feeds, sec.feed.url)
                    &&& sec.feed == feed_by_url(db@.feeds, sec.feed.url)
                    &&& sorted_by_date(sec.items)
                    &&& sec.items.to_multiset() == db@.items.filter(
                        unread_pred(sec.feed.url),
                    ).to_multiset()
                },
        decreases feed_urls.len() - i,
    {
        let ghost cur = urls[i as int];
        proof {
            assert(urls[i as int] == feed_urls@[i as int]@);
            assert(urls.take(i as int + 1) =~= urls.take(i as int).push(cur));
            urls.take(i as int).lemma_filter_push(cur, pred);
        }
        let url = &feed_urls[i];
        match db.get_feed_by_url(url.as_str()) {
            Some(f) => {
                let items = db.get_unread_items(url.as_str());
                let ghost pre_out = out@;
                let section = FeedWithItems { feed: clone_feed(f), items };
                let ghost secv = section@;
                out.push(section);
                proof {
                    assert(pred(cur));
                    assert(secv.feed.url == cur);
                    assert forall|k: int| 0 <= k < out@.len() implies #[trigger] section_views(
                        out@,
                    )[k] == section_views(pre_out).push(secv)[k] by {}
                    assert(section_views(out@) =~= section_views(pre_out).push(secv));
                    assert forall|k: int| 0 <= k < out@.len() implies section_urls(
                        section_views(out@),
                    )[k] == urls.take(i as int + 1).filter(pred)[k] by {}
                    assert(section_urls(section_views(out@)) =~= urls.take(i as int + 1).filter(
                        pred,
                    ));
                }
            },
            None => {
                proof {
                    assert(!pred(cur));
                    assert(urls.take(i as int + 1).filter(pred) == urls.take(i as int).filter(
                        pred,
                    ));
                }
            },
        }
        i += 1;
    }
    proof {
        assert(urls.take(urls.len() as int) =~= urls);
    }
    out
}

} // verus!
