//! One conditional fetch, interpreted: which precondition headers to attach
//! for a feed already stored, and what a response does to the store. A 304
//! or a failure leaves the store untouched; a successful body is parsed and
//! merged, the feed row replaced whole and every entry upserted in document
//! order with read state preserved.

use vstd::prelude::*;

use crate::database::{
    clone_opt_string, clone_string, opt_text_view, upsert_feed_spec, upsert_item_spec, Database,
    DatabaseView, Feed as FeedRow, FeedView, Item as ItemRow, ItemView,
};
use crate::feed::{doc_entries, doc_link, doc_title, entry_views, parsed_doc, EntryView, Feed};

verus! {

/// The per-feed ways one fetch can stop: the server said "not modified" (a
/// distinguishable non-error stop, not a hard failure), an unexpected status
/// arrived, or the body parsed under neither format.
#[derive(Debug)]
pub enum FetchError {
    NotModified,
    UnexpectedStatusCode(u16),
    Parse,
}

/// What one HTTP exchange brought back, reduced to plain values.
pub struct FetchResponse {
    pub status: u16,
    pub etag: Option<String>,
    pub last_modified: Option<String>,
    pub body: String,
}

/// The conditional preconditions to attach to the next request for a feed.
pub struct RequestPlan {
    pub if_none_match: Option<String>,
    pub if_modified_since: Option<String>,
}

/// The fixed request timeout, in seconds.
pub const FETCH_TIMEOUT_SECS: u64 = 30;

/// The fixed identifying client header value.
pub fn user_agent() -> (r: &'static str)
    ensures
        r@ == "squeakmail"@,
{
    "squeakmail"
}

/// A 2xx status.
pub open spec fn is_success(status: u16) -> bool {
    200 <= status < 300
}

/// Each stored validator, when present, becomes the matching precondition
/// header; a feed never seen gets an unconditional request.
pub fn request_plan(prior: Option<&FeedRow>) -> (r: RequestPlan)
    ensures
        (match prior {
            Some(f) => opt_text_view(r.if_none_match) == f@.etag && opt_text_view(
                r.if_modified_since,
            ) == f@.last_modified,
            None => r.if_none_match is None && r.if_modified_since is None,
        }),
{
    match prior {
        Some(f) => RequestPlan {
            if_none_match: clone_opt_string(&f.etag),
            if_modified_since: clone_opt_string(&f.last_modified),
        },
        None => RequestPlan { if_none_match: None, if_modified_since: None },
    }
}

/// The item row one normalized entry of this feed becomes, born unread.
pub open spec fn entry_item_view(url: Seq<char>, e: EntryView) -> ItemView {
    ItemView {
        feed_url: url,
        guid: e.guid,
        title: e.title,
        link: e.link,
        comments_link: e.comments_link,
        pub_date: e.pub_date,
        is_read: false,
    }
}

/// The item rows after upserting this feed's normalized entries one by one,
/// in document order.
pub open spec fn upsert_entries_spec(
    items: Seq<ItemView>,
    url: Seq<char>,
    entries: Seq<EntryView>,
) -> Seq<ItemView>
    decreases entries.len(),
{
    if entries.len() == 0 {
        items
    } else {
        upsert_entries_spec(
            upsert_item_spec(items, entry_item_view(url, entries[0])),
            url,
            entries.drop_first(),
        )
    }
}

/// Upserting one more entry at the end is one more upsert after the rest.
pub proof fn lemma_upsert_entries_push(
    items: Seq<ItemView>,
    url: Seq<char>,
    entries: Seq<EntryView>,
    e: EntryView,
)
    ensures
        upsert_entries_spec(items, url, entries.push(e)) == upsert_item_spec(
            upsert_entries_spec(items, url, entries),
            entry_item_view(url, e),
        ),
    decreases entries.len(),
{
    let pushed = entries.push(e);
    if entries.len() == 0 {
        assert(pushed.len() == 1);
        assert(pushed[0] == e);
        assert(pushed.drop_first() =~= entries);
        assert(upsert_entries_spec(items, url, pushed) == upsert_entries_spec(
            upsert_item_spec(items, entry_item_view(url, e)),
            url,
            pushed.drop_first(),
        ));
        assert(upsert_entries_spec(items, url, entries) == items);
    } else {
        assert(pushed.drop_first() =~= entries.drop_first().push(e));
        assert(pushed[0] == entries[0]);
        assert(upsert_entries_spec(items, url, pushed) == upsert_entries_spec(
            upsert_item_spec(items, entry_item_view(url, entries[0])),
            url,
            entries.drop_first().push(e),
        ));
        lemma_upsert_entries_push(
            upsert_item_spec(items, entry_item_view(url, entries[0])),
            url,
            entries.drop_first(),
            e,
        );
        assert(upsert_entries_spec(items, url, entries) == upsert_entries_spec(
            upsert_item_spec(items, entry_item_view(url, entries[0])),
            url,
            entries.drop_first(),
        ));
    }
}

/// A whole re-fetch never resurrects read items: every item row that existed
/// before the entries of a successful response were merged keeps its read
/// flag through all of them, whatever the response carried.
pub proof fn lemma_sync_preserves_read_state(
    items: Seq<ItemView>,
    url: Seq<char>,
    entries: Seq<EntryView>,
    j: int,
)
    requires
        0 <= j < items.len(),
    ensures
        upsert_entries_spec(items, url, entries).len() >= items.len(),
        upsert_entries_spec(items, url, entries)[j].is_read == items[j].is_read,
    decreases entries.len(),
{
    if entries.len() != 0 {
        let once = upsert_item_spec(items, entry_item_view(url, entries[0]));
        crate::database::lemma_upsert_preserves_read_state(
            items,
            entry_item_view(url, entries[0]),
            j,
        );
        lemma_sync_preserves_read_state(once, url, entries.drop_first(), j);
    }
}

/// The feed row a successful response of this feed produces: parsed link and
/// title, and exactly the validators the response carried; an absent
/// validator clears the stored one.
pub open spec fn fetched_feed_row(
    url: Seq<char>,
    doc: crate::feed::FeedDocView,
    etag: Option<Seq<char>>,
    last_modified: Option<Seq<char>>,
) -> FeedView {
    FeedView {
        url: url,
        link: doc_link(doc),
        title: doc_title(doc),
        etag: etag,
        last_modified: last_modified,
    }
}

/// The whole store after one successful fetch of one feed.
pub open spec fn sync_spec(
    s: DatabaseView,
    url: Seq<char>,
    doc: crate::feed::FeedDocView,
    etag: Option<Seq<char>>,
    last_modified: Option<Seq<char>>,
    now: i64,
) -> DatabaseView {
    DatabaseView {
        feeds: upsert_feed_spec(s.feeds, fetched_feed_row(url, doc, etag, last_modified)),
        items: upsert_entries_spec(s.items, url, doc_entries(doc, now)),
    }
}

/// Interprets one response and applies it to the store: 304 and every
/// failure leave the store exactly as it was; a successful parse replaces
/// the feed row and upserts every entry, preserving read state. `now` is the
/// current UTC instant, the stand-in date for entries without one.
pub fn apply_response(
    db: &mut Database,
    feed_url: &str,
    resp: &FetchResponse,
    now: i64,
) -> (r: Result<(), FetchError>)
    requires
        old(db).wf(),
    ensures
        final(db).wf(),
        resp.status == 304 ==> r == Err::<(), FetchError>(FetchError::NotModified) && final(db)@
            == old(db)@,
        resp.status != 304 && !is_success(resp.status) ==> r == Err::<(), FetchError>(
            FetchError::UnexpectedStatusCode(resp.status),
        ) && final(db)@ == old(db)@,
        (match parsed_doc(resp.body@) {
            None => is_success(resp.status) ==> r == Err::<(), FetchError>(FetchError::Parse)
                && final(db)@ == old(db)@,
            Some(doc) => is_success(resp.status) ==> r == Ok::<(), FetchError>(()) && final(db)@
                == sync_spec(
                old(db)@,
                feed_url@,
                doc,
                opt_text_view(resp.etag),
                opt_text_view(resp.last_modified),
                now,
            ),
        }),
{
    if resp.status == 304 {
        return Err(FetchError::NotModified);
    }
    if !(200 <= resp.status && resp.status < 300) {
        return Err(FetchError::UnexpectedStatusCode(resp.status));
    }
    let doc = match Feed::read_from(resp.body.as_str()) {
        Ok(d) => d,
        Err(_) => {
            return Err(FetchError::Parse);
        },
    };
    let row = FeedRow {
        url: feed_url.to_owned(),
        link: doc.link(),
        title: doc.title(),
        etag: clone_opt_string(&resp.etag),
        last_modified: clone_opt_string(&resp.last_modified),
    };
    proof {
        assert(row@ == fetched_feed_row(
            feed_url@,
            doc@,
            opt_text_view(resp.etag),
            opt_text_view(resp.last_modified),
        ));
    }
    db.insert_update_feed(&row);
    let entries = doc.items(now);
    let ghost docv = doc@;
    let ghost evs = doc_entries(docv, now);
    let mut i: usize = 0;
    while i < entries.len()
        invariant
            db.wf(),
            entry_views(entries@) == evs,
            i <= entries.len(),
            db@.feeds == upsert_feed_spec(
                old(db)@.feeds,
                fetched_feed_row(
                    feed_url@,
                    docv,
                    opt_text_view(resp.etag),
                    opt_text_view(resp.last_modified),
                ),
            ),
            db@.items == upsert_entries_spec(old(db)@.items, feed_url@, evs.take(i as int)),
        decreases entries.len() - i,
    {
        let e = &entries[i];
        let item = ItemRow {
            feed_url: feed_url.to_owned(),
            guid: clone_string(&e.guid),
            title: clone_string(&e.title),
            link: clone_string(&e.link),
            comments_link: clone_opt_string(&e.comments_link),
            pub_date: e.pub_date,
            is_read: false,
        };
        proof {
            crate::feed::lemma_entry_views_index(entries@, i as int);
            assert(item@ == entry_item_view(feed_url@, evs[i as int]));
        }
        db.insert_update_item(&item);
        proof {
            lemma_upsert_entries_push(
                old(db)@.items,
                feed_url@,
                evs.take(i as int),
                evs[i as int],
            );
            assert(evs.take(i as int).push(evs[i as int]) =~= evs.take(i as int + 1));
        }
        i += 1;
    }
    proof {
        assert(evs.take(evs.len() as int) =~= evs);
        assert(entry_views(entries@).len() == entries@.len());
    }
    Ok(())
}

} // verus!
