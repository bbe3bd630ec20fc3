//! The persistence store: feeds and items, with a schema-version gate and
//! upsert semantics that preserve each item's read flag.
//!
//! The store keeps one row per subscribed feed, keyed by its url, and one row
//! per seen item, keyed by `(feed_url, guid)`. Re-upserting an existing item
//! overwrites its link, title and publication date but never its read flag:
//! that flag changes only through [`Database::mark_all_items_read`].

use vstd::prelude::*;

verus! {

/// The reason an [`Database::open`] can fail: the persisted schema version is
/// neither 0 (uninitialized) nor 1 (current).
#[derive(Debug)]
pub enum Error {
    UnknownVersion(u32),
}

/// A stored feed row.
pub struct Feed {
    pub url: String,
    pub link: String,
    pub title: String,
    pub etag: Option<String>,
    pub last_modified: Option<String>,
}

/// A stored item row. `pub_date` is a UTC instant in seconds since the epoch.
pub struct Item {
    pub feed_url: String,
    pub guid: String,
    pub title: String,
    pub link: String,
    pub comments_link: Option<String>,
    pub pub_date: i64,
    pub is_read: bool,
}

/// The mathematical value of a [`Feed`] row.
pub ghost struct FeedView {
    pub url: Seq<char>,
    pub link: Seq<char>,
    pub title: Seq<char>,
    pub etag: Option<Seq<char>>,
    pub last_modified: Option<Seq<char>>,
}

/// The mathematical value of an [`Item`] row.
pub ghost struct ItemView {
    pub feed_url: Seq<char>,
    pub guid: Seq<char>,
    pub title: Seq<char>,
    pub link: Seq<char>,
    pub comments_link: Option<Seq<char>>,
    pub pub_date: i64,
    pub is_read: bool,
}

/// The mathematical value of the whole store: the feed rows and the item
/// rows, each in insertion order.
pub ghost struct DatabaseView {
    pub feeds: Seq<FeedView>,
    pub items: Seq<ItemView>,
}

pub open spec fn opt_text_view(o: Option<String>) -> Option<Seq<char>> {
    match o {
        Some(s) => Some(s@),
        None => None,
    }
}

impl View for Feed {
    type V = FeedView;

    open spec fn view(&self) -> FeedView {
        FeedView {
            url: self.url@,
            link: self.link@,
            title: self.title@,
            etag: opt_text_view(self.etag),
            last_modified: opt_text_view(self.last_modified),
        }
    }
}

impl View for Item {
    type V = ItemView;

    open spec fn view(&self) -> ItemView {
        ItemView {
            feed_url: self.feed_url@,
            guid: self.guid@,
            title: self.title@,
            link: self.link@,
            comments_link: opt_text_view(self.comments_link),
            pub_date: self.pub_date,
            is_read: self.is_read,
        }
    }
}

pub open spec fn feed_views(s: Seq<Feed>) -> Seq<FeedView> {
    s.map_values(|f: Feed| f@)
}

pub open spec fn item_views(s: Seq<Item>) -> Seq<ItemView> {
    s.map_values(|it: Item| it@)
}

/// No two feed rows share a url.
pub open spec fn feeds_wf(feeds: Seq<FeedView>) -> bool {
    forall|i: int, j: int|
        0 <= i < j < feeds.len() ==> (#[trigger] feeds[i]).url != (#[trigger] feeds[j]).url
}

/// No two item rows share a `(feed_url, guid)` key.
pub open spec fn items_wf(items: Seq<ItemView>) -> bool {
    forall|i: int, j: int|
        0 <= i < j < items.len() ==> !((#[trigger] items[i]).feed_url == (
        #[trigger] items[j]).feed_url && items[i].guid == items[j].guid)
}

/// Some feed row carries this url.
pub open spec fn has_feed(feeds: Seq<FeedView>, url: Seq<char>) -> bool {
    exists|j: int| 0 <= j < feeds.len() && (#[trigger] feeds[j]).url == url
}

/// The feed row carrying this url (meaningful when `has_feed` holds and the
/// urls are unique).
pub open spec fn feed_by_url(feeds: Seq<FeedView>, url: Seq<char>) -> FeedView {
    feeds[choose|j: int| 0 <= j < feeds.len() && (#[trigger] feeds[j]).url == url]
}

/// Some item row carries this `(feed_url, guid)` key.
pub open spec fn has_item(items: Seq<ItemView>, feed_url: Seq<char>, guid: Seq<char>) -> bool {
    exists|j: int|
        0 <= j < items.len() && (#[trigger] items[j]).feed_url == feed_url && items[j].guid == guid
}

/// The item row carrying this key (meaningful when `has_item` holds and the
/// keys are unique).
pub open spec fn item_by_key(items: Seq<ItemView>, feed_url: Seq<char>, guid: Seq<char>) -> ItemView {
    items[choose|j: int|
        0 <= j < items.len() && (#[trigger] items[j]).feed_url == feed_url && items[j].guid
            == guid]
}

/// Full-row replace keyed by url: the existing row with this url is
/// overwritten whole, or a new row is appended.
pub open spec fn upsert_feed_spec(feeds: Seq<FeedView>, f: FeedView) -> Seq<FeedView> {
    if has_feed(feeds, f.url) {
        feeds.map_values(|g: FeedView| if g.url == f.url { f } else { g })
    } else {
        feeds.push(f)
    }
}

/// The row an existing item becomes when the same key is upserted again:
/// link, title and publication date come from the new sighting; the key, the
/// comments link and the read flag stay.
pub open spec fn merge_item(existing: ItemView, it: ItemView) -> ItemView {
    ItemView {
        feed_url: existing.feed_url,
        guid: existing.guid,
        title: it.title,
        link: it.link,
        comments_link: existing.comments_link,
        pub_date: it.pub_date,
        is_read: existing.is_read,
    }
}

/// The row a first sighting inserts: as given, but never marked read.
pub open spec fn fresh_item(it: ItemView) -> ItemView {
    ItemView {
        feed_url: it.feed_url,
        guid: it.guid,
        title: it.title,
        link: it.link,
        comments_link: it.comments_link,
        pub_date: it.pub_date,
        is_read: false,
    }
}

/// Insert-or-update keyed by `(feed_url, guid)`: a new key appends an unread
/// row; an existing key is merged by [`merge_item`], read flag untouched.
pub open spec fn upsert_item_spec(items: Seq<ItemView>, it: ItemView) -> Seq<ItemView> {
    if has_item(items, it.feed_url, it.guid) {
        items.map_values(
            |ex: ItemView|
                if ex.feed_url == it.feed_url && ex.guid == it.guid {
                    merge_item(ex, it)
                } else {
                    ex
                },
        )
    } else {
        items.push(fresh_item(it))
    }
}

/// Every item row marked read; nothing else changes.
pub open spec fn mark_all_spec(items: Seq<ItemView>) -> Seq<ItemView> {
    items.map_values(
        |it: ItemView|
            ItemView {
                feed_url: it.feed_url,
                guid: it.guid,
                title: it.title,
                link: it.link,
                comments_link: it.comments_link,
                pub_date: it.pub_date,
                is_read: true,
            },
    )
}

/// The unread items of one feed, in store order.
pub open spec fn unread_pred(url: Seq<char>) -> spec_fn(ItemView) -> bool {
    |it: ItemView| it.feed_url == url && !it.is_read
}

/// Ascending by publication date.
pub open spec fn sorted_by_date(items: Seq<ItemView>) -> bool {
    forall|i: int, j: int|
        0 <= i < j < items.len() ==> (#[trigger] items[i]).pub_date <= (
        #[trigger] items[j]).pub_date
}

/// Re-fetching never resurrects a read item: an upsert, whatever sighting it
/// carries, leaves the read flag of every row that was already stored exactly
/// as it was. In particular a row once marked read stays read.
pub proof fn lemma_upsert_preserves_read_state(items: Seq<ItemView>, it: ItemView, j: int)
    requires
        0 <= j < items.len(),
    ensures
        upsert_item_spec(items, it).len() >= items.len(),
        upsert_item_spec(items, it)[j].is_read == items[j].is_read,
{
}

/// Upserting a sighting of an existing `(feed_url, guid)` key overwrites that
/// row's link, title and publication date with the new values, keeps its
/// comments link and its read flag, and touches no other row.
pub proof fn lemma_upsert_existing(items: Seq<ItemView>, it: ItemView, j: int)
    requires
        items_wf(items),
        0 <= j < items.len(),
        items[j].feed_url == it.feed_url,
        items[j].guid == it.guid,
    ensures
        upsert_item_spec(items, it).len() == items.len(),
        upsert_item_spec(items, it)[j] == merge_item(items[j], it),
        upsert_item_spec(items, it)[j].is_read == items[j].is_read,
        upsert_item_spec(items, it)[j].title == it.title,
        upsert_item_spec(items, it)[j].link == it.link,
        upsert_item_spec(items, it)[j].pub_date == it.pub_date,
        forall|k: int|
            0 <= k < items.len() && k != j ==> #[trigger] upsert_item_spec(items, it)[k]
                == items[k],
{
    assert(has_item(items, it.feed_url, it.guid));
    assert forall|k: int|
        0 <= k < items.len() && k != j implies #[trigger] upsert_item_spec(items, it)[k]
        == items[k] by {
        if k < j {
            assert(!(items[k].feed_url == items[j].feed_url && items[k].guid == items[j].guid));
        } else {
            assert(!(items[j].feed_url == items[k].feed_url && items[j].guid == items[k].guid));
        }
    }
}

/// Upserting a sighting of a key the store has never seen appends one row,
/// born unread, and touches no other row.
pub proof fn lemma_upsert_new(items: Seq<ItemView>, it: ItemView)
    requires
        !has_item(items, it.feed_url, it.guid),
    ensures
        upsert_item_spec(items, it) == items.push(fresh_item(it)),
        upsert_item_spec(items, it).last().is_read == false,
{
}

/// The store: feed rows and item rows with unique keys.
pub struct Database {
    feeds: Vec<Feed>,
    items: Vec<Item>,
}

impl View for Database {
    type V = DatabaseView;

    closed spec fn view(&self) -> DatabaseView {
        DatabaseView { feeds: feed_views(self.feeds@), items: item_views(self.items@) }
    }
}

pub proof fn lemma_feed_views_index(s: Seq<Feed>, i: int)
    requires
        0 <= i < s.len(),
    ensures
        feed_views(s)[i] == s[i]@,
{
}

pub proof fn lemma_item_views_index(s: Seq<Item>, i: int)
    requires
        0 <= i < s.len(),
    ensures
        item_views(s)[i] == s[i]@,
{
}

pub(crate) fn clone_string(s: &String) -> (r: String)
    ensures
        r@ == s@,
{
    s.clone()
}

pub(crate) fn clone_opt_string(o: &Option<String>) -> (r: Option<String>)
    ensures
        opt_text_view(r) == opt_text_view(*o),
{
    match o {
        Some(s) => Some(clone_string(s)),
        None => None,
    }
}

pub(crate) fn clone_feed(f: &Feed) -> (r: Feed)
    ensures
        r@ == f@,
{
    Feed {
        url: clone_string(&f.url),
        link: clone_string(&f.link),
        title: clone_string(&f.title),
        etag: clone_opt_string(&f.etag),
        last_modified: clone_opt_string(&f.last_modified),
    }
}

fn clone_item(it: &Item) -> (r: Item)
    ensures
        r@ == it@,
{
    Item {
        feed_url: clone_string(&it.feed_url),
        guid: clone_string(&it.guid),
        title: clone_string(&it.title),
        link: clone_string(&it.link),
        comments_link: clone_opt_string(&it.comments_link),
        pub_date: it.pub_date,
        is_read: it.is_read,
    }
}

impl Database {
    /// The keys of the store are unique: its central well-formedness.
    pub open spec fn wf(&self) -> bool {
        feeds_wf(self@.feeds) && items_wf(self@.items)
    }

    /// Runs the schema-version gate: version 0 means uninitialized (the
    /// caller applies the one-shot schema), version 1 means current; any
    /// other value is refused before anything else happens.
    pub fn open(version: u32) -> (r: Result<Database, Error>)
        ensures
            version == 0 || version == 1 ==> (r matches Ok(db) && db.wf() && db@.feeds.len() == 0
                && db@.items.len() == 0),
            !(version == 0 || version == 1) ==> r == Err::<Database, Error>(
                Error::UnknownVersion(version),
            ),
    {
        match version {
            0 | 1 => {
                let db = Database { feeds: Vec::new(), items: Vec::new() };
                proof {
                    assert(db@.feeds =~= Seq::<FeedView>::empty());
                    assert(db@.items =~= Seq::<ItemView>::empty());
                }
                Ok(db)
            },
            v => Err(Error::UnknownVersion(v)),
        }
    }

    /// Full-row replace keyed by url; item rows are untouched.
    pub fn insert_update_feed(&mut self, feed: &Feed)
        requires
            old(self).wf(),
        ensures
            final(self).wf(),
            final(self)@.feeds == upsert_feed_spec(old(self)@.feeds, feed@),
            final(self)@.items == old(self)@.items,
    {
        let ghost orig = self@.feeds;
        let mut i: usize = 0;
        while i < self.feeds.len()
            invariant
                old(self).wf(),
                *self == *old(self),
                i <= self.feeds.len(),
                orig == self@.feeds,
                forall|j: int| 0 <= j < i ==> (#[trigger] orig[j]).url != feed@.url,
            decreases self.feeds.len() - i,
        {
            if self.feeds[i].url == feed.url {
                let ghost pre_elems = self.feeds@;
                proof {
                    lemma_feed_views_index(pre_elems, i as int);
                    assert(orig[i as int].url == feed@.url);
                }
                self.feeds.set(i, clone_feed(feed));
                proof {
                    assert(has_feed(orig, feed@.url));
                    let mapped = orig.map_values(
                        |g: FeedView| if g.url == feed@.url { feed@ } else { g },
                    );
                    assert forall|k: int| 0 <= k < orig.len() implies self@.feeds[k] == mapped[k] by {
                        lemma_feed_views_index(self.feeds@, k);
                        lemma_feed_views_index(pre_elems, k);
                        if k != i {
                            assert(orig[k].url != orig[i as int].url);
                        }
                    }
                    assert(self@.feeds =~= mapped);
                    assert(self@.items =~= old(self)@.items);
                    assert(feeds_wf(self@.feeds)) by {
                        assert forall|a: int, b: int| 0 <= a < b < self@.feeds.len() implies (
                        #[trigger] self@.feeds[a]).url != (#[trigger] self@.feeds[b]).url by {
                            assert(orig[a].url != orig[b].url);
                        }
                    }
                }
                return ;
            }
            proof {
                lemma_feed_views_index(self.feeds@, i as int);
            }
            i += 1;
        }
        let ghost pre_elems = self.feeds@;
        self.feeds.push(clone_feed(feed));
        proof {
            assert(!has_feed(orig, feed@.url));
            assert forall|k: int| 0 <= k < self.feeds@.len() implies self@.feeds[k] == orig.push(
                feed@,
            )[k] by {
                lemma_feed_views_index(self.feeds@, k);
                if k < orig.len() {
                    lemma_feed_views_index(pre_elems, k);
                }
            }
            assert(self@.feeds =~= orig.push(feed@));
            assert(self@.items =~= old(self)@.items);
            assert(feeds_wf(self@.feeds)) by {
                assert forall|a: int, b: int| 0 <= a < b < self@.feeds.len() implies (
                #[trigger] self@.feeds[a]).url != (#[trigger] self@.feeds[b]).url by {
                    if b < orig.len() {
                        assert(orig[a].url != orig[b].url);
                    } else {
                        assert(orig[a].url != feed@.url);
                    }
                }
            }
        }
    }

    /// Point lookup by url; absence is not an error.
    pub fn get_feed_by_url(&self, url: &str) -> (r: Option<&Feed>)
        requires
            self.wf(),
        ensures
            (match r {
                Some(f) => has_feed(self@.feeds, url@) && f@ == feed_by_url(self@.feeds, url@),
                None => !has_feed(self@.feeds, url@),
            }),
    {
        let key: String = url.to_owned();
        let mut i: usize = 0;
        while i < self.feeds.len()
            invariant
                self.wf(),
                key@ == url@,
                i <= self.feeds.len(),
                forall|j: int| 0 <= j < i ==> (#[trigger] self@.feeds[j]).url != url@,
            decreases self.feeds.len() - i,
        {
            if self.feeds[i].url == key {
                proof {
                    lemma_feed_views_index(self.feeds@, i as int);
                    assert((#[trigger] self@.feeds[i as int]).url == url@);
                    assert(has_feed(self@.feeds, url@));
                    let j = choose|j: int|
                        0 <= j < self@.feeds.len() && (#[trigger] self@.feeds[j]).url == url@;
                    assert(j == i) by {
                        if j < i {
                            assert(self@.feeds[j].url != self@.feeds[i as int].url);
                        } else if j > i {
                            assert(self@.feeds[i as int].url != self@.feeds[j].url);
                        }
                    }
                }
                return Some(&self.feeds[i]);
            }
            proof {
                lemma_feed_views_index(self.feeds@, i as int);
            }
            i += 1;
        }
        None
    }

    /// Insert a new row unread, or merge into the existing row of the same
    /// `(feed_url, guid)` key: link, title and publication date are
    /// overwritten, the read flag is never touched here.
    pub fn insert_update_item(&mut self, item: &Item)
        requires
            old(self).wf(),
        ensures
            final(self).wf(),
            final(self)@.items == upsert_item_spec(old(self)@.items, item@),
            final(self)@.feeds == old(self)@.feeds,
    {
        let ghost orig = self@.items;
        let mut i: usize = 0;
        while i < self.items.len()
            invariant
                old(self).wf(),
                *self == *old(self),
                i <= self.items.len(),
                orig == self@.items,
                forall|j: int|
                    0 <= j < i ==> !((#[trigger] orig[j]).feed_url == item@.feed_url && orig[j].guid
                        == item@.guid),
            decreases self.items.len() - i,
        {
            if self.items[i].feed_url == item.feed_url && self.items[i].guid == item.guid {
                let ghost pre_elems = self.items@;
                proof {
                    lemma_item_views_index(pre_elems, i as int);
                    assert(orig[i as int].feed_url == item@.feed_url && orig[i as int].guid
                        == item@.guid);
                }
                let merged = Item {
                    feed_url: clone_string(&self.items[i].feed_url),
                    guid: clone_string(&self.items[i].guid),
                    title: clone_string(&item.title),
                    link: clone_string(&item.link),
                    comments_link: clone_opt_string(&self.items[i].comments_link),
                    pub_date: item.pub_date,
                    is_read: self.items[i].is_read,
                };
                proof {
                    assert(merged@ == merge_item(orig[i as int], item@));
                }
                self.items.set(i, merged);
                proof {
                    assert(has_item(orig, item@.feed_url, item@.guid));
                    let mapped = orig.map_values(
                        |ex: ItemView|
                            if ex.feed_url == item@.feed_url && ex.guid == item@.guid {
                                merge_item(ex, item@)
                            } else {
                                ex
                            },
                    );
                    assert forall|k: int| 0 <= k < orig.len() implies self@.items[k] == mapped[k] by {
                        lemma_item_views_index(self.items@, k);
                        lemma_item_views_index(pre_elems, k);
                        if k != i {
                            assert(!(orig[k].feed_url == orig[i as int].feed_url && orig[k].guid
                                == orig[i as int].guid));
                        }
                    }
                    assert(self@.items =~= mapped);
                    assert(self@.feeds =~= old(self)@.feeds);
                    assert(items_wf(self@.items)) by {
                        assert forall|a: int, b: int| 0 <= a < b < self@.items.len() implies !((
                        #[trigger] self@.items[a]).feed_url == (#[trigger] self@.items[b]).feed_url
                            && self@.items[a].guid == self@.items[b].guid) by {
                            assert(!(orig[a].feed_url == orig[b].feed_url && orig[a].guid
                                == orig[b].guid));
                        }
                    }
                }
                return ;
            }
            proof {
                lemma_item_views_index(self.items@, i as int);
            }
            i += 1;
        }
        let fresh = Item {
            feed_url: clone_string(&item.feed_url),
            guid: clone_string(&item.guid),
            title: clone_string(&item.title),
            link: clone_string(&item.link),
            comments_link: clone_opt_string(&item.comments_link),
            pub_date: item.pub_date,
            is_read: false,
        };
        proof {
            assert(fresh@ == fresh_item(item@));
        }
        let ghost pre_elems = self.items@;
        self.items.push(fresh);
        proof {
            assert(!has_item(orig, item@.feed_url, item@.guid));
            assert forall|k: int| 0 <= k < self.items@.len() implies self@.items[k] == orig.push(
                fresh_item(item@),
            )[k] by {
                lemma_item_views_index(self.items@, k);
                if k < orig.len() {
                    lemma_item_views_index(pre_elems, k);
                }
            }
            assert(self@.items =~= orig.push(fresh_item(item@)));
            assert(self@.feeds =~= old(self)@.feeds);
            assert(items_wf(self@.items)) by {
                assert forall|a: int, b: int| 0 <= a < b < self@.items.len() implies !((
                #[trigger] self@.items[a]).feed_url == (#[trigger] self@.items[b]).feed_url
                    && self@.items[a].guid == self@.items[b].guid) by {
                    if b < orig.len() {
                        assert(!(orig[a].feed_url == orig[b].feed_url && orig[a].guid
                            == orig[b].guid));
                    } else {
                        assert(!(orig[a].feed_url == item@.feed_url && orig[a].guid == item@.guid));
                    }
                }
            }
        }
    }

    /// Builds a store from previously persisted rows, restoring each item's
    /// read flag as it was. Refused exactly when the rows break the key
    /// uniqueness the store maintains.
    pub fn from_rows(feeds: Vec<Feed>, items: Vec<Item>) -> (r: Option<Database>)
        ensures
            r matches Some(db) ==> db.wf() && db@.feeds == feed_views(feeds@) && db@.items
                == item_views(items@),
            r is None ==> !(feeds_wf(feed_views(feeds@)) && items_wf(item_views(items@))),
    {
        let ghost fv = feed_views(feeds@);
        let ghost iv = item_views(items@);
        let mut b: usize = 0;
        while b < feeds.len()
            invariant
                fv == feed_views(feeds@),
                iv == item_views(items@),
                b <= feeds.len(),
                forall|x: int, y: int| 0 <= x < y < b ==> (#[trigger] fv[x]).url != (
                #[trigger] fv[y]).url,
            decreases feeds.len() - b,
        {
            let mut a: usize = 0;
            while a < b
                invariant
                    fv == feed_views(feeds@),
                    iv == item_views(items@),
                    a <= b < feeds.len(),
                    forall|x: int| 0 <= x < a ==> (#[trigger] fv[x]).url != fv[b as int].url,
                decreases b - a,
            {
                if feeds[a].url == feeds[b].url {
                    proof {
                        lemma_feed_views_index(feeds@, a as int);
                        lemma_feed_views_index(feeds@, b as int);
                        assert(!feeds_wf(fv));
                    }
                    return None;
                }
                proof {
                    lemma_feed_views_index(feeds@, a as int);
                    lemma_feed_views_index(feeds@, b as int);
                }
                a += 1;
            }
            b += 1;
        }
        let mut b: usize = 0;
        while b < items.len()
            invariant
                fv == feed_views(feeds@),
                iv == item_views(items@),
                b <= items.len(),
                forall|x: int, y: int|
                    0 <= x < y < b ==> !((#[trigger] iv[x]).feed_url == (
                    #[trigger] iv[y]).feed_url && iv[x].guid == iv[y].guid),
            decreases items.len() - b,
        {
            let mut a: usize = 0;
            while a < b
                invariant
                    fv == feed_views(feeds@),
                    iv == item_views(items@),
                    a <= b < items.len(),
                    forall|x: int|
                        0 <= x < a ==> !((#[trigger] iv[x]).feed_url == iv[b as int].feed_url
                            && iv[x].guid == iv[b as int].guid),
                decreases b - a,
            {
                if items[a].feed_url == items[b].feed_url && items[a].guid == items[b].guid {
                    proof {
                        lemma_item_views_index(items@, a as int);
                        lemma_item_views_index(items@, b as int);
                        assert(!items_wf(iv));
                    }
                    return None;
                }
                proof {
                    lemma_item_views_index(items@, a as int);
                    lemma_item_views_index(items@, b as int);
                }
                a += 1;
            }
            b += 1;
        }
        Some(Database { feeds, items })
    }

    /// All items of one feed still unread, ordered by publication date
    /// ascending; ties may come out in either order, as the store makes no
    /// promise about them.
    pub fn get_unread_items(&self, feed_url: &str) -> (r: Vec<Item>)
        requires
            self.wf(),
        ensures
            sorted_by_date(item_views(r@)),
            item_views(r@).to_multiset() == self@.items.filter(
                unread_pred(feed_url@),
            ).to_multiset(),
    {
        let key: String = feed_url.to_owned();
        let mut out: Vec<Item> = Vec::new();
        let mut i: usize = 0;
        proof {
            broadcast use vstd::seq_lib::group_filter_ensures;

            assert(self@.items.take(0).filter(unread_pred(feed_url@)) =~= Seq::<
                ItemView,
            >::empty());
            assert(item_views(out@) =~= Seq::<ItemView>::empty());
        }
        while i < self.items.len()
            invariant
                self.wf(),
                key@ == feed_url@,
                i <= self.items.len(),
                sorted_by_date(item_views(out@)),
                item_views(out@).to_multiset() == self@.items.take(i as int).filter(
                    unread_pred(feed_url@),
                ).to_multiset(),
            decreases self.items.len() - i,
        {
            let ghost prefix = self@.items.take(i as int);
            let ghost cur = self@.items[i as int];
            proof {
                broadcast use vstd::seq_lib::group_filter_ensures;

                lemma_item_views_index(self.items@, i as int);
                assert(self@.items.take(i as int + 1) =~= prefix.push(cur));
            }
            let it = &self.items[i];
            if it.feed_url == key && !it.is_read {
                proof {
                    assert(unread_pred(feed_url@)(cur));
                    prefix.lemma_filter_push(cur, unread_pred(feed_url@));
                    assert(prefix.push(cur).filter(unread_pred(feed_url@)) == prefix.filter(
                        unread_pred(feed_url@),
                    ).push(cur));
                }
                let mut j: usize = out.len();
                while j > 0 && out[j - 1].pub_date > it.pub_date
                    invariant
                        j <= out.len(),
                        it@ == cur,
                        sorted_by_date(item_views(out@)),
                        forall|k: int|
                            j <= k < out@.len() ==> (#[trigger] item_views(out@)[k]).pub_date
                                > cur.pub_date,
                    decreases j,
                {
                    proof {
                        lemma_item_views_index(out@, j - 1);
                    }
                    j -= 1;
                }
                let ghost pre_out = out@;
                let cloned = clone_item(it);
                let ghost cval = cloned;
                out.insert(j, cloned);
                proof {
                    broadcast use vstd::seq_lib::to_multiset_insert;

                    item_views(pre_out).insert_ensures(j as int, cur);
                    pre_out.insert_ensures(j as int, cval);
                    if j > 0 {
                        lemma_item_views_index(pre_out, j as int - 1);
                        assert(item_views(pre_out)[j as int - 1].pub_date <= cur.pub_date);
                    }
                    assert forall|k: int| 0 <= k < out@.len() implies item_views(out@)[k]
                        == item_views(pre_out).insert(j as int, cur)[k] by {
                        lemma_item_views_index(out@, k);
                        if k < j {
                            lemma_item_views_index(pre_out, k);
                        } else if k > j {
                            lemma_item_views_index(pre_out, k - 1);
                        }
                    }
                    assert(item_views(out@) =~= item_views(pre_out).insert(j as int, cur));
                    assert(item_views(out@).to_multiset() == item_views(pre_out).to_multiset()
                        .insert(cur));
                    assert(prefix.push(cur).filter(unread_pred(feed_url@)).to_multiset() == prefix
                        .filter(unread_pred(feed_url@)).to_multiset().insert(cur)) by {
                        broadcast use vstd::seq_lib::group_to_multiset_ensures;

                    }
                    assert(sorted_by_date(item_views(out@))) by {
                        let s = item_views(pre_out);
                        let s2 = item_views(out@);
                        assert forall|a: int, b2: int| 0 <= a < b2 < s2.len() implies (
                        #[trigger] s2[a]).pub_date <= (#[trigger] s2[b2]).pub_date by {
                            if a < j && b2 < j {
                                assert(s2[a] == s[a] && s2[b2] == s[b2]);
                            } else if a < j && b2 == j {
                                assert(s2[a] == s[a]);
                                if j < s.len() + 1 && j >= 1 {
                                    if a < j - 1 {
                                        assert(s[a].pub_date <= s[j - 1].pub_date);
                                    }
                                    assert(s[j - 1].pub_date <= cur.pub_date);
                                }
                            } else if a < j && b2 > j {
                                assert(s2[a] == s[a] && s2[b2] == s[b2 - 1]);
                                assert(s[b2 - 1].pub_date > cur.pub_date);
                                if a < j - 1 {
                                    assert(s[a].pub_date <= s[j - 1].pub_date);
                                }
                                assert(s[j - 1].pub_date <= cur.pub_date);
                            } else if a == j {
                                assert(s2[b2] == s[b2 - 1]);
                                assert(s[b2 - 1].pub_date > cur.pub_date);
                            } else {
                                assert(s2[a] == s[a - 1] && s2[b2] == s[b2 - 1]);
                            }
                        }
                    }
                }
            } else {
                proof {
                    assert(!unread_pred(feed_url@)(cur));
                    prefix.lemma_filter_push(cur, unread_pred(feed_url@));
                    assert(prefix.push(cur).filter(unread_pred(feed_url@)) == prefix.filter(
                        unread_pred(feed_url@),
                    ));
                }
            }
            i += 1;
        }
        proof {
            assert(self@.items.take(self@.items.len() as int) =~= self@.items);
        }
        out
    }

    /// The stored feed rows, in insertion order.
    pub fn all_feeds(&self) -> (r: &Vec<Feed>)
        ensures
            feed_views(r@) == self@.feeds,
    {
        &self.feeds
    }

    /// The stored item rows, in insertion order.
    pub fn all_items(&self) -> (r: &Vec<Item>)
        ensures
            item_views(r@) == self@.items,
    {
        &self.items
    }

    /// Unconditionally marks every stored item read, whatever feed it
    /// belongs to; feed rows are untouched.
    pub fn mark_all_items_read(&mut self)
        requires
            old(self).wf(),
        ensures
            final(self).wf(),
            final(self)@.items == mark_all_spec(old(self)@.items),
            final(self)@.feeds == old(self)@.feeds,
    {
        let ghost orig = self@.items;
        let mut i: usize = 0;
        while i < self.items.len()
            invariant
                old(self).wf(),
                i <= self.items.len(),
                orig == old(self)@.items,
                self.items.len() == orig.len(),
                self@.feeds == old(self)@.feeds,
                forall|j: int| 0 <= j < i ==> self@.items[j] == #[trigger] mark_all_spec(orig)[j],
                forall|j: int| i <= j < orig.len() ==> #[trigger] self@.items[j] == orig[j],
            decreases self.items.len() - i,
        {
            let ghost pre_elems = self.items@;
            let marked = Item {
                feed_url: clone_string(&self.items[i].feed_url),
                guid: clone_string(&self.items[i].guid),
                title: clone_string(&self.items[i].title),
                link: clone_string(&self.items[i].link),
                comments_link: clone_opt_string(&self.items[i].comments_link),
                pub_date: self.items[i].pub_date,
                is_read: true,
            };
            proof {
                lemma_item_views_index(pre_elems, i as int);
                assert forall|j: int| i <= j < orig.len() implies item_views(pre_elems)[j]
                    == orig[j] by {
                    lemma_item_views_index(pre_elems, j);
                    lemma_item_views_index(self.items@, j);
                    assert(self@.items[j] == orig[j]);
                }
                assert forall|j: int| 0 <= j < i implies item_views(pre_elems)[j] == mark_all_spec(
                    orig,
                )[j] by {
                    lemma_item_views_index(pre_elems, j);
                    lemma_item_views_index(self.items@, j);
                    assert(self@.items[j] == mark_all_spec(orig)[j]);
                }
                assert(pre_elems[i as int]@ == orig[i as int]);
                assert(marked@ == mark_all_spec(orig)[i as int]);
            }
            self.items.set(i, marked);
            proof {
                assert(self@.items[i as int] == marked@) by {
                    lemma_item_views_index(self.items@, i as int);
                }
                assert forall|j: int| 0 <= j < orig.len() && j != i implies self@.items[j]
                    == item_views(pre_elems)[j] by {
                    lemma_item_views_index(self.items@, j);
                    lemma_item_views_index(pre_elems, j);
                }
            }
            i += 1;
        }
        proof {
            assert(self@.items =~= mark_all_spec(orig));
            assert(items_wf(self@.items)) by {
                assert forall|a: int, b: int| 0 <= a < b < self@.items.len() implies !((
                #[trigger] self@.items[a]).feed_url == (#[trigger] self@.items[b]).feed_url
                    && self@.items[a].guid == self@.items[b].guid) by {
                    assert(!(orig[a].feed_url == orig[b].feed_url && orig[a].guid == orig[b].guid));
                }
            }
        }
    }
}

} // verus!
