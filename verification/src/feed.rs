//! Format-polymorphic feed parsing: a raw body is tried strictly as format A
//! (RSS) first, then as format B (Atom); failing both is a parse failure,
//! with no partial extraction. Each parsed entry is normalized to one shape,
//! with the fixed fallback values for missing fields.

use vstd::prelude::*;

use crate::database::{clone_opt_string, clone_string, opt_text_view};

verus! {

/// What parsing can report: the body is neither well-formed RSS nor
/// well-formed Atom.
#[derive(Debug)]
pub enum Error {
    Parse,
}

/// An entry of an RSS document, exactly as the wire carries it: every field
/// optional, the publication date still a raw string.
pub struct RssEntry {
    pub guid: Option<String>,
    pub title: Option<String>,
    pub link: Option<String>,
    pub comments: Option<String>,
    pub pub_date: Option<String>,
}

/// An RSS document: channel title and link, and the entries in document
/// order.
pub struct RssDoc {
    pub title: String,
    pub link: String,
    pub entries: Vec<RssEntry>,
}

/// An entry of an Atom document: identifier and title are mandatory in this
/// format; the publication instant, when declared, is already a UTC timestamp
/// in seconds.
pub struct AtomEntry {
    pub id: String,
    pub title: String,
    pub first_link: Option<String>,
    pub published: Option<i64>,
}

/// An Atom document: feed title, the first declared link if any, and the
/// entries in document order.
pub struct AtomDoc {
    pub title: String,
    pub first_link: Option<String>,
    pub entries: Vec<AtomEntry>,
}

pub ghost struct RssEntryView {
    pub guid: Option<Seq<char>>,
    pub title: Option<Seq<char>>,
    pub link: Option<Seq<char>>,
    pub comments: Option<Seq<char>>,
    pub pub_date: Option<Seq<char>>,
}

pub ghost struct RssDocView {
    pub title: Seq<char>,
    pub link: Seq<char>,
    pub entries: Seq<RssEntryView>,
}

pub ghost struct AtomEntryView {
    pub id: Seq<char>,
    pub title: Seq<char>,
    pub first_link: Option<Seq<char>>,
    pub published: Option<i64>,
}

pub ghost struct AtomDocView {
    pub title: Seq<char>,
    pub first_link: Option<Seq<char>>,
    pub entries: Seq<AtomEntryView>,
}

impl View for RssEntry {
    type V = RssEntryView;

    open spec fn view(&self) -> RssEntryView {
        RssEntryView {
            guid: opt_text_view(self.guid),
            title: opt_text_view(self.title),
            link: opt_text_view(self.link),
            comments: opt_text_view(self.comments),
            pub_date: opt_text_view(self.pub_date),
        }
    }
}

pub open spec fn rss_entry_views(s: Seq<RssEntry>) -> Seq<RssEntryView> {
    s.map_values(|e: RssEntry| e@)
}

impl View for RssDoc {
    type V = RssDocView;

    open spec fn view(&self) -> RssDocView {
        RssDocView { title: self.title@, link: self.link@, entries: rss_entry_views(self.entries@) }
    }
}

impl View for AtomEntry {
    type V = AtomEntryView;

    open spec fn view(&self) -> AtomEntryView {
        AtomEntryView {
            id: self.id@,
            title: self.title@,
            first_link: opt_text_view(self.first_link),
            published: self.published,
        }
    }
}

pub open spec fn atom_entry_views(s: Seq<AtomEntry>) -> Seq<AtomEntryView> {
    s.map_values(|e: AtomEntry| e@)
}

impl View for AtomDoc {
    type V = AtomDocView;

    open spec fn view(&self) -> AtomDocView {
        AtomDocView {
            title: self.title@,
            first_link: opt_text_view(self.first_link),
            entries: atom_entry_views(self.entries@),
        }
    }
}

/// What the RSS parser yields on a given body; the outcome depends on the
/// text alone.
pub uninterp spec fn rss_parse(body: Seq<char>) -> Option<RssDocView>;

/// What the Atom parser yields on a given body; the outcome depends on the
/// text alone.
pub uninterp spec fn atom_parse(body: Seq<char>) -> Option<AtomDocView>;

/// The UTC timestamp an RFC 2822 date string denotes, if it parses; the
/// outcome depends on the string alone.
pub uninterp spec fn rfc2822_timestamp(s: Seq<char>) -> Option<i64>;

#[verifier::external_type_specification]
#[verifier::external_body]
pub struct ExRssChannel(rss::Channel);

#[verifier::external_type_specification]
#[verifier::external_body]
pub struct ExAtomEntry(atom_syndication::Entry);

/// Relies on the rss crate's entry accessors (`guid`, `title`, `link`,
/// `comments`, `pub_date`): each hands out the entry's stored field, in
/// document order.
#[verifier::external_body]
fn rss_channel_entries(c: &rss::Channel) -> Vec<RssEntry> {
    c.items().iter().map(
        |i| RssEntry {
            guid: i.guid().map(|g| g.value().to_string()),
            title: i.title().map(|s| s.to_string()),
            link: i.link().map(|s| s.to_string()),
            comments: i.comments().map(|s| s.to_string()),
            pub_date: i.pub_date().map(|s| s.to_string()),
        },
    ).collect()
}

/// Relies on rss::Channel::from_str and the channel accessors (`title`,
/// `link`, `items`): whether a body parses as RSS, and what it then holds,
/// is a function of the text alone, named by `rss_parse`.
#[verifier::external_body]
fn parse_rss(body: &str) -> (r: Option<RssDoc>)
    ensures
        r is Some <==> rss_parse(body@) is Some,
        r matches Some(d) ==> Some(d@) == rss_parse(body@),
{
    match <rss::Channel as core::str::FromStr>::from_str(body) {
        Ok(c) => Some(RssDoc {
            title: c.title().to_string(),
            link: c.link().to_string(),
            entries: rss_channel_entries(&c),
        }),
        Err(_) => None,
    }
}

/// Relies on the atom_syndication crate's entry accessors (`id`, `title`,
/// `links`, `published`) and chrono's `DateTime::timestamp`: each hands out
/// the entry's stored field, the instant converted to UTC seconds.
#[verifier::external_body]
fn atom_entry_fields(e: &atom_syndication::Entry) -> AtomEntry {
    AtomEntry {
        id: e.id().to_string(),
        title: e.title().value.clone(),
        first_link: e.links().first().map(|l| l.href().to_string()),
        published: e.published().map(|d| d.timestamp()),
    }
}

/// Relies on atom_syndication::Feed::from_str and the feed accessors
/// (`title`, `links`, `entries`): whether a body parses as Atom, and what it
/// then holds, is a function of the text alone, named by `atom_parse`.
#[verifier::external_body]
fn parse_atom(body: &str) -> (r: Option<AtomDoc>)
    ensures
        r is Some <==> atom_parse(body@) is Some,
        r matches Some(d) ==> Some(d@) == atom_parse(body@),
{
    match <atom_syndication::Feed as core::str::FromStr>::from_str(body) {
        Ok(f) => Some(AtomDoc {
            title: f.title().value.clone(),
            first_link: f.links().first().map(|l| l.href().to_string()),
            entries: f.entries().iter().map(atom_entry_fields).collect(),
        }),
        Err(_) => None,
    }
}

/// Relies on chrono::DateTime::parse_from_rfc2822 and `timestamp`: whether
/// and how an RFC 2822 date string parses depends on the string alone, named
/// by `rfc2822_timestamp`.
#[verifier::external_body]
fn parse_rfc2822(s: &str) -> (r: Option<i64>)
    ensures
        r == rfc2822_timestamp(s@),
{
    match chrono::DateTime::parse_from_rfc2822(s) {
        Ok(dt) => Some(dt.timestamp()),
        Err(_) => None,
    }
}

/// A normalized entry, ready to be stored: the publication date is a UTC
/// timestamp in seconds.
pub struct Item {
    pub guid: String,
    pub title: String,
    pub link: String,
    pub comments_link: Option<String>,
    pub pub_date: i64,
}

pub ghost struct EntryView {
    pub guid: Seq<char>,
    pub title: Seq<char>,
    pub link: Seq<char>,
    pub comments_link: Option<Seq<char>>,
    pub pub_date: i64,
}

impl View for Item {
    type V = EntryView;

    open spec fn view(&self) -> EntryView {
        EntryView {
            guid: self.guid@,
            title: self.title@,
            link: self.link@,
            comments_link: opt_text_view(self.comments_link),
            pub_date: self.pub_date,
        }
    }
}

pub open spec fn entry_views(s: Seq<Item>) -> Seq<EntryView> {
    s.map_values(|e: Item| e@)
}

/// How an RSS entry is normalized: empty guid when absent, "Untitled" when
/// untitled, a fixed placeholder link, and `now` standing in for a missing or
/// unparsable publication date.
pub open spec fn norm_rss_entry(e: RssEntryView, now: i64) -> EntryView {
    EntryView {
        guid: match e.guid {
            Some(g) => g,
            None => Seq::<char>::empty(),
        },
        title: match e.title {
            Some(t) => t,
            None => "Untitled"@,
        },
        link: match e.link {
            Some(l) => l,
            None => "https://example.com"@,
        },
        comments_link: e.comments,
        pub_date: match e.pub_date {
            Some(s) => match rfc2822_timestamp(s) {
                Some(t) => t,
                None => now,
            },
            None => now,
        },
    }
}

/// How an Atom entry is normalized: identifier and title are copied, the
/// first declared link or the placeholder is taken, no comments link exists
/// in this format, and `now` stands in for a missing publication instant.
pub open spec fn norm_atom_entry(e: AtomEntryView, now: i64) -> EntryView {
    EntryView {
        guid: e.id,
        title: e.title,
        link: match e.first_link {
            Some(l) => l,
            None => "https://example.com"@,
        },
        comments_link: None,
        pub_date: match e.published {
            Some(t) => t,
            None => now,
        },
    }
}

impl Item {
    /// Normalizes one RSS entry; `now` is the current UTC instant, the
    /// stand-in for a missing or unparsable date.
    pub fn from_rss(e: &RssEntry, now: i64) -> (r: Item)
        ensures
            r@ == norm_rss_entry(e@, now),
    {
        let guid = match &e.guid {
            Some(g) => clone_string(g),
            None => String::new(),
        };
        let title = match &e.title {
            Some(t) => clone_string(t),
            None => "Untitled".to_owned(),
        };
        let link = match &e.link {
            Some(l) => clone_string(l),
            None => "https://example.com".to_owned(),
        };
        let comments_link = clone_opt_string(&e.comments);
        let pub_date: i64 = match &e.pub_date {
            Some(s) => match parse_rfc2822(s.as_str()) {
                Some(t) => t,
                None => now,
            },
            None => now,
        };
        Item { guid, title, link, comments_link, pub_date }
    }

    /// Normalizes one Atom entry; `now` stands in for a missing publication
    /// instant.
    pub fn from_atom(e: &AtomEntry, now: i64) -> (r: Item)
        ensures
            r@ == norm_atom_entry(e@, now),
    {
        let link = match &e.first_link {
            Some(l) => clone_string(l),
            None => "https://example.com".to_owned(),
        };
        let pub_date: i64 = match e.published {
            Some(t) => t,
            None => now,
        };
        Item {
            guid: clone_string(&e.id),
            title: clone_string(&e.title),
            link,
            comments_link: None,
            pub_date,
        }
    }
}

/// A parsed document: which format succeeded, and what it carried.
pub enum Feed {
    Rss(RssDoc),
    Atom(AtomDoc),
}

pub ghost enum FeedDocView {
    Rss(RssDocView),
    Atom(AtomDocView),
}

impl View for Feed {
    type V = FeedDocView;

    open spec fn view(&self) -> FeedDocView {
        match self {
            Feed::Rss(d) => FeedDocView::Rss(d@),
            Feed::Atom(d) => FeedDocView::Atom(d@),
        }
    }
}

/// The feed-level title of a parsed document.
pub open spec fn doc_title(v: FeedDocView) -> Seq<char> {
    match v {
        FeedDocView::Rss(d) => d.title,
        FeedDocView::Atom(d) => d.title,
    }
}

/// The feed-level link of a parsed document; an Atom feed with no declared
/// links falls back to the literal "Untitled", as the wire format it models
/// does.
pub open spec fn doc_link(v: FeedDocView) -> Seq<char> {
    match v {
        FeedDocView::Rss(d) => d.link,
        FeedDocView::Atom(d) => match d.first_link {
            Some(l) => l,
            None => "Untitled"@,
        },
    }
}

/// All RSS entries of a document normalized, in document order.
pub open spec fn norm_rss_entries(s: Seq<RssEntryView>, now: i64) -> Seq<EntryView> {
    s.map_values(|e: RssEntryView| norm_rss_entry(e, now))
}

/// All Atom entries of a document normalized, in document order.
pub open spec fn norm_atom_entries(s: Seq<AtomEntryView>, now: i64) -> Seq<EntryView> {
    s.map_values(|e: AtomEntryView| norm_atom_entry(e, now))
}

/// The normalized entries of a parsed document, in document order.
pub open spec fn doc_entries(v: FeedDocView, now: i64) -> Seq<EntryView> {
    match v {
        FeedDocView::Rss(d) => norm_rss_entries(d.entries, now),
        FeedDocView::Atom(d) => norm_atom_entries(d.entries, now),
    }
}

pub proof fn lemma_entry_views_index(s: Seq<Item>, i: int)
    requires
        0 <= i < s.len(),
    ensures
        entry_views(s)[i] == s[i]@,
{
}

/// The one parse outcome the trial order admits: format A if it parses,
/// else format B if it parses, else nothing.
pub open spec fn parsed_doc(body: Seq<char>) -> Option<FeedDocView> {
    match rss_parse(body) {
        Some(d) => Some(FeedDocView::Rss(d)),
        None => match atom_parse(body) {
            Some(d) => Some(FeedDocView::Atom(d)),
            None => None,
        },
    }
}

impl Feed {
    /// Tries the body strictly as RSS first; only if that fails, as Atom; a
    /// body parsing under neither is a parse failure. A body that parses as
    /// RSS is never tried as Atom.
    pub fn read_from(body: &str) -> (r: Result<Feed, Error>)
        ensures
            (match parsed_doc(body@) {
                Some(v) => r matches Ok(f) && f@ == v,
                None => r matches Err(e) && e matches Error::Parse,
            }),
    {
        match parse_rss(body) {
            Some(d) => Ok(Feed::Rss(d)),
            None => match parse_atom(body) {
                Some(d) => Ok(Feed::Atom(d)),
                None => Err(Error::Parse),
            },
        }
    }

    /// The feed-level title.
    pub fn title(&self) -> (r: String)
        ensures
            r@ == doc_title(self@),
    {
        match self {
            Feed::Rss(d) => clone_string(&d.title),
            Feed::Atom(d) => clone_string(&d.title),
        }
    }

    /// The feed-level link, or its fixed fallback.
    pub fn link(&self) -> (r: String)
        ensures
            r@ == doc_link(self@),
    {
        match self {
            Feed::Rss(d) => clone_string(&d.link),
            Feed::Atom(d) => match &d.first_link {
                Some(l) => clone_string(l),
                None => "Untitled".to_owned(),
            },
        }
    }

    /// The normalized entries in document order; `now` is the stand-in
    /// instant for entries without a usable date.
    pub fn items(&self, now: i64) -> (r: Vec<Item>)
        ensures
            entry_views(r@) == doc_entries(self@, now),
    {
        let mut out: Vec<Item> = Vec::new();
        match self {
            Feed::Rss(d) => {
                let ghost evs = rss_entry_views(d.entries@);
                let mut i: usize = 0;
                while i < d.entries.len()
                    invariant
                        i <= d.entries.len(),
                        evs == rss_entry_views(d.entries@),
                        entry_views(out@) =~= norm_rss_entries(evs.take(i as int), now),
                    decreases d.entries.len() - i,
                {
                    let ghost pre_out = out@;
                    out.push(Item::from_rss(&d.entries[i], now));
                    proof {
                        assert(evs.len() == d.entries@.len());
                        assert(entry_views(pre_out).len() == pre_out.len());
                        assert(norm_rss_entries(evs.take(i as int), now).len() == i);
                        assert(pre_out.len() == i);
                        assert(evs[i as int] == d.entries@[i as int]@);
                        assert forall|k: int| 0 <= k < out@.len() implies entry_views(out@)[k]
                            == norm_rss_entries(evs.take(i as int + 1), now)[k] by {
                            lemma_entry_views_index(out@, k);
                            if k < i {
                                lemma_entry_views_index(pre_out, k);
                                assert(entry_views(pre_out)[k] == norm_rss_entries(
                                    evs.take(i as int),
                                    now,
                                )[k]);
                            }
                        }
                        assert(entry_views(out@) =~= norm_rss_entries(evs.take(i as int + 1), now));
                    }
                    i += 1;
                }
                proof {
                    assert(evs.take(evs.len() as int) =~= evs);
                }
            },
            Feed::Atom(d) => {
                let ghost evs = atom_entry_views(d.entries@);
                let mut i: usize = 0;
                while i < d.entries.len()
                    invariant
                        i <= d.entries.len(),
                        evs == atom_entry_views(d.entries@),
                        entry_views(out@) =~= norm_atom_entries(evs.take(i as int), now),
                    decreases d.entries.len() - i,
                {
                    let ghost pre_out = out@;
                    out.push(Item::from_atom(&d.entries[i], now));
                    proof {
                        assert(evs.len() == d.entries@.len());
                        assert(entry_views(pre_out).len() == pre_out.len());
                        assert(norm_atom_entries(evs.take(i as int), now).len() == i);
                        assert(pre_out.len() == i);
                        assert(evs[i as int] == d.entries@[i as int]@);
                        assert forall|k: int| 0 <= k < out@.len() implies entry_views(out@)[k]
                            == norm_atom_entries(evs.take(i as int + 1), now)[k] by {
                            lemma_entry_views_index(out@, k);
                            if k < i {
                                lemma_entry_views_index(pre_out, k);
                                assert(entry_views(pre_out)[k] == norm_atom_entries(
                                    evs.take(i as int),
                                    now,
                                )[k]);
                            }
                        }
                        assert(entry_views(out@) =~= norm_atom_entries(
                            evs.take(i as int + 1),
                            now,
                        ));
                    }
                    i += 1;
                }
                proof {
                    assert(evs.take(evs.len() as int) =~= evs);
                }
            },
        }
        out
    }
}

} // verus!
