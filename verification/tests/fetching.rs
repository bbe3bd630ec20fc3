use squeakmail::database::{Database, Feed, Item};
use squeakmail::fetch::{apply_response, request_plan, FetchError, FetchResponse};

const NOW: i64 = 999;
const URL: &str = "https://blog.example.org/feed.xml";

const RSS_DOC: &str = r#"<?xml version="1.0"?>
<rss version="2.0"><channel>
<title>Example Blog</title>
<link>https://blog.example.org</link>
<description>demo</description>
<item>
  <guid>a1</guid>
  <title>First</title>
  <link>https://blog.example.org/1</link>
  <pubDate>Thu, 02 Jan 2020 00:00:00 +0000</pubDate>
</item>
<item>
  <guid>a2</guid>
  <title>Second</title>
  <link>https://blog.example.org/2</link>
  <pubDate>Wed, 01 Jan 2020 00:00:00 +0000</pubDate>
</item>
</channel></rss>"#;

const RSS_DOC_RETITLED: &str = r#"<?xml version="1.0"?>
<rss version="2.0"><channel>
<title>Example Blog</title>
<link>https://blog.example.org</link>
<description>demo</description>
<item>
  <guid>a1</guid>
  <title>First, revised</title>
  <link>https://blog.example.org/1-v2</link>
  <pubDate>Fri, 03 Jan 2020 00:00:00 +0000</pubDate>
</item>
</channel></rss>"#;

fn response(status: u16, body: &str) -> FetchResponse {
    FetchResponse {
        status,
        etag: None,
        last_modified: None,
        body: body.to_string(),
    }
}

fn feed_snapshot(db: &Database) -> Vec<(String, String, String, Option<String>, Option<String>)> {
    db.all_feeds()
        .iter()
        .map(|f| {
            (
                f.url.clone(),
                f.link.clone(),
                f.title.clone(),
                f.etag.clone(),
                f.last_modified.clone(),
            )
        })
        .collect()
}

fn item_snapshot(db: &Database) -> Vec<(String, String, String, String, Option<String>, i64, bool)> {
    db.all_items()
        .iter()
        .map(|it| {
            (
                it.feed_url.clone(),
                it.guid.clone(),
                it.title.clone(),
                it.link.clone(),
                it.comments_link.clone(),
                it.pub_date,
                it.is_read,
            )
        })
        .collect()
}

fn populated_store() -> Database {
    let mut db = Database::open(0).unwrap();
    let resp = response(200, RSS_DOC);
    apply_response(&mut db, URL, &resp, NOW).unwrap();
    db
}

#[test]
fn not_modified_mutates_nothing() {
    let mut db = populated_store();
    let feeds_before = feed_snapshot(&db);
    let items_before = item_snapshot(&db);

    let r = apply_response(&mut db, URL, &response(304, ""), NOW);
    assert!(matches!(r, Err(FetchError::NotModified)));
    assert_eq!(feed_snapshot(&db), feeds_before);
    assert_eq!(item_snapshot(&db), items_before);
}

#[test]
fn unexpected_status_carries_the_code_and_mutates_nothing() {
    let mut db = populated_store();
    let feeds_before = feed_snapshot(&db);
    let items_before = item_snapshot(&db);

    let r = apply_response(&mut db, URL, &response(500, RSS_DOC), NOW);
    assert!(matches!(r, Err(FetchError::UnexpectedStatusCode(500))));
    let r = apply_response(&mut db, URL, &response(404, RSS_DOC), NOW);
    assert!(matches!(r, Err(FetchError::UnexpectedStatusCode(404))));
    assert_eq!(feed_snapshot(&db), feeds_before);
    assert_eq!(item_snapshot(&db), items_before);
}

#[test]
fn unparsable_body_mutates_nothing() {
    let mut db = populated_store();
    let feeds_before = feed_snapshot(&db);
    let items_before = item_snapshot(&db);

    let r = apply_response(&mut db, URL, &response(200, "junk"), NOW);
    assert!(matches!(r, Err(FetchError::Parse)));
    assert_eq!(feed_snapshot(&db), feeds_before);
    assert_eq!(item_snapshot(&db), items_before);
}

#[test]
fn successful_fetch_fills_an_empty_store() {
    let mut db = Database::open(0).unwrap();
    let resp = FetchResponse {
        status: 200,
        etag: Some("tag-1".to_string()),
        last_modified: Some("Thu, 02 Jan 2020 00:00:00 GMT".to_string()),
        body: RSS_DOC.to_string(),
    };
    apply_response(&mut db, URL, &resp, NOW).unwrap();

    assert_eq!(db.all_feeds().len(), 1);
    let f = db.get_feed_by_url(URL).unwrap();
    assert_eq!(f.link, "https://blog.example.org");
    assert_eq!(f.title, "Example Blog");
    assert_eq!(f.etag.as_deref(), Some("tag-1"));
    assert_eq!(
        f.last_modified.as_deref(),
        Some("Thu, 02 Jan 2020 00:00:00 GMT")
    );

    let unread = db.get_unread_items(URL);
    assert_eq!(unread.len(), 2);
    assert!(unread.iter().all(|it| !it.is_read));
    // Sorted ascending by publication date, so the older entry comes first.
    assert_eq!(unread[0].guid, "a2");
    assert_eq!(unread[1].guid, "a1");
}

#[test]
fn absent_validators_clear_stored_ones() {
    let mut db = Database::open(0).unwrap();
    let resp = FetchResponse {
        status: 200,
        etag: Some("tag-1".to_string()),
        last_modified: Some("lm-1".to_string()),
        body: RSS_DOC.to_string(),
    };
    apply_response(&mut db, URL, &resp, NOW).unwrap();

    apply_response(&mut db, URL, &response(200, RSS_DOC), NOW).unwrap();
    let f = db.get_feed_by_url(URL).unwrap();
    assert_eq!(f.etag, None);
    assert_eq!(f.last_modified, None);
}

#[test]
fn refetch_updates_metadata_but_not_read_state() {
    let mut db = populated_store();
    db.mark_all_items_read();

    apply_response(&mut db, URL, &response(200, RSS_DOC_RETITLED), NOW).unwrap();

    let a1 = db
        .all_items()
        .iter()
        .find(|it| it.guid == "a1")
        .map(|it| (it.title.clone(), it.link.clone(), it.pub_date, it.is_read))
        .unwrap();
    assert_eq!(a1.0, "First, revised");
    assert_eq!(a1.1, "https://blog.example.org/1-v2");
    assert_eq!(a1.2, 1578009600);
    // Read before the refetch, still read after it.
    assert!(a1.3);
    assert_eq!(db.get_unread_items(URL).len(), 0);
}

#[test]
fn request_plan_reflects_stored_validators() {
    let plan = request_plan(None);
    assert_eq!(plan.if_none_match, None);
    assert_eq!(plan.if_modified_since, None);

    let stored = Feed {
        url: URL.to_string(),
        link: "l".to_string(),
        title: "t".to_string(),
        etag: Some("tag-9".to_string()),
        last_modified: None,
    };
    let plan = request_plan(Some(&stored));
    assert_eq!(plan.if_none_match.as_deref(), Some("tag-9"));
    assert_eq!(plan.if_modified_since, None);

    let both = Feed {
        etag: Some("tag-10".to_string()),
        last_modified: Some("Thu, 02 Jan 2020 00:00:00 GMT".to_string()),
        ..stored
    };
    let plan = request_plan(Some(&both));
    assert_eq!(plan.if_none_match.as_deref(), Some("tag-10"));
    assert_eq!(
        plan.if_modified_since.as_deref(),
        Some("Thu, 02 Jan 2020 00:00:00 GMT")
    );
}

#[test]
fn items_written_in_document_order() {
    let mut db = Database::open(0).unwrap();
    apply_response(&mut db, URL, &response(200, RSS_DOC), NOW).unwrap();
    let rows: Vec<&Item> = db.all_items().iter().collect();
    assert_eq!(rows[0].guid, "a1");
    assert_eq!(rows[1].guid, "a2");
}
