use squeakmail::database::{Database, Error, Feed, Item};

fn feed(url: &str, link: &str, title: &str, etag: Option<&str>, lm: Option<&str>) -> Feed {
    Feed {
        url: url.to_string(),
        link: link.to_string(),
        title: title.to_string(),
        etag: etag.map(|s| s.to_string()),
        last_modified: lm.map(|s| s.to_string()),
    }
}

fn item(feed_url: &str, guid: &str, title: &str, pub_date: i64) -> Item {
    Item {
        feed_url: feed_url.to_string(),
        guid: guid.to_string(),
        title: title.to_string(),
        link: format!("https://example.org/{}", guid),
        comments_link: None,
        pub_date,
        is_read: false,
    }
}

#[test]
fn open_accepts_versions_zero_and_one() {
    let db = Database::open(0).unwrap();
    assert_eq!(db.all_feeds().len(), 0);
    assert_eq!(db.all_items().len(), 0);
    let db = Database::open(1).unwrap();
    assert_eq!(db.all_items().len(), 0);
}

#[test]
fn open_refuses_unknown_versions() {
    assert!(matches!(Database::open(2), Err(Error::UnknownVersion(2))));
    assert!(matches!(Database::open(7), Err(Error::UnknownVersion(7))));
    assert!(matches!(Database::open(u32::MAX), Err(Error::UnknownVersion(_))));
}

#[test]
fn upsert_feed_inserts_then_replaces_whole_row() {
    let mut db = Database::open(0).unwrap();
    db.insert_update_feed(&feed("u", "l1", "t1", Some("e1"), Some("m1")));
    db.insert_update_feed(&feed("other", "x", "y", None, None));
    assert_eq!(db.all_feeds().len(), 2);

    // A later upsert of the same url overwrites everything, and a validator
    // absent from the new row is cleared, not preserved.
    db.insert_update_feed(&feed("u", "l2", "t2", None, Some("m2")));
    assert_eq!(db.all_feeds().len(), 2);
    let f = db.get_feed_by_url("u").unwrap();
    assert_eq!(f.link, "l2");
    assert_eq!(f.title, "t2");
    assert_eq!(f.etag, None);
    assert_eq!(f.last_modified.as_deref(), Some("m2"));
}

#[test]
fn get_feed_by_url_absent_is_none() {
    let mut db = Database::open(0).unwrap();
    db.insert_update_feed(&feed("u", "l", "t", None, None));
    assert!(db.get_feed_by_url("missing").is_none());
}

#[test]
fn new_items_are_born_unread() {
    let mut db = Database::open(0).unwrap();
    let mut it = item("u", "g1", "t", 10);
    it.is_read = true;
    // Insertion always starts a row unread, whatever the sighting claims.
    db.insert_update_item(&it);
    assert_eq!(db.all_items().len(), 1);
    assert!(!db.all_items()[0].is_read);
}

#[test]
fn upsert_existing_item_updates_fields_not_read_flag() {
    let mut db = Database::open(0).unwrap();
    let mut first = item("u", "g1", "old title", 10);
    first.comments_link = Some("https://example.org/c".to_string());
    db.insert_update_item(&first);
    db.mark_all_items_read();

    let mut second = item("u", "g1", "new title", 20);
    second.link = "https://example.org/new".to_string();
    db.insert_update_item(&second);

    assert_eq!(db.all_items().len(), 1);
    let row = &db.all_items()[0];
    assert_eq!(row.title, "new title");
    assert_eq!(row.link, "https://example.org/new");
    assert_eq!(row.pub_date, 20);
    // The read flag and the comments link stay as they were.
    assert!(row.is_read);
    assert_eq!(row.comments_link.as_deref(), Some("https://example.org/c"));
}

#[test]
fn items_of_different_feeds_do_not_collide() {
    let mut db = Database::open(0).unwrap();
    db.insert_update_item(&item("a", "g", "in a", 1));
    db.insert_update_item(&item("b", "g", "in b", 2));
    assert_eq!(db.all_items().len(), 2);
}

#[test]
fn unread_items_come_sorted_by_pub_date() {
    let mut db = Database::open(0).unwrap();
    db.insert_update_item(&item("u", "g3", "third", 30));
    db.insert_update_item(&item("u", "g1", "first", 10));
    db.insert_update_item(&item("u", "g2", "second", 20));
    db.insert_update_item(&item("elsewhere", "gx", "other feed", 5));

    let unread = db.get_unread_items("u");
    assert_eq!(unread.len(), 3);
    assert_eq!(unread[0].guid, "g1");
    assert_eq!(unread[1].guid, "g2");
    assert_eq!(unread[2].guid, "g3");
}

#[test]
fn read_items_leave_the_unread_backlog() {
    let mut db = Database::open(0).unwrap();
    db.insert_update_item(&item("u", "g1", "a", 1));
    db.insert_update_item(&item("u", "g2", "b", 2));
    db.mark_all_items_read();
    assert_eq!(db.get_unread_items("u").len(), 0);

    // A new sighting of a read item does not resurrect it.
    db.insert_update_item(&item("u", "g1", "a again", 3));
    assert_eq!(db.get_unread_items("u").len(), 0);

    // A genuinely new item is unread.
    db.insert_update_item(&item("u", "g3", "c", 4));
    let unread = db.get_unread_items("u");
    assert_eq!(unread.len(), 1);
    assert_eq!(unread[0].guid, "g3");
}

#[test]
fn mark_all_items_read_spans_every_feed() {
    let mut db = Database::open(0).unwrap();
    db.insert_update_item(&item("a", "g1", "x", 1));
    db.insert_update_item(&item("b", "g2", "y", 2));
    db.mark_all_items_read();
    assert!(db.all_items().iter().all(|it| it.is_read));
}

#[test]
fn from_rows_restores_read_state() {
    let mut read_item = item("u", "g1", "a", 1);
    read_item.is_read = true;
    let rows = vec![read_item, item("u", "g2", "b", 2)];
    let feeds = vec![feed("u", "l", "t", None, None)];
    let db = Database::from_rows(feeds, rows).unwrap();
    let unread = db.get_unread_items("u");
    assert_eq!(unread.len(), 1);
    assert_eq!(unread[0].guid, "g2");
}

#[test]
fn from_rows_refuses_duplicate_keys() {
    let feeds = vec![feed("u", "l", "t", None, None), feed("u", "l2", "t2", None, None)];
    assert!(Database::from_rows(feeds, vec![]).is_none());

    let items = vec![item("u", "g", "a", 1), item("u", "g", "b", 2)];
    assert!(Database::from_rows(vec![], items).is_none());
}
