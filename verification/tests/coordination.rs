use squeakmail::coord::{next_url, worker_count};
use squeakmail::database::{Database, Item};
use squeakmail::digest::assemble_digest;

fn item(feed_url: &str, guid: &str, pub_date: i64) -> Item {
    Item {
        feed_url: feed_url.to_string(),
        guid: guid.to_string(),
        title: format!("title {}", guid),
        link: format!("https://example.org/{}", guid),
        comments_link: None,
        pub_date,
        is_read: false,
    }
}

fn feed(url: &str) -> squeakmail::database::Feed {
    squeakmail::database::Feed {
        url: url.to_string(),
        link: format!("{}/site", url),
        title: format!("feed {}", url),
        etag: None,
        last_modified: None,
    }
}

#[test]
fn pool_never_exceeds_the_url_count() {
    assert_eq!(worker_count(4, 2), 2);
    assert_eq!(worker_count(2, 5), 2);
    assert_eq!(worker_count(3, 3), 3);
    assert_eq!(worker_count(5, 0), 0);
}

#[test]
fn concurrency_one_means_one_worker() {
    // A single worker makes the fetches strictly sequential.
    assert_eq!(worker_count(1, 10), 1);
    assert_eq!(worker_count(1, 1), 1);
}

#[test]
fn queue_drains_one_url_at_a_time() {
    let mut queue = vec!["a".to_string(), "b".to_string(), "c".to_string()];
    let mut seen = Vec::new();
    while let Some(u) = next_url(&mut queue) {
        seen.push(u);
    }
    assert_eq!(queue.len(), 0);
    assert!(next_url(&mut queue).is_none());
    seen.sort();
    assert_eq!(seen, vec!["a".to_string(), "b".to_string(), "c".to_string()]);
}

#[test]
fn digest_sections_follow_configuration_order_and_skip_absent_feeds() {
    let mut db = Database::open(0).unwrap();
    db.insert_update_feed(&feed("https://a.example.org"));
    db.insert_update_feed(&feed("https://b.example.org"));
    db.insert_update_item(&item("https://a.example.org", "g2", 20));
    db.insert_update_item(&item("https://a.example.org", "g1", 10));

    let config = vec![
        "https://b.example.org".to_string(),
        "https://never-fetched.example.org".to_string(),
        "https://a.example.org".to_string(),
    ];
    let digest = assemble_digest(&db, &config);
    assert_eq!(digest.len(), 2);
    assert_eq!(digest[0].feed.url, "https://b.example.org");
    assert_eq!(digest[0].items.len(), 0);
    assert_eq!(digest[1].feed.url, "https://a.example.org");
    assert_eq!(digest[1].items.len(), 2);
    // Unread items arrive oldest first.
    assert_eq!(digest[1].items[0].guid, "g1");
    assert_eq!(digest[1].items[1].guid, "g2");
}

#[test]
fn dry_digest_leaves_the_unread_backlog_untouched() {
    let mut db = Database::open(0).unwrap();
    db.insert_update_feed(&feed("https://a.example.org"));
    db.insert_update_item(&item("https://a.example.org", "g1", 10));
    db.insert_update_item(&item("https://a.example.org", "g2", 20));

    let config = vec!["https://a.example.org".to_string()];
    let before = db.get_unread_items("https://a.example.org").len();

    // A dry run assembles the digest and stops: no clearing step.
    let digest = assemble_digest(&db, &config);
    assert_eq!(digest[0].items.len(), 2);

    let after = db.get_unread_items("https://a.example.org").len();
    assert_eq!(before, after);

    // Only the explicit clearing step, taken after confirmed delivery,
    // empties the backlog.
    db.mark_all_items_read();
    assert_eq!(db.get_unread_items("https://a.example.org").len(), 0);
}
