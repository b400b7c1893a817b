use artemis::errors::IngestError;
use artemis::item::CandidateItem;
use artemis::store::EntryStore;
use artemis::store::FeedRegistry;
use artemis::store::InsertOutcome;
use artemis::worker::refresh_feed;
use artemis::worker::register_feed;
use artemis::worker::run_cycle;
use artemis::worker::FeedFetch;

fn feed_doc(items: &str) -> Vec<u8> {
    format!(
        "<?xml version=\"1.0\"?><rss version=\"2.0\"><channel>\
         <title>Example</title><link>https://example.test</link>\
         <description>example feed</description>{}</channel></rss>",
        items
    )
    .into_bytes()
}

fn three_item_doc() -> Vec<u8> {
    feed_doc(
        "<item><title>one</title><link>https://a/1</link><guid>g1</guid></item>\
         <item><title>two</title><link>https://a/2</link><guid>g2</guid></item>\
         <item><title>three</title><link>https://a/3</link><guid>g3</guid></item>",
    )
}

fn candidate(
    title: Option<&str>,
    link: Option<&str>,
    pub_date: Option<i64>,
    guid: Option<&str>,
) -> CandidateItem {
    CandidateItem {
        title: title.map(|s| s.to_owned()),
        link: link.map(|s| s.to_owned()),
        pub_date,
        guid: guid.map(|s| s.to_owned()),
    }
}

#[test]
fn refresh_persists_then_refresh_is_idempotent() {
    let mut store = EntryStore::new();
    let doc = three_item_doc();
    let first = refresh_feed(&mut store, 1, &Some(doc.clone()));
    assert_eq!(first.unwrap(), 3);
    let second = refresh_feed(&mut store, 1, &Some(doc));
    assert_eq!(second.unwrap(), 0);
    assert_eq!(store.num_entries(), 3);
    let rows = store.entries_for_feed(1);
    assert_eq!(rows.len(), 3);
    assert_eq!(rows[0].guid.as_deref(), Some("g1"));
    assert_eq!(rows[1].guid.as_deref(), Some("g2"));
    assert_eq!(rows[2].guid.as_deref(), Some("g3"));
}

#[test]
fn second_cycle_on_identical_content_adds_no_rows() {
    let mut store = EntryStore::new();
    let listing = Some(vec![FeedFetch { feed_id: 1, fetched: Some(three_item_doc()) }]);
    assert_eq!(run_cycle(&mut store, &listing).unwrap(), 3);
    assert_eq!(run_cycle(&mut store, &listing).unwrap(), 0);
    assert_eq!(store.entries_for_feed(1).len(), 3);
}

#[test]
fn fetch_failure_of_one_feed_leaves_others_persisted() {
    let mut store = EntryStore::new();
    let good = feed_doc(
        "<item><title>b1</title><guid>bg1</guid></item>\
         <item><title>b2</title><guid>bg2</guid></item>",
    );
    let listing = Some(vec![
        FeedFetch { feed_id: 1, fetched: None },
        FeedFetch { feed_id: 2, fetched: Some(good) },
    ]);
    assert_eq!(run_cycle(&mut store, &listing).unwrap(), 2);
    assert_eq!(store.entries_for_feed(1).len(), 0);
    assert_eq!(store.entries_for_feed(2).len(), 2);
}

#[test]
fn parse_failure_of_one_feed_leaves_others_persisted() {
    let mut store = EntryStore::new();
    let listing = Some(vec![
        FeedFetch { feed_id: 1, fetched: Some(b"broken".to_vec()) },
        FeedFetch { feed_id: 2, fetched: Some(three_item_doc()) },
    ]);
    assert_eq!(run_cycle(&mut store, &listing).unwrap(), 3);
    assert_eq!(store.entries_for_feed(1).len(), 0);
    assert_eq!(store.entries_for_feed(2).len(), 3);
}

#[test]
fn failed_listing_skips_the_cycle() {
    let mut store = EntryStore::new();
    let r = run_cycle(&mut store, &None);
    assert_eq!(r.unwrap_err(), IngestError::Registry);
    assert_eq!(store.num_entries(), 0);
}

#[test]
fn refresh_reports_fetch_failure_and_changes_nothing() {
    let mut store = EntryStore::new();
    let r = refresh_feed(&mut store, 7, &None);
    assert_eq!(r.unwrap_err(), IngestError::Fetch);
    assert_eq!(store.num_entries(), 0);
}

#[test]
fn refresh_reports_parse_failure_and_changes_nothing() {
    let mut store = EntryStore::new();
    let r = refresh_feed(&mut store, 7, &Some(b"<html></html>".to_vec()));
    assert_eq!(r.unwrap_err(), IngestError::Parse);
    assert_eq!(store.num_entries(), 0);
}

#[test]
fn guid_absent_link_present_is_still_persisted_and_deduped() {
    let mut store = EntryStore::new();
    let c = candidate(Some("no guid"), Some("https://a/only-link"), None, None);
    assert_eq!(store.insert_entry(1, &c), InsertOutcome::Inserted);
    assert_eq!(store.insert_entry(1, &c), InsertOutcome::Duplicate);
    let rows = store.entries_for_feed(1);
    assert_eq!(rows.len(), 1);
    assert_eq!(rows[0].link.as_deref(), Some("https://a/only-link"));
}

#[test]
fn distinct_links_without_guid_are_distinct_items() {
    let mut store = EntryStore::new();
    let a = candidate(Some("x"), Some("https://a/1"), None, None);
    let b = candidate(Some("x"), Some("https://a/2"), None, None);
    assert_eq!(store.insert_entry(1, &a), InsertOutcome::Inserted);
    assert_eq!(store.insert_entry(1, &b), InsertOutcome::Inserted);
    assert_eq!(store.num_entries(), 2);
}

#[test]
fn guid_takes_precedence_over_differing_title() {
    let mut store = EntryStore::new();
    let a = candidate(Some("old title"), Some("https://a/1"), None, Some("g"));
    let b = candidate(Some("new title"), Some("https://a/1"), None, Some("g"));
    assert_eq!(store.insert_entry(1, &a), InsertOutcome::Inserted);
    assert_eq!(store.insert_entry(1, &b), InsertOutcome::Duplicate);
    assert_eq!(store.num_entries(), 1);
}

#[test]
fn same_item_under_two_feeds_is_two_rows() {
    let mut store = EntryStore::new();
    let c = candidate(Some("shared"), None, None, Some("g"));
    assert_eq!(store.insert_entry(1, &c), InsertOutcome::Inserted);
    assert_eq!(store.insert_entry(2, &c), InsertOutcome::Inserted);
    assert_eq!(store.entries_for_feed(1).len(), 1);
    assert_eq!(store.entries_for_feed(2).len(), 1);
}

#[test]
fn interleaved_workers_produce_no_extra_rows() {
    // Two workers over the same extracted items, attempts interleaved.
    let items = vec![
        candidate(Some("one"), None, None, Some("g1")),
        candidate(Some("two"), None, None, Some("g2")),
    ];
    let mut store = EntryStore::new();
    // schedule: a0, b0, a1, b1
    assert_eq!(store.insert_entry(1, &items[0]), InsertOutcome::Inserted);
    assert_eq!(store.insert_entry(1, &items[0]), InsertOutcome::Duplicate);
    assert_eq!(store.insert_entry(1, &items[1]), InsertOutcome::Inserted);
    assert_eq!(store.insert_entry(1, &items[1]), InsertOutcome::Duplicate);
    assert_eq!(store.num_entries(), 2);
}

#[test]
fn registration_of_unparseable_url_fails_without_a_row() {
    let mut registry = FeedRegistry::new();
    let r = register_feed(
        &mut registry,
        "https://bad.test/feed.xml".to_owned(),
        "bad".to_owned(),
        &Some(b"surely not xml".to_vec()),
    );
    assert_eq!(r.unwrap_err(), IngestError::Parse);
    assert_eq!(registry.num_feeds(), 0);
}

#[test]
fn registration_with_failed_fetch_fails_without_a_row() {
    let mut registry = FeedRegistry::new();
    let r = register_feed(
        &mut registry,
        "https://down.test/feed.xml".to_owned(),
        "down".to_owned(),
        &None,
    );
    assert_eq!(r.unwrap_err(), IngestError::Fetch);
    assert_eq!(registry.num_feeds(), 0);
}

#[test]
fn registration_of_valid_feed_stores_it() {
    let mut registry = FeedRegistry::new();
    let f = register_feed(
        &mut registry,
        "https://a.test/feed.xml".to_owned(),
        "a".to_owned(),
        &Some(three_item_doc()),
    )
    .unwrap();
    assert_eq!(f.id, 1);
    assert_eq!(f.url, "https://a.test/feed.xml");
    assert_eq!(f.name, "a");
    assert_eq!(registry.num_feeds(), 1);
    let listed = registry.list_feeds();
    assert_eq!(listed.len(), 1);
    assert_eq!(listed[0].id, 1);
    assert_eq!(listed[0].url, "https://a.test/feed.xml");
}

#[test]
fn feed_ids_are_serial() {
    let mut registry = FeedRegistry::new();
    let doc = three_item_doc();
    let f1 = register_feed(&mut registry, "https://a".to_owned(), "a".to_owned(), &Some(doc.clone()))
        .unwrap();
    let f2 = register_feed(&mut registry, "https://b".to_owned(), "b".to_owned(), &Some(doc))
        .unwrap();
    assert_eq!(f1.id, 1);
    assert_eq!(f2.id, 2);
}

#[test]
fn entry_rows_carry_serial_ids_and_feed_id() {
    let mut store = EntryStore::new();
    let doc = three_item_doc();
    refresh_feed(&mut store, 5, &Some(doc)).unwrap();
    let rows = store.entries_for_feed(5);
    assert_eq!(store.entry_at(0).id, 1);
    assert_eq!(rows[0].id, 1);
    assert_eq!(rows[1].id, 2);
    assert_eq!(rows[2].id, 3);
    assert!(rows.iter().all(|r| r.feed_id == 5));
}

#[test]
fn extraction_failure_persists_no_partial_rows() {
    let mut store = EntryStore::new();
    // A document that parses puts rows in; then a broken one must not touch them.
    refresh_feed(&mut store, 1, &Some(three_item_doc())).unwrap();
    let _ = refresh_feed(&mut store, 1, &Some(b"<rss".to_vec()));
    assert_eq!(store.num_entries(), 3);
}
