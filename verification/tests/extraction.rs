use artemis::errors::IngestError;
use artemis::item::extract_items;

fn feed_doc(items: &str) -> Vec<u8> {
    format!(
        "<?xml version=\"1.0\"?><rss version=\"2.0\"><channel>\
         <title>Example</title><link>https://example.test</link>\
         <description>example feed</description>{}</channel></rss>",
        items
    )
    .into_bytes()
}

#[test]
fn extracts_items_in_document_order() {
    let doc = feed_doc(
        "<item><title>first</title><link>https://a/1</link><guid>g1</guid></item>\
         <item><title>second</title><link>https://a/2</link><guid>g2</guid></item>\
         <item><title>third</title><link>https://a/3</link><guid>g3</guid></item>",
    );
    let items = extract_items(&doc).unwrap();
    assert_eq!(items.len(), 3);
    assert_eq!(items[0].title.as_deref(), Some("first"));
    assert_eq!(items[0].link.as_deref(), Some("https://a/1"));
    assert_eq!(items[0].guid.as_deref(), Some("g1"));
    assert_eq!(items[1].guid.as_deref(), Some("g2"));
    assert_eq!(items[2].guid.as_deref(), Some("g3"));
}

#[test]
fn valid_rfc2822_date_becomes_utc_micros() {
    let doc = feed_doc(
        "<item><title>dated</title>\
         <pubDate>Mon, 01 Jan 2024 00:00:00 +0000</pubDate></item>",
    );
    let items = extract_items(&doc).unwrap();
    assert_eq!(items.len(), 1);
    assert_eq!(items[0].pub_date, Some(1_704_067_200_000_000));
}

#[test]
fn offset_date_is_normalized_to_utc() {
    let doc = feed_doc(
        "<item><title>offset</title>\
         <pubDate>Mon, 01 Jan 2024 01:00:00 +0100</pubDate></item>",
    );
    let items = extract_items(&doc).unwrap();
    assert_eq!(items[0].pub_date, Some(1_704_067_200_000_000));
}

#[test]
fn malformed_date_is_absent_but_item_survives() {
    let doc = feed_doc(
        "<item><title>kept</title><link>https://a/x</link>\
         <pubDate>yesterday evening</pubDate></item>",
    );
    let items = extract_items(&doc).unwrap();
    assert_eq!(items.len(), 1);
    assert_eq!(items[0].pub_date, None);
    assert_eq!(items[0].title.as_deref(), Some("kept"));
    assert_eq!(items[0].link.as_deref(), Some("https://a/x"));
}

#[test]
fn missing_date_is_absent() {
    let doc = feed_doc("<item><title>undated</title></item>");
    let items = extract_items(&doc).unwrap();
    assert_eq!(items[0].pub_date, None);
}

#[test]
fn missing_fields_are_none() {
    let doc = feed_doc("<item><title>bare</title></item>");
    let items = extract_items(&doc).unwrap();
    assert_eq!(items[0].link, None);
    assert_eq!(items[0].guid, None);
}

#[test]
fn garbage_bytes_are_a_parse_error() {
    let doc = b"this is not a feed document".to_vec();
    let r = extract_items(&doc);
    assert_eq!(r.unwrap_err(), IngestError::Parse);
}

#[test]
fn channel_without_items_extracts_nothing() {
    let doc = feed_doc("");
    let items = extract_items(&doc).unwrap();
    assert_eq!(items.len(), 0);
}
