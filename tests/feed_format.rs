use news_digest::{feed_entries, find_between, find_element, item_ranges};

const FEED: &str = "<?xml version=\"1.0\"?><rss><channel><title>Channel</title>\
<item><title><![CDATA[Port <b>news</b>]]></title><link>https://example.com/1</link>\
<pubDate>Mon, 01 Jan 2024 09:00:00 GMT</pubDate>\
<source url=\"https://daily.example.com\">Daily</source>\
<description>Cargo &amp; ships</description></item>\
<item><title>Second</title><link>https://example.com/2</link></item>\
</channel></rss>";

fn text(body: &str, r: Option<(usize, usize)>) -> Option<&str> {
    r.and_then(|(a, b)| body.get(a..b))
}

#[test]
fn feed_items_are_read_in_order() {
    let entries = feed_entries(FEED.as_bytes());
    assert_eq!(entries.len(), 2);
    assert_eq!(text(FEED, entries[0].title), Some("Port <b>news</b>"));
    assert_eq!(text(FEED, entries[0].link), Some("https://example.com/1"));
    assert_eq!(text(FEED, entries[0].published_at), Some("Mon, 01 Jan 2024 09:00:00 GMT"));
    assert_eq!(text(FEED, entries[0].source_label), Some("Daily"));
    assert_eq!(text(FEED, entries[0].description), Some("Cargo &amp; ships"));
    assert_eq!(text(FEED, entries[1].title), Some("Second"));
    assert_eq!(text(FEED, entries[1].link), Some("https://example.com/2"));
}

#[test]
fn missing_fields_are_none() {
    let entries = feed_entries(FEED.as_bytes());
    assert_eq!(entries[1].published_at, None);
    assert_eq!(entries[1].source_label, None);
    assert_eq!(entries[1].description, None);
}

#[test]
fn channel_title_is_not_an_item_title() {
    let body = "<rss><channel><title>Only channel</title></channel></rss>";
    assert!(feed_entries(body.as_bytes()).is_empty());
}

#[test]
fn empty_and_unterminated_feeds_have_no_items() {
    assert!(feed_entries(b"").is_empty());
    assert!(feed_entries(b"<item><title>x</title>").is_empty());
}

#[test]
fn item_ranges_cover_block_contents() {
    let body = "<item>A</item><item>BC</item>";
    assert_eq!(item_ranges(body.as_bytes()), vec![(6, 7), (20, 22)]);
}

#[test]
fn longer_tag_names_are_not_taken_for_shorter() {
    let body = "<titles>no</titles><title>yes</title>";
    assert_eq!(find_element(body.as_bytes(), b"title", 0, body.len()), Some((26, 29)));
}

#[test]
fn find_between_respects_the_window() {
    let s = b"abcabc";
    assert_eq!(find_between(s, b"abc", 0, 6), Some(0));
    assert_eq!(find_between(s, b"abc", 1, 6), Some(3));
    assert_eq!(find_between(s, b"abc", 1, 5), None);
    assert_eq!(find_between(s, b"x", 0, 6), None);
}
