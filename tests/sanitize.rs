use news_digest::{remove_html_tags, NewsItem};

#[test]
fn removes_tags_and_decodes_entities() {
    assert_eq!(remove_html_tags("<b>해운</b> &amp; 물류"), "해운 & 물류");
}

#[test]
fn sanitize_twice_is_sanitize_once() {
    let inputs = [
        "<b>해운</b> &amp; 물류",
        "plain text",
        "<p class=\"x\">a</p><br/>b",
        "x < y",
        "",
    ];
    for s in inputs {
        let once = remove_html_tags(s);
        assert_eq!(remove_html_tags(&once), once);
    }
}

#[test]
fn text_without_markup_is_unchanged() {
    assert_eq!(remove_html_tags("no markup here"), "no markup here");
    assert_eq!(remove_html_tags(""), "");
}

#[test]
fn unterminated_open_bracket_is_kept() {
    assert_eq!(remove_html_tags("a < b"), "a < b");
    assert_eq!(remove_html_tags("x<b>y<z"), "xy<z");
}

#[test]
fn tag_ends_at_first_close() {
    assert_eq!(remove_html_tags("<<b>>"), ">");
    assert_eq!(remove_html_tags("a<b c>d<e>f"), "adf");
}

#[test]
fn entity_inside_tag_is_not_exposed() {
    assert_eq!(remove_html_tags("<a title=\"&lt;\">link</a>"), "link");
}

#[test]
fn numeric_and_named_entities_are_decoded() {
    assert_eq!(remove_html_tags("it&#39;s &quot;new&quot; &#x41;"), "it's \"new\" A");
}

#[test]
fn unknown_entity_passes_through() {
    assert_eq!(remove_html_tags("a &notanentity; b"), "a &notanentity; b");
}

#[test]
fn decoded_brackets_are_not_removed_as_tags() {
    assert_eq!(remove_html_tags("&lt;b&gt;bold"), "<b>bold");
}

#[test]
fn cleaned_item_sanitizes_title_and_description() {
    let item = NewsItem {
        title: "<b>Port</b> &amp; ship".to_string(),
        link: "https://example.com/a".to_string(),
        published_at: "Mon, 01 Jan 2024 00:00:00 +0900".to_string(),
        source_label: Some("Daily".to_string()),
        description: Some("<i>cargo</i> rates".to_string()),
    };
    let clean = item.cleaned();
    assert_eq!(clean.title, "Port & ship");
    assert_eq!(clean.description, Some("cargo rates".to_string()));
    assert_eq!(clean.link, item.link);
    assert_eq!(clean.published_at, item.published_at);
    assert_eq!(clean.source_label, item.source_label);
}
