use pimtron::records::{extract_leaflet_text, find_post, list_posts, strip_tid_prefix};
use pimtron::types::{AtprotoRecord, JsonValue, StandardDocument};

fn obj(members: Vec<(&str, JsonValue)>) -> JsonValue {
    JsonValue::Object(members.into_iter().map(|(k, v)| (k.to_string(), v)).collect())
}

fn text(t: &str) -> JsonValue {
    JsonValue::Text(t.to_string())
}

fn record(uri: &str, path: &str, title: &str, published: &str) -> AtprotoRecord {
    AtprotoRecord {
        uri: uri.to_string(),
        value: StandardDocument {
            title: title.to_string(),
            description: format!("about {title}"),
            path: path.to_string(),
            published_at: published.to_string(),
            text_content: format!("# {title}"),
            content: None,
        },
    }
}

#[test]
fn strips_record_key_prefix() {
    assert_eq!(strip_tid_prefix("3mm7vpa7rt223-slug"), "slug");
    assert_eq!(strip_tid_prefix("3mm7vpa7rt223-"), "3mm7vpa7rt223-");
    assert_eq!(strip_tid_prefix("3mm7vpa7rt22_-slug"), "3mm7vpa7rt22_-slug");
    assert_eq!(strip_tid_prefix("plain-slug"), "plain-slug");
    assert_eq!(strip_tid_prefix("3mm7vpa7rt223-é"), "é");
    assert_eq!(strip_tid_prefix("é3mm7vpa7rt2-slug"), "é3mm7vpa7rt2-slug");
}

#[test]
fn leaflet_text_joins_block_texts() {
    let content = obj(vec![(
        "pages",
        JsonValue::Array(vec![
            obj(vec![(
                "blocks",
                JsonValue::Array(vec![
                    obj(vec![("block", obj(vec![("plaintext", text("First"))]))]),
                    obj(vec![("block", obj(vec![("image", text("x"))]))]),
                    obj(vec![("block", obj(vec![("plaintext", JsonValue::Number("3".into()))]))]),
                    obj(vec![("block", obj(vec![("plaintext", text("Second"))]))]),
                ]),
            )]),
            obj(vec![("blocks", JsonValue::Array(vec![obj(vec![("block", obj(vec![("plaintext", text("Later page"))]))])]))]),
        ]),
    )]);
    assert_eq!(extract_leaflet_text(&content), "First\n\nSecond\n\n");
}

#[test]
fn leaflet_text_is_empty_without_pages() {
    assert_eq!(extract_leaflet_text(&JsonValue::Null), "");
    assert_eq!(extract_leaflet_text(&obj(vec![("pages", JsonValue::Array(vec![]))])), "");
    assert_eq!(extract_leaflet_text(&obj(vec![("pages", text("no"))])), "");
}

#[test]
fn post_list_skips_special_pages_and_orders_by_shown_date() {
    let records = vec![
        record("at://did/c/aaa", "/blog/first", "First", "2025-12-30T10:00:00Z"),
        record("at://did/c/aboutme", "/about", "About", "2026-01-01T00:00:00Z"),
        record("at://did/c/bbb", "/PROJECTS", "Projects", "2026-01-01T00:00:00Z"),
        record("at://did/c/ccc", "", "Keyed", "2026-01-05T23:30:00-05:00"),
        record("at://did/c/ddd", "/blog/second", "Second", "not a date"),
    ];
    let list = list_posts(&records);
    let slugs: Vec<&str> = list.iter().map(|p| p.slug.as_str()).collect();
    assert_eq!(slugs, vec!["second", "ccc", "first"]);
    assert_eq!(list[0].date, "not a date");
    assert_eq!(list[1].date, "January 05, 2026");
    assert_eq!(list[2].date, "December 30, 2025");
    assert_eq!(list[2].title, "First");
    assert_eq!(list[2].summary, "about First");
}

#[test]
fn finds_post_by_slug_rkey_or_prefixed_path() {
    let records = vec![
        record("at://did/c/r1", "/3mm7vpa7rt223-hello", "Hello", "2025-01-02T03:04:05+00:00"),
        record("at://did/c/r2", "/other", "Other", "x"),
    ];
    let p = find_post(&records, "hello").unwrap();
    assert_eq!(p.title, "Hello");
    assert_eq!(p.slug, "hello");
    assert_eq!(p.date, "January 02, 2025");
    assert_eq!(p.content, "<h1>Hello</h1>\n");
    assert_eq!(find_post(&records, "r2").unwrap().title, "Other");
    assert_eq!(find_post(&records, "3mm7vpa7rt223-hello").unwrap().title, "Hello");
    assert!(find_post(&records, "missing").is_none());
}

#[test]
fn post_falls_back_to_leaflet_content() {
    let mut r = record("at://did/c/r1", "/leaf", "Leaf", "x");
    r.value.text_content = String::new();
    r.value.content = Some(obj(vec![(
        "pages",
        JsonValue::Array(vec![obj(vec![(
            "blocks",
            JsonValue::Array(vec![obj(vec![("block", obj(vec![("plaintext", text("Hi there"))]))])]),
        )])]),
    )]));
    let p = find_post(&[r].into_iter().collect(), "leaf").unwrap();
    assert_eq!(p.content, "<p>Hi there</p>\n");
}
