use pimtron::generate::{highlight_code, json_file_name, page_kind, page_post, prepare_posts, MdEvent, PageKind};
use pimtron::types::{PostConfig, ProjectItem};

const THEME: &str = r#"<?xml version="1.0" encoding="UTF-8"?>
<!DOCTYPE plist PUBLIC "-//Apple//DTD PLIST 1.0//EN" "http://www.apple.com/DTDs/PropertyList-1.0.dtd">
<plist version="1.0">
<dict>
    <key>name</key>
    <string>Test</string>
    <key>settings</key>
    <array>
        <dict>
            <key>settings</key>
            <dict>
                <key>background</key>
                <string>#191724</string>
                <key>foreground</key>
                <string>#e0def4</string>
            </dict>
        </dict>
        <dict>
            <key>scope</key>
            <string>keyword, storage</string>
            <key>settings</key>
            <dict>
                <key>foreground</key>
                <string>#31748f</string>
            </dict>
        </dict>
    </array>
</dict>
</plist>
"#;

fn config(slug: &str, date: &str) -> PostConfig {
    PostConfig {
        title: slug.to_string(),
        date: date.to_string(),
        slug: slug.to_string(),
        summary: String::new(),
        projects: vec![ProjectItem {
            name: "p".into(),
            desc: String::new(),
            tech: vec![],
            link: String::new(),
            status: String::new(),
        }],
    }
}

#[test]
fn source_files_are_classified() {
    assert_eq!(page_kind("AboutMe.md"), PageKind::About);
    assert_eq!(page_kind("Projects.md"), PageKind::Projects);
    assert_eq!(page_kind("01-lift-off.md"), PageKind::Article);
}

#[test]
fn output_files_are_named() {
    assert_eq!(json_file_name(PageKind::About, "x"), "about.json");
    assert_eq!(json_file_name(PageKind::Projects, "x"), "projects.json");
    assert_eq!(json_file_name(PageKind::Article, "lift-off"), "lift-off.json");
}

#[test]
fn only_the_projects_page_keeps_projects() {
    let p = page_post(config("a", "d"), "<p>x</p>".into(), PageKind::Projects);
    assert_eq!(p.projects.len(), 1);
    assert_eq!(p.content, "<p>x</p>");
    let p = page_post(config("a", "d"), String::new(), PageKind::Article);
    assert!(p.projects.is_empty());
}

#[test]
fn sources_are_sorted_then_dated() {
    let out = prepare_posts(vec![
        (config("old", "2024-05-01"), "o".into()),
        (config("new", "2025-12-30"), "n".into()),
        (config("odd", "someday"), "s".into()),
    ]);
    let got: Vec<(&str, &str, &str)> =
        out.iter().map(|(c, b)| (c.slug.as_str(), c.date.as_str(), b.as_str())).collect();
    assert_eq!(
        got,
        vec![("odd", "someday", "s"), ("new", "December 30, 2025", "n"), ("old", "May 01, 2024", "o")]
    );
}

#[test]
fn code_blocks_become_single_html_events() {
    let events = vec![
        MdEvent::Other(0),
        MdEvent::Text("before".into()),
        MdEvent::CodeBlockStart(Some("rust".into())),
        MdEvent::Text("fn main() {}".into()),
        MdEvent::Text("\n".into()),
        MdEvent::CodeBlockEnd,
        MdEvent::CodeBlockEnd,
        MdEvent::Other(7),
    ];
    let out = highlight_code(events, THEME);
    assert_eq!(out.len(), 4);
    assert_eq!(out[0], MdEvent::Other(0));
    assert_eq!(out[1], MdEvent::Text("before".into()));
    match &out[2] {
        MdEvent::Html(h) => {
            assert!(h.starts_with("<pre style=\"background-color:#191724;\">"), "{h}");
            assert!(h.contains("color:#31748f;\">fn </span>"), "{h}");
            assert!(!h.contains("<code>"));
        }
        other => panic!("expected html, got {other:?}"),
    }
    assert_eq!(out[3], MdEvent::Other(7));
}

#[test]
fn unknown_language_keeps_the_one_in_force() {
    let events = vec![
        MdEvent::CodeBlockStart(Some("rust".into())),
        MdEvent::Text("fn a() {}\n".into()),
        MdEvent::CodeBlockEnd,
        MdEvent::CodeBlockStart(Some("no-such-language".into())),
        MdEvent::Text("fn b() {}\n".into()),
        MdEvent::CodeBlockEnd,
    ];
    let out = highlight_code(events, THEME);
    match &out[1] {
        MdEvent::Html(h) => assert!(h.contains("color:#31748f;\">fn </span>"), "{h}"),
        other => panic!("expected html, got {other:?}"),
    }
    let plain = highlight_code(
        vec![MdEvent::CodeBlockStart(None), MdEvent::Text("fn c() {}\n".into()), MdEvent::CodeBlockEnd],
        THEME,
    );
    match &plain[0] {
        MdEvent::Html(h) => assert!(!h.contains("#31748f"), "{h}"),
        other => panic!("expected html, got {other:?}"),
    }
}

#[test]
fn failed_highlighting_falls_back_to_plain_code() {
    let events = vec![
        MdEvent::CodeBlockStart(Some("rust".into())),
        MdEvent::Text("let x = 1;\n".into()),
        MdEvent::CodeBlockEnd,
    ];
    let out = highlight_code(events, "not a theme");
    assert_eq!(out, vec![MdEvent::Html("<pre><code>let x = 1;\n</code></pre>".into())]);
}

#[test]
fn markdown_renders_with_highlighted_code() {
    let html = pimtron::generate::markdown_to_html("# Title\n\n```rust\nlet x = 1;\n```\n\nAfter.\n", THEME);
    assert!(html.starts_with("<h1>Title</h1>\n"));
    assert!(html.ends_with("<p>After.</p>\n"));
    assert!(!html.contains("<code class=\"language-rust\">"));
    assert!(html.contains("background-color:#191724;"));
    let plain = pimtron::generate::markdown_to_html("Just *text*.", THEME);
    assert_eq!(plain, "<p>Just <em>text</em>.</p>\n");
}
