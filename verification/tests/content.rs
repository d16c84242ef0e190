use pimtron::content::{parse_embedded_post, parse_frontmatter, parse_projects, parse_projects_page};

#[test]
fn frontmatter_reads_known_keys_and_long_dates() {
    let fm = parse_frontmatter(
        "title: Lift Off! About this Site\ndate: 2025-12-30\nslug: lift-off\nsummary: \"I talk about it\"\nother: ignored\n",
    );
    assert_eq!(fm.title, "Lift Off! About this Site");
    assert_eq!(fm.date, "December 30, 2025");
    assert_eq!(fm.slug, "lift-off");
    assert_eq!(fm.summary, "I talk about it");
}

#[test]
fn frontmatter_keeps_dates_that_are_not_iso() {
    let fm = parse_frontmatter("date: 30-12-2025\n");
    assert_eq!(fm.date, "30-12-2025");
    let fm = parse_frontmatter("date: 2025-02-30");
    assert_eq!(fm.date, "2025-02-30");
}

#[test]
fn frontmatter_later_lines_win_and_keys_are_trimmed() {
    let fm = parse_frontmatter("  title : First\ntitle: 'Second'\nno colon here\n");
    assert_eq!(fm.title, "Second");
    assert_eq!(fm.slug, "");
}

#[test]
fn frontmatter_pads_day_and_year() {
    let fm = parse_frontmatter("date: 0987-03-05");
    assert_eq!(fm.date, "March 05, 0987");
}

#[test]
fn embedded_post_uses_front_matter() {
    let raw = "---\ntitle: Hello\nslug: hi\ndate: 2024-01-02\nsummary: S\n---\n# Heading\n\nBody text.\n";
    let post = parse_embedded_post(raw, "Default", "default");
    assert_eq!(post.title, "Hello");
    assert_eq!(post.slug, "hi");
    assert_eq!(post.date, "January 02, 2024");
    assert_eq!(post.summary, "S");
    assert_eq!(post.content, "<h1>Heading</h1>\n<p>Body text.</p>\n");
    assert!(post.projects.is_empty());
}

#[test]
fn embedded_post_without_front_matter_uses_defaults() {
    let raw = "Just *text*.";
    let post = parse_embedded_post(raw, "About Me", "aboutme");
    assert_eq!(post.title, "About Me");
    assert_eq!(post.slug, "aboutme");
    assert_eq!(post.date, "");
    assert_eq!(post.content, "<p>Just <em>text</em>.</p>\n");
}

#[test]
fn embedded_post_with_one_delimiter_is_all_body() {
    let raw = "intro\n---\ntitle: X\n";
    let post = parse_embedded_post(raw, "D", "d");
    assert_eq!(post.title, "D");
    assert_eq!(post.content, "<h2>intro</h2>\n<p>title: X</p>\n");
}

#[test]
fn projects_are_read_from_the_list() {
    let fm = "\ntitle: Projects\nprojects:\n  - name: \"Pimtron\"\n    desc: 'My site'\n    tech: [\"Rust\", Leptos , '', WASM]\n    link: https://example.com\n    status: ONLINE\n  - name: Other\n    unknown: x\n    status: OFFLINE\nsummary: after\n  - name: Ignored\n";
    let projects = parse_projects(fm);
    assert_eq!(projects.len(), 2);
    assert_eq!(projects[0].name, "Pimtron");
    assert_eq!(projects[0].desc, "My site");
    assert_eq!(projects[0].tech, vec!["Rust", "Leptos", "WASM"]);
    assert_eq!(projects[0].link, "https://example.com");
    assert_eq!(projects[0].status, "ONLINE");
    assert_eq!(projects[1].name, "Other");
    assert_eq!(projects[1].desc, "");
    assert_eq!(projects[1].status, "OFFLINE");
}

#[test]
fn no_projects_without_the_key() {
    assert!(parse_projects("title: x\n- name: y\n").is_empty());
}

#[test]
fn projects_page_carries_projects() {
    let raw = "---\nprojects:\n- name: A\n  tech: [x]\n---\nText\n";
    let page = parse_projects_page(raw);
    assert_eq!(page.title, "PROJECT ARCHIVES");
    assert_eq!(page.slug, "projects");
    assert_eq!(page.projects.len(), 1);
    assert_eq!(page.projects[0].name, "A");
    assert_eq!(page.projects[0].tech, vec!["x"]);
    assert_eq!(page.content, "<p>Text</p>\n");
}

#[test]
fn long_dates_write_years_as_chrono_does() {
    assert_eq!(parse_frontmatter("date: 2024-02-29").date, "February 29, 2024");
    assert_eq!(parse_frontmatter("date: 2023-02-29").date, "2023-02-29");
    assert_eq!(parse_frontmatter("date: 0005-11-09").date, "November 09, 0005");
    let far = parse_frontmatter("date: +12345-07-01").date;
    assert!(far == "July 01, +12345" || far == "+12345-07-01", "{far}");
    let before = parse_frontmatter("date: -0001-12-31").date;
    assert!(before == "December 31, -0001" || before == "-0001-12-31", "{before}");
}

#[test]
fn lines_before_front_matter_change_no_projects() {
    let fm = "projects:\n  - name: A\n    tech: [x, y]\n";
    let x = "title: Projects\r\nsummary: things\r";
    assert_eq!(parse_projects(&format!("{}\n{}", x, fm)), parse_projects(fm));
    assert_eq!(parse_projects(&format!("{}\n{}", "", fm)).len(), 1);
}

#[test]
fn a_top_level_key_ends_the_project_list() {
    let a = "projects:\n  - name: A\n    desc: first\r";
    let b = "  - name: B\nprojects:\n  - name: C\n";
    let all = parse_projects(&format!("{}\n{}\n{}", a, "summary: done", b));
    assert_eq!(all, parse_projects(a));
    assert_eq!(all.len(), 1);
    assert_eq!(all[0].desc, "first");
}
