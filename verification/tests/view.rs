use pimtron::types::PostConfig;
use pimtron::view::{
    article_html,
    clock_text, home_tiles, is_online, post_path, requested_slug, stored_theme_is_dark,
    theme_label, theme_name, FpsCounter,
};

fn config(slug: &str) -> PostConfig {
    PostConfig {
        title: slug.to_string(),
        date: String::new(),
        slug: slug.to_string(),
        summary: String::new(),
        projects: vec![],
    }
}

#[test]
fn post_links() {
    assert_eq!(post_path("lift-off"), "/blog/lift-off");
}

#[test]
fn home_tiles_take_latest_and_three_recent() {
    let posts: Vec<PostConfig> = ["a", "b", "c", "d", "e"].iter().map(|s| config(s)).collect();
    let (latest, recent) = home_tiles(&posts);
    assert_eq!(latest.unwrap().slug, "a");
    let slugs: Vec<&str> = recent.iter().map(|p| p.slug.as_str()).collect();
    assert_eq!(slugs, vec!["b", "c", "d"]);
    let none: Vec<PostConfig> = vec![];
    let (latest, recent) = home_tiles(&none);
    assert!(latest.is_none());
    assert!(recent.is_empty());
    let two = vec![config("x"), config("y")];
    assert_eq!(home_tiles(&two).1.len(), 1);
}

#[test]
fn clock_pads_to_two_digits() {
    assert_eq!(clock_text(9, 5, 0), "09:05:00");
    assert_eq!(clock_text(23, 59, 59), "23:59:59");
    assert_eq!(clock_text(123, 0, 7), "123:00:07");
    assert_eq!(clock_text(7, 8, 9), format!("{:02}:{:02}:{:02}", 7, 8, 9));
}

#[test]
fn project_status() {
    assert!(is_online("ONLINE"));
    assert!(!is_online("online"));
}

#[test]
fn themes() {
    assert!(stored_theme_is_dark(Some("dark")));
    assert!(!stored_theme_is_dark(Some("light")));
    assert!(!stored_theme_is_dark(None));
    assert_eq!(theme_name(true), "dark");
    assert_eq!(theme_name(false), "light");
    assert_eq!(theme_label(true), "[ ☾ DARK ]");
    assert_eq!(theme_label(false), "[ ☀ LIGHT ]");
}

#[test]
fn post_slug_from_address() {
    assert_eq!(requested_slug(Some("x".into())), Some("x".to_string()));
    assert_eq!(requested_slug(Some(String::new())), None);
    assert_eq!(requested_slug(None), None);
}

#[test]
fn fps_counter_reports_once_a_second() {
    let mut c = FpsCounter::new();
    assert_eq!(c.frame(false), None);
    assert_eq!(c.frame(false), None);
    assert_eq!(c.frame(true), Some(3));
    assert_eq!(c.frames, 0);
    assert_eq!(c.frame(true), Some(1));
}

#[test]
fn article_content_is_rendered() {
    assert_eq!(article_html("**bold**"), "<p><strong>bold</strong></p>\n");
}
