use pimtron::embedded::{get_all_posts, get_post_by_slug, get_post_image, EmbeddedFile, PostConfig};

fn entry(slug: &str, date: &str) -> (PostConfig, String) {
    (
        PostConfig {
            title: slug.to_uppercase(),
            date: date.to_string(),
            slug: slug.to_string(),
            summary: String::new(),
        },
        format!("content of {slug}"),
    )
}

#[test]
fn bundled_posts_order_by_day_month_year() {
    let posts = get_all_posts(vec![
        entry("a", "05-01-2024"),
        entry("b", "01-12-2023"),
        entry("c", "31-01-2024"),
        entry("d", "2024"),
    ]);
    let slugs: Vec<&str> = posts.iter().map(|p| p.slug.as_str()).collect();
    // "2024" sorts as text above "2023-12-01".
    assert_eq!(slugs, vec!["c", "a", "d", "b"]);
    assert_eq!(posts[0].content, "content of c");
}

#[test]
fn bundled_post_by_slug() {
    let posts = get_all_posts(vec![entry("a", "01-01-2020"), entry("b", "01-01-2021")]);
    assert_eq!(get_post_by_slug(posts.clone(), "a").unwrap().title, "A");
    assert!(get_post_by_slug(posts, "z").is_none());
}

#[test]
fn images_become_data_urls() {
    let files = vec![
        EmbeddedFile { path: "img/cat.PNG".to_string(), contents: b"Man".to_vec() },
        EmbeddedFile { path: "notes".to_string(), contents: b"hi".to_vec() },
    ];
    assert_eq!(get_post_image("./img/cat.PNG", &files).unwrap(), "data:image/png;base64,TWFu");
    assert_eq!(get_post_image("/img/cat.PNG", &files).unwrap(), "data:image/png;base64,TWFu");
    assert_eq!(get_post_image("notes", &files).unwrap(), "data:application/octet-stream;base64,aGk=");
    assert!(get_post_image("img/dog.png", &files).is_none());
}
