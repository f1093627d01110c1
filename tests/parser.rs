use mdblog::document::FrontMatter;
use mdblog::parser::{assemble_post, front_matter, post_slug, split_source};

#[test]
fn split_needs_two_delimiters() {
    assert!(split_source("no metadata here").is_none());
    assert!(split_source("---\ntitle: T\n").is_none());
    assert!(split_source("").is_none());
}

#[test]
fn split_takes_metadata_and_trimmed_body() {
    let parts = split_source("---\ntitle: T\n---\n\n  # H\n\nbody  \n").unwrap();
    assert_eq!(parts.meta, "\ntitle: T\n");
    assert_eq!(parts.body, "# H\n\nbody");
}

#[test]
fn split_keeps_later_delimiters_in_body() {
    let parts = split_source("pre---a---b---c").unwrap();
    assert_eq!(parts.meta, "a");
    assert_eq!(parts.body, "b---c");
}

#[test]
fn split_does_not_overlap_delimiters() {
    // "----" holds one delimiter and a dash; the second needs three more dashes.
    assert!(split_source("----").is_none());
    let parts = split_source("------").unwrap();
    assert_eq!(parts.meta, "");
    assert_eq!(parts.body, "");
}

#[test]
fn slug_from_markdown_file_names() {
    assert_eq!(post_slug("hello.md"), Some("hello".to_string()));
    assert_eq!(post_slug("a.b.md"), Some("a.b".to_string()));
    assert_eq!(post_slug(".md"), None);
    assert_eq!(post_slug("notes.txt"), None);
    assert_eq!(post_slug("md"), None);
}

#[test]
fn front_matter_requires_title_and_date() {
    assert!(front_matter(None, Some("2024-01-01".to_string()), None).is_none());
    assert!(front_matter(Some("T".to_string()), None, None).is_none());
    let f = front_matter(Some("T".to_string()), Some("2024-01-01".to_string()), None).unwrap();
    assert_eq!(f.title, "T");
    assert_eq!(f.date, "2024-01-01");
    assert!(f.tags.is_none());
}

#[test]
fn round_trip_renders_heading_and_paragraph() {
    let raw = "---\ntitle: \"T\"\ndate: \"2024-01-01\"\ntags: [a, b]\n---\n# H\n\nbody";
    let parts = split_source(raw).unwrap();
    let fm = front_matter(
        Some("T".to_string()),
        Some("2024-01-01".to_string()),
        Some(vec!["a".to_string(), "b".to_string()]),
    )
    .unwrap();
    let post = assemble_post("t".to_string(), fm, parts.body);
    assert_eq!(post.content, "# H\n\nbody");
    assert!(post.html.contains("<h1>H</h1>"));
    assert!(post.html.contains("<p>body</p>"));
    assert_eq!(post.frontmatter.tags, Some(vec!["a".to_string(), "b".to_string()]));
}

#[test]
fn rendering_is_repeatable() {
    let fm = FrontMatter { title: "T".to_string(), date: "d".to_string(), tags: None };
    let a = assemble_post("x".to_string(), fm.clone(), "*em*".to_string());
    let b = assemble_post("x".to_string(), fm, "*em*".to_string());
    assert_eq!(a.html, b.html);
    assert!(a.html.contains("<em>em</em>"));
}
