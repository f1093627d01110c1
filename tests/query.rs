use mdblog::document::{DocumentSet, FrontMatter, Post};
use mdblog::query::{all_tags, has_tag, is_selected, listed_before, matches_text, query};
use mdblog::text::is_blank;

fn post(slug: &str, title: &str, date: &str, tags: Option<&[&str]>, body: &str) -> Post {
    Post {
        slug: slug.to_string(),
        frontmatter: FrontMatter {
            title: title.to_string(),
            date: date.to_string(),
            tags: tags.map(|t| t.iter().map(|s| s.to_string()).collect()),
        },
        content: body.to_string(),
        html: String::new(),
    }
}

fn slugs(r: &[&Post]) -> Vec<String> {
    r.iter().map(|p| p.slug.clone()).collect()
}

fn guides() -> DocumentSet {
    DocumentSet::from_parsed(vec![
        Some(post("a", "Rust Guide", "2024-02-01", Some(&["x"]), "")),
        Some(post("b", "Go Guide", "2024-01-01", Some(&["y"]), "")),
        Some(post("c", "Cooking", "2024-03-01", None, "pasta")),
    ])
}

#[test]
fn text_and_tag_filters_are_conjunctive() {
    let set = guides();
    assert_eq!(slugs(&query(&set, Some("guide"), Some("x"))), vec!["a"]);
    assert_eq!(slugs(&query(&set, Some("guide"), None)), vec!["a", "b"]);
}

#[test]
fn no_filters_lists_all_newest_first() {
    let set = guides();
    assert_eq!(slugs(&query(&set, None, None)), vec!["c", "a", "b"]);
    assert_eq!(slugs(&query(&set, Some("   "), Some(""))), vec!["c", "a", "b"]);
}

#[test]
fn text_filter_reads_body_case_insensitively() {
    let set = guides();
    assert_eq!(slugs(&query(&set, Some("PASTA"), None)), vec!["c"]);
    assert!(query(&set, Some("nothing"), None).is_empty());
}

#[test]
fn tag_filter_is_case_sensitive() {
    let set = guides();
    assert!(query(&set, None, Some("X")).is_empty());
    assert_eq!(slugs(&query(&set, None, Some("y"))), vec!["b"]);
}

#[test]
fn equal_dates_order_by_slug() {
    let set = DocumentSet::from_parsed(vec![
        Some(post("m", "M", "2024-01-01", None, "")),
        Some(post("b", "B", "2024-01-01", None, "")),
        Some(post("z", "Z", "2024-01-01", None, "")),
        Some(post("a", "A", "2023-12-31", None, "")),
    ]);
    let first = slugs(&query(&set, None, None));
    assert_eq!(first, vec!["b", "m", "z", "a"]);
    assert_eq!(slugs(&query(&set, None, None)), first);
}

#[test]
fn tags_are_distinct_and_sorted() {
    let set = DocumentSet::from_parsed(vec![
        Some(post("a", "A", "1", Some(&["rust", "web"]), "")),
        Some(post("b", "B", "2", Some(&["go", "rust"]), "")),
        Some(post("c", "C", "3", None, "")),
    ]);
    assert_eq!(all_tags(&set), vec!["go", "rust", "web"]);
    assert!(all_tags(&DocumentSet::new()).is_empty());
}

#[test]
fn text_match_on_lowercased_inputs() {
    assert!(matches_text("rust guide", "", "guide"));
    assert!(matches_text("", "a guide body", "guide"));
    assert!(!matches_text("rust", "go", "guide"));
    assert!(matches_text("x", "y", ""));
}

#[test]
fn tag_membership() {
    let tags = Some(vec!["a".to_string(), "b".to_string()]);
    assert!(has_tag(&tags, "b"));
    assert!(!has_tag(&tags, "c"));
    assert!(!has_tag(&None, "a"));
}

#[test]
fn selection_lowercases_query_and_title() {
    let p = post("a", "Rust GUIDE", "1", None, "");
    assert!(is_selected(&p, Some("gUiDe"), None));
    assert!(!is_selected(&p, Some("go"), None));
}

#[test]
fn blank_means_whitespace_only() {
    assert!(is_blank(""));
    assert!(is_blank(" \t\n"));
    assert!(!is_blank(" a "));
}

#[test]
fn listing_order_compares_date_then_slug() {
    let newer = post("z", "", "2024-02-01", None, "");
    let older = post("a", "", "2024-01-01", None, "");
    assert!(listed_before(&newer, &older));
    assert!(!listed_before(&older, &newer));
    let tie = post("b", "", "2024-01-01", None, "");
    assert!(listed_before(&older, &tie));
}
