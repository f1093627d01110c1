use mdblog::document::{DocumentSet, FrontMatter, Post};
use mdblog::store::Store;

fn post(slug: &str, title: &str, date: &str) -> Post {
    Post {
        slug: slug.to_string(),
        frontmatter: FrontMatter { title: title.to_string(), date: date.to_string(), tags: None },
        content: String::new(),
        html: String::new(),
    }
}

#[test]
fn malformed_file_is_skipped() {
    let set = DocumentSet::from_parsed(vec![Some(post("good", "Good", "2024-01-01")), None]);
    assert_eq!(set.len(), 1);
    assert!(set.get(&"good".to_string()).is_some());
}

#[test]
fn later_document_wins_on_slug_collision() {
    let set = DocumentSet::from_parsed(vec![
        Some(post("a", "First", "2024-01-01")),
        Some(post("b", "Other", "2024-01-02")),
        Some(post("a", "Second", "2024-01-03")),
    ]);
    assert_eq!(set.len(), 2);
    assert_eq!(set.get(&"a".to_string()).unwrap().frontmatter.title, "Second");
}

#[test]
fn lookup_miss_is_none() {
    let set = DocumentSet::from_parsed(vec![Some(post("a", "A", "d"))]);
    assert!(set.get(&"zzz".to_string()).is_none());
    assert_eq!(DocumentSet::new().len(), 0);
}

#[test]
fn reload_twice_gives_same_content() {
    let make = || DocumentSet::from_parsed(vec![Some(post("x", "X", "1")), None, Some(post("y", "Y", "2"))]);
    let (a, b) = (make(), make());
    assert_eq!(a.len(), b.len());
    for slug in ["x", "y"] {
        let s = slug.to_string();
        assert_eq!(a.get(&s).unwrap().frontmatter.title, b.get(&s).unwrap().frontmatter.title);
    }
}

#[test]
fn replace_swaps_whole_snapshot() {
    let mut store = Store::new(DocumentSet::from_parsed(vec![
        Some(post("old1", "O1", "1")),
        Some(post("old2", "O2", "2")),
    ]));
    let held = store.get_all();
    store.replace(DocumentSet::from_parsed(vec![Some(post("new1", "N1", "3"))]));
    // a reader that took the old snapshot keeps all of it
    assert_eq!(held.len(), 2);
    assert!(held.get(&"old1".to_string()).is_some());
    // reads after the swap see only the new set
    let now = store.get_all();
    assert_eq!(now.len(), 1);
    assert!(store.get(&"new1".to_string()).is_some());
    assert!(store.get(&"old1".to_string()).is_none());
}
