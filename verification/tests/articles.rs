use blog::articles::{comes_before, is_article_file, is_markdown, sort_articles, Article, DEFAULT_DATE};
use blog::header::Header;

fn article(name: &str, date: Option<&str>) -> Article {
    let mut header = Header::new();
    if let Some(date) = date {
        header.insert("Date".to_string(), date.to_string());
    }
    Article::new(name.to_string(), header)
}

#[test]
fn article_takes_its_date_from_the_header() {
    let a = article("a.md", Some("2024-03-01"));
    assert_eq!(a.date, "2024-03-01");
    assert_eq!(a.name, "a.md");
    assert_eq!(a.header.get("Date").map(|s| s.as_str()), Some("2024-03-01"));
}

#[test]
fn article_without_date_gets_the_default() {
    let a = article("b.md", None);
    assert_eq!(a.date, "31005-12-01");
    assert_eq!(a.date, DEFAULT_DATE);
    assert!(a.header.is_empty());
}

#[test]
fn markdown_names() {
    assert!(is_markdown("post.md", false));
    assert!(is_markdown(".md", false));
    assert!(is_markdown("post.md", true));
    assert!(is_markdown("draft.md.wip", true));
    assert!(!is_markdown("draft.md.wip", false));
    assert!(!is_markdown("post.markdown", true));
    assert!(!is_markdown("md", true));
    assert!(!is_markdown("", true));
    assert!(!is_markdown("post.md ", false));
    assert!(!is_markdown("POST.MD", false));
}

#[test]
fn article_files_are_markdown_files_whatever_the_case() {
    assert!(is_article_file("post.md", true, false));
    assert!(is_article_file("POST.MD", true, false));
    assert!(is_article_file("Draft.Md.WIP", true, true));
    assert!(!is_article_file("Draft.Md.WIP", true, false));
    assert!(!is_article_file("post.md", false, true));
    assert!(!is_article_file("notes.txt", true, true));
}

#[test]
fn string_order_is_that_of_std() {
    let words = ["", "a", "ab", "b", "2024-01-01", "2024-01-02", "31005-12-01", "\u{e9}", "z", "Z"];
    for a in words {
        for b in words {
            assert_eq!(comes_before(a, b), a < b, "{:?} {:?}", a, b);
        }
    }
}

#[test]
fn articles_are_sorted_newest_first() {
    let posts = vec![
        article("old.md", Some("2023-01-05")),
        article("undated.md", None),
        article("new.md", Some("2024-06-30")),
        article("mid.md", Some("2023-11-11")),
    ];
    let sorted = sort_articles(posts);
    let names: Vec<&str> = sorted.iter().map(|a| a.name.as_str()).collect();
    assert_eq!(names, vec!["undated.md", "new.md", "mid.md", "old.md"]);
}

#[test]
fn sorting_keeps_every_article() {
    let posts = vec![
        article("a.md", Some("2024-01-01")),
        article("b.md", Some("2024-01-01")),
        article("c.md", Some("2025-01-01")),
        article("d.md", Some("2024-01-01")),
    ];
    let sorted = sort_articles(posts);
    assert_eq!(sorted.len(), 4);
    assert_eq!(sorted[0].name, "c.md");
    let mut rest: Vec<&str> = sorted[1..].iter().map(|a| a.name.as_str()).collect();
    rest.sort();
    assert_eq!(rest, vec!["a.md", "b.md", "d.md"]);
    for pair in sorted.windows(2) {
        assert!(pair[0].date >= pair[1].date);
    }
    assert!(sort_articles(vec![]).is_empty());
}
