use blog::articles::Article;
use blog::header::Header;
use blog::md_ex::ExtendedMd;
use blog::site::{
    article_page, articles, basic_md_page, build_articles_html_list, build_rss, common_footer,
    common_head, common_header, copyright, copyright_for, copyright_str, index, page_404,
    page_500, paging, Paging, ARTICLES_PER_PAGE, BASE_URL, COMMON_HEADER, DEFAULT_AUTHOR,
    HEAD_LINKS, HEAD_SCRIPTS, RECENT_ARTICLES, SITE_TITLE,
};
use blog::text::{count_of, decimal_of, has_suffix};

const LINE: &str = "copyright Louis Sven Goulet 2023-2024";

fn footer() -> String {
    format!(
        "<div id=\"page_link_div\"></div><p id=\"copyright\">Found a typo?<a href=\"https://www.github.com/lorlouis/blog\"> open a pr!</a><br>{}</p>",
        LINE
    )
}

fn head(title: &str, author: &str, description: &str) -> String {
    format!(
        "{}<title>{}</title><meta charset=\"UTF-8\">{}<meta name=\"author\" content=\"{}\">{}",
        HEAD_LINKS, title, description, author, HEAD_SCRIPTS
    )
}

fn frame(head: &str, main: &str) -> String {
    format!(
        "<!DOCTYPE html><html><head>{}</head><body><header>{}</header><main>{}</main><footer>{}</footer></body></html>",
        head,
        COMMON_HEADER,
        main,
        footer()
    )
}

fn post(name: &str, pairs: &[(&str, &str)]) -> Article {
    let header =
        Header::from_pairs(pairs.iter().map(|(k, v)| (k.to_string(), v.to_string())).collect());
    Article::new(name.to_string(), header)
}

fn posts(n: usize) -> Vec<Article> {
    (0..n).map(|i| post(&format!("post{}.md", i), &[("Date", &format!("2024-01-{:02}", i + 1))])).collect()
}

#[test]
fn numbers_in_decimal() {
    assert_eq!(decimal_of(0), "0");
    assert_eq!(decimal_of(7), "7");
    assert_eq!(decimal_of(10), "10");
    assert_eq!(decimal_of(2024), "2024");
    assert_eq!(decimal_of(-5), "-5");
    assert_eq!(decimal_of(-120), "-120");
    assert_eq!(decimal_of(i32::MAX), i32::MAX.to_string());
    assert_eq!(decimal_of(i32::MIN), i32::MIN.to_string());
    assert_eq!(count_of(0), "0");
    assert_eq!(count_of(1234567890), "1234567890");
    assert_eq!(count_of(usize::MAX), usize::MAX.to_string());
}

#[test]
fn suffixes() {
    assert!(has_suffix("a.md", ".md"));
    assert!(has_suffix("a.md", ""));
    assert!(has_suffix("", ""));
    assert!(!has_suffix("md", ".md"));
    assert!(!has_suffix("a.mdx", ".md"));
    assert!(has_suffix("caf\u{e9}", "f\u{e9}"));
}

#[test]
fn copyright_line() {
    assert_eq!(copyright_for(2024), LINE);
    assert_eq!(copyright_for(2023), "copyright Louis Sven Goulet 2023-2023");
    assert_eq!(copyright_for(-1), "copyright Louis Sven Goulet 2023--1");
}

#[test]
fn copyright_line_of_today() {
    let before = time::OffsetDateTime::now_utc().year();
    let line = copyright_str();
    let after = time::OffsetDateTime::now_utc().year();
    assert!(line == copyright_for(before) || line == copyright_for(after), "{}", line);
    assert!(line.starts_with("copyright Louis Sven Goulet 2023-2"), "{}", line);
}

#[test]
fn fragments() {
    assert_eq!(common_header(), COMMON_HEADER);
    assert!(COMMON_HEADER.starts_with("<div id=\"header_top_div\"><a href=\"/\" class=\"header_element\">home</a>"));
    assert!(COMMON_HEADER.ends_with("<a href=\"/rss\" class=\"header_element\">rss</a></div>"));
    assert_eq!(
        copyright(LINE),
        "<p id=\"copyright\">Found a typo?<a href=\"https://www.github.com/lorlouis/blog\"> open a pr!</a><br>copyright Louis Sven Goulet 2023-2024</p>"
    );
    assert_eq!(common_footer(LINE), footer());
    assert_eq!(common_footer(""), "<div id=\"page_link_div\"></div><p id=\"copyright\">Found a typo?<a href=\"https://www.github.com/lorlouis/blog\"> open a pr!</a><br></p>");
}

#[test]
fn head_of_a_page() {
    assert_eq!(common_head("T", None, None), head("T", "Louis Sven Goulet", ""));
    assert_eq!(DEFAULT_AUTHOR, "Louis Sven Goulet");
    assert_eq!(
        common_head("T", Some("Ada"), Some("about")),
        head("T", "Ada", "<meta name=\"description\" content=\"about\">")
    );
    assert_eq!(common_head("", Some(""), None), head("", "", ""));
    let plain = common_head("x", None, None);
    assert!(plain.starts_with("<base href=\"/\"><link rel=\"stylesheet\" href=\"data/site.css\">"));
    assert!(plain.ends_with("<script>hljs.highlightAll();</script>"));
    assert!(plain.contains("<title>x</title><meta charset=\"UTF-8\"><meta name=\"author\""));
}

#[test]
fn page_not_found() {
    assert_eq!(
        page_404(LINE),
        frame(&head("Page not found", "Louis Sven Goulet", ""), "<h1>Page not found</h1>")
    );
}

#[test]
fn page_for_an_error() {
    assert_eq!(
        page_500("No such file <x>", LINE),
        frame(
            &head("Page not found", "Louis Sven Goulet", ""),
            "<h1>Internal server error</h1><pre><code>No such file <x></code></pre>"
        )
    );
}

#[test]
fn page_of_a_plain_document() {
    let md = ExtendedMd::from_bufread(b"Title: Data policy\n---\n# Policy\n").unwrap();
    assert_eq!(
        basic_md_page(&md, LINE),
        frame(&head("Data policy", "Louis Sven Goulet", ""), "<h1>Policy</h1>\n")
    );
    let untitled = ExtendedMd::from_bufread(b"x\n").err();
    assert!(untitled.is_some());
    let untitled = ExtendedMd::from_bufread(b"Other: y\n---\ntext").unwrap();
    assert_eq!(
        basic_md_page(&untitled, LINE),
        frame(&head("", "Louis Sven Goulet", ""), "<p>text</p>")
    );
}

#[test]
fn page_of_an_article() {
    let md = ExtendedMd::from_bufread(
        b"Title: On trees\nAuthor: Ada\nBlurb: leaves\n---\n*hi*\n",
    )
    .unwrap();
    assert_eq!(
        article_page(&md, "trees.md", LINE),
        frame(
            &head("On trees", "Ada", "<meta name=\"description\" content=\"leaves\">"),
            "<p><em>hi</em></p>\n"
        )
    );
    let bare = ExtendedMd::from_bufread(b"Date: 2024-01-01\n---\nhi").unwrap();
    assert_eq!(
        article_page(&bare, "bare.md", LINE),
        frame(&head("bare.md", "Louis Sven Goulet", ""), "<p>hi</p>")
    );
}

#[test]
fn list_of_articles() {
    let list = vec![
        post("a.md", &[("Date", "2024-02-02"), ("Title", "A"), ("Blurb", "first")]),
        post("b.md", &[]),
    ];
    let a = "<article><h3 class=\"list_element\">2024-02-02</h3><h3 class=\"list_element\"><a href=\"article/a.md\">A</a></h3><blockquote class=\"blurb\">first</blockquote></article>";
    let b = "<article><h3 class=\"list_element\">31005-12-01</h3><h3 class=\"list_element\"><a href=\"article/b.md\">b.md</a></h3></article>";
    assert_eq!(
        build_articles_html_list(&list, 5, 0),
        format!("<div id=\"article_container\">{}{}</div>", a, b)
    );
    assert_eq!(
        build_articles_html_list(&list, 1, 0),
        format!("<div id=\"article_container\">{}</div>", a)
    );
    assert_eq!(
        build_articles_html_list(&list, 1, 1),
        format!("<div id=\"article_container\">{}</div>", b)
    );
    assert_eq!(
        build_articles_html_list(&list, usize::MAX, 1),
        format!("<div id=\"article_container\">{}</div>", b)
    );
    let empty = "<div id=\"article_container\"></div>";
    assert_eq!(build_articles_html_list(&list, 0, 0), empty);
    assert_eq!(build_articles_html_list(&list, 3, 2), empty);
    assert_eq!(build_articles_html_list(&list, 3, usize::MAX), empty);
    assert_eq!(build_articles_html_list(&vec![], 8, 0), empty);
}

#[test]
fn paging_of_the_list() {
    assert_eq!(ARTICLES_PER_PAGE, 8);
    assert_eq!(paging(0, 0), Paging { current: 0, previous: 0, next: 1, last: 0, skip: 0 });
    assert_eq!(paging(7, 3), Paging { current: 0, previous: 0, next: 1, last: 0, skip: 0 });
    assert_eq!(paging(8, 0), Paging { current: 0, previous: 0, next: 1, last: 1, skip: 0 });
    assert_eq!(paging(8, 1), Paging { current: 1, previous: 0, next: 2, last: 1, skip: 8 });
    assert_eq!(paging(20, 1), Paging { current: 1, previous: 0, next: 2, last: 2, skip: 8 });
    assert_eq!(paging(20, 2), Paging { current: 2, previous: 1, next: 3, last: 2, skip: 16 });
    assert_eq!(paging(20, usize::MAX), Paging { current: 2, previous: 1, next: 3, last: 2, skip: 16 });
    let huge = paging(usize::MAX, usize::MAX);
    assert_eq!(huge.last, usize::MAX / 8);
    assert_eq!(huge.current, huge.last);
    assert_eq!(huge.skip, (usize::MAX / 8) * 8);
}

#[test]
fn front_page() {
    let md = ExtendedMd::from_bufread(b"Title: ignored\n---\nWelcome\n").unwrap();
    let list = posts(7);
    assert_eq!(RECENT_ARTICLES, 5);
    assert_eq!(SITE_TITLE, "Louis' imperfect blog");
    let main = format!(
        "<p>Welcome</p>\n<h3>Recent Articles</h3>{}",
        build_articles_html_list(&list, 5, 0)
    );
    assert_eq!(
        index(&md, &list, LINE),
        frame(&head("Louis' imperfect blog", "Louis Sven Goulet", ""), &main)
    );
    assert!(index(&md, &list, LINE).contains("article/post4.md"));
    assert!(!index(&md, &list, LINE).contains("article/post5.md"));
}

#[test]
fn pages_of_the_list() {
    let list = posts(20);
    let links = |previous: usize, next: usize, last: usize| {
        format!(
            "<div id=\"page_link_div\"><a href=\"/articles\" class=\"article_link\" id=\"link_first_page\" title=\"fist page\">&lt;&lt;</a><a href=\"articles?p={}\" class=\"article_link\" id=\"link_previous_page\" title=\"previous page\">&lt;</a><a href=\"articles?p={}\" class=\"article_link\" id=\"link_next_page\" title=\"next page\">&gt;</a><a href=\"articles?p={}\" class=\"article_link\" id=\"link_last_page\" title=\"last page\">&gt;&gt;</a></div>",
            previous, next, last
        )
    };
    let expected = |skip: usize, links: String| {
        format!(
            "<!DOCTYPE html><html><head>{}</head><body>{}<main><h1>Articles</h1>{}</main><footer>{}{}</footer></body></html>",
            head("articles", "Louis Sven Goulet", ""),
            COMMON_HEADER,
            build_articles_html_list(&list, 8, skip),
            links,
            copyright(LINE)
        )
    };
    assert_eq!(articles(&list, 0, LINE), expected(0, links(0, 1, 2)));
    assert_eq!(articles(&list, 1, LINE), expected(8, links(0, 2, 2)));
    assert_eq!(articles(&list, 2, LINE), expected(16, links(1, 3, 2)));
    assert_eq!(articles(&list, 99, LINE), expected(16, links(1, 3, 2)));
    assert!(articles(&list, 2, LINE).contains("article/post16.md"));
    assert!(articles(&list, 2, LINE).contains("article/post19.md"));
    assert!(!articles(&list, 2, LINE).contains("article/post15.md"));
    assert!(articles(&vec![], 0, LINE).contains("<div id=\"article_container\"></div>"));
}

#[test]
fn feed() {
    let read = |text: &str| ExtendedMd::from_bufread(text.as_bytes()).unwrap();
    let entries = vec![
        (
            post("a.md", &[("Date", "2024-02-02"), ("Title", "A"), ("Blurb", "first")]),
            Some(read("Date: 2024-02-02\nTitle: A\nBlurb: first\n---\nbody a")),
        ),
        (post("gone.md", &[("Title", "Gone")]), None),
        (post("b.md", &[]), Some(read("Tags: none\n---\nbody b"))),
    ];
    let start = format!(
        "<?xml version=\"1.0\" encoding=\"UTF-8\" ?><rss version=\"2.0\"><channel><title><![CDATA[Louis' imperfect blog]]></title><description><![CDATA[Louis' imperfect blog's RSS feed]]></description><link>{}</link><copyright>{}</copyright>",
        BASE_URL, LINE
    );
    assert_eq!(BASE_URL, "https://louissven.xyz");
    let item_a = format!(
        "<item><title><![CDATA[A \u{2013} first]]></title><link>https://louissven.xyz/article/a.md</link><description><![CDATA[{}]]></description></item>",
        article_page(entries[0].1.as_ref().unwrap(), "a.md", LINE)
    );
    let item_b = format!(
        "<item><title><![CDATA[b.md \u{2013} ]]></title><link>https://louissven.xyz/article/b.md</link><description><![CDATA[{}]]></description></item>",
        article_page(entries[2].1.as_ref().unwrap(), "b.md", LINE)
    );
    assert_eq!(
        build_rss(&entries, LINE),
        format!(
            "{}<pubDate>2024-02-02</pubDate><ttl>1800</ttl>{}{}</channel></rss>",
            start, item_a, item_b
        )
    );
    assert_eq!(build_rss(&vec![], LINE), format!("{}<ttl>1800</ttl></channel></rss>", start));
    let unreadable = vec![(post("gone.md", &[("Date", "2020-01-01")]), None)];
    assert_eq!(
        build_rss(&unreadable, LINE),
        format!("{}<pubDate>2020-01-01</pubDate><ttl>1800</ttl></channel></rss>", start)
    );
}
