//! The pages of the site, as text: what is sent is worked out here from
//! plain values, and nothing here reads a file or answers a request.
use crate::articles::Article;
use crate::header::Header;
use crate::md_ex::{rendered_markdown, site_dialect, ExtendedMd};
use crate::node::{Leaf, Node, Root};
use crate::node_laws::{lemma_leaves_of_flat, lemma_renders_exactly};
use crate::text::{count_of, decimal, decimal_of};
use vstd::prelude::*;

verus! {

/// Where the site is served.
pub const BASE_URL: &'static str = "https://louissven.xyz";

/// The name of the site.
pub const SITE_TITLE: &'static str = "Louis' imperfect blog";

/// Who wrote an article that names no author.
pub const DEFAULT_AUTHOR: &'static str = "Louis Sven Goulet";

/// How many articles one page of the list shows.
pub const ARTICLES_PER_PAGE: usize = 8;

/// How many articles the front page shows.
pub const RECENT_ARTICLES: usize = 5;

/// The links at the top of every page.
pub const COMMON_HEADER: &'static str =
    "<div id=\"header_top_div\"><a href=\"/\" class=\"header_element\">home</a><a href=\"/articles\" class=\"header_element\">articles</a><a href=\"/data-policy\" class=\"header_element\">data policy</a><a href=\"https://github.com/lorlouis\" class=\"header_element\">github</a><a href=\"/rss\" class=\"header_element\">rss</a></div>";

/// What the head of every page starts with: the base, the style sheet and
/// the icons.
pub const HEAD_LINKS: &'static str =
    "<base href=\"/\"><link rel=\"stylesheet\" href=\"data/site.css\"><link rel=\"apple-touch-icon\" sizes=\"180x180\" href=\"/data/favicon_io/apple-touch-icon.png\"><link rel=\"icon\" type=\"image/png\" sizes=\"32x32\" href=\"/data/favicon_io/favicon-32x32.png\"><link rel=\"icon\" type=\"image/png\" sizes=\"16x16\" href=\"/data/favicon_io/favicon-16x16.png\"><link rel=\"manifest\" href=\"/data/favicon_io/site.webmanifest\">";

/// What the head of every page ends with: the code highlighter.
pub const HEAD_SCRIPTS: &'static str =
    "<link rel=\"stylesheet\" href=\"/data/highlight/styles/nord.min.css\"><script src=\"/data/highlight/highlight.min.js\"></script><script>hljs.highlightAll();</script>";

/// The text of an optional piece of text.
pub open spec fn text_of(text: Option<&str>) -> Option<Seq<char>> {
    match text {
        Some(t) => Some(t@),
        None => None,
    }
}

/// The copyright line for the year `year`.
pub open spec fn copyright_text(year: int) -> Seq<char> {
    "copyright Louis Sven Goulet 2023-"@ + decimal(year)
}

/// The copyright paragraph around the copyright line `line`.
pub open spec fn copyright_paragraph(line: Seq<char>) -> Seq<char> {
    "<p id=\"copyright\">Found a typo?<a href=\"https://www.github.com/lorlouis/blog\"> open a pr!</a><br>"@
        + line + "</p>"@
}

/// The foot of a page: the place for the page links, then the copyright
/// paragraph.
pub open spec fn common_footer_text(line: Seq<char>) -> Seq<char> {
    "<div id=\"page_link_div\"></div>"@ + copyright_paragraph(line)
}

/// The description of a page, where it has one.
pub open spec fn description_text(blurb: Option<Seq<char>>) -> Seq<char> {
    match blurb {
        Some(b) => "<meta name=\"description\" content=\""@ + b + "\">"@,
        None => Seq::empty(),
    }
}

/// The author named in the head of a page: the given one, or the owner of
/// the site.
pub open spec fn author_or_default(author: Option<Seq<char>>) -> Seq<char> {
    match author {
        Some(a) => a,
        None => DEFAULT_AUTHOR@,
    }
}

/// The head of a page with the given title, author and description.
pub open spec fn common_head_text(
    title: Seq<char>,
    author: Option<Seq<char>>,
    blurb: Option<Seq<char>>,
) -> Seq<char> {
    HEAD_LINKS@ + "<title>"@ + title + "</title><meta charset=\"UTF-8\">"@ + description_text(
        blurb,
    ) + "<meta name=\"author\" content=\""@ + author_or_default(author) + "\">"@ + HEAD_SCRIPTS@
}

/// A whole page: the document type, then head, top links, content and
/// foot, each in its element.
pub open spec fn page_text(
    head: Seq<char>,
    header: Seq<char>,
    main: Seq<char>,
    footer: Seq<char>,
) -> Seq<char> {
    "<!DOCTYPE html><html><head>"@ + head + "</head><body><header>"@ + header
        + "</header><main>"@ + main + "</main><footer>"@ + footer + "</footer></body></html>"@
}

/// A page of the site with the title `title` and the content `main`.
pub open spec fn site_page_text(
    title: Seq<char>,
    author: Option<Seq<char>>,
    blurb: Option<Seq<char>>,
    main: Seq<char>,
    line: Seq<char>,
) -> Seq<char> {
    page_text(common_head_text(title, author, blurb), COMMON_HEADER@, main, common_footer_text(line))
}

/// The page for an address that leads nowhere.
pub open spec fn page_404_text(line: Seq<char>) -> Seq<char> {
    site_page_text("Page not found"@, None, None, "<h1>Page not found</h1>"@, line)
}

/// The page for a request that failed with the message `error`.
pub open spec fn page_500_text(error: Seq<char>, line: Seq<char>) -> Seq<char> {
    site_page_text(
        "Page not found"@,
        None,
        None,
        "<h1>Internal server error</h1><pre><code>"@ + error + "</code></pre>"@,
        line,
    )
}

/// The value under `key`, if the header has that key.
pub open spec fn lookup(header: Map<Seq<char>, Seq<char>>, key: Seq<char>) -> Option<Seq<char>> {
    if header.contains_key(key) {
        Some(header[key])
    } else {
        None
    }
}

/// The value under `key`, or `fallback` where the header has no such key.
pub open spec fn lookup_or(
    header: Map<Seq<char>, Seq<char>>,
    key: Seq<char>,
    fallback: Seq<char>,
) -> Seq<char> {
    if header.contains_key(key) {
        header[key]
    } else {
        fallback
    }
}

/// The markdown text of a document as HTML.
pub open spec fn html_of(markdown: Seq<char>) -> Seq<char> {
    rendered_markdown(markdown, site_dialect())
}

/// The page that shows a markdown document that is no article: its title
/// is the one in its header, or none.
pub open spec fn basic_md_page_text(
    header: Map<Seq<char>, Seq<char>>,
    markdown: Seq<char>,
    line: Seq<char>,
) -> Seq<char> {
    site_page_text(
        lookup_or(header, "Title"@, Seq::empty()),
        None,
        None,
        html_of(markdown),
        line,
    )
}

/// The page of an article kept in the file `name`: title, author and
/// description are those of its header; without a title the file name
/// stands in.
pub open spec fn article_page_text(
    header: Map<Seq<char>, Seq<char>>,
    markdown: Seq<char>,
    name: Seq<char>,
    line: Seq<char>,
) -> Seq<char> {
    site_page_text(
        lookup_or(header, "Title"@, name),
        lookup(header, "Author"@),
        lookup(header, "Blurb"@),
        html_of(markdown),
        line,
    )
}

/// Reads the clock of the machine: the year of
/// `time::OffsetDateTime::now_utc()`. Trusted, and nothing is claimed of
/// the year that comes back. The call takes the time from the operating
/// system; should the clock be set to a time that `time` cannot represent,
/// it does not return.
#[verifier::external_body]
fn utc_year() -> i32 {
    time::OffsetDateTime::now_utc().year()
}

/// The copyright line for the year that the clock shows now.
pub fn copyright_str() -> (line: String)
    ensures
        exists|year: i32| line@ == copyright_text(year as int),
{
    let year = utc_year();
    copyright_for(year)
}

/// The copyright line for the year `year`.
pub fn copyright_for(year: i32) -> (line: String)
    ensures
        line@ == copyright_text(year as int),
{
    let mut line = String::new();
    line.append("copyright Louis Sven Goulet 2023-");
    let number = decimal_of(year);
    line.append(number.as_str());
    assert(line@ =~= copyright_text(year as int));
    line
}

/// The links at the top of every page.
pub fn common_header() -> (html: String)
    ensures
        html@ == COMMON_HEADER@,
{
    COMMON_HEADER.to_owned()
}

/// The copyright paragraph around the copyright line `line`.
pub fn copyright(line: &str) -> (html: String)
    ensures
        html@ == copyright_paragraph(line@),
{
    let mut html = String::new();
    html.append(
        "<p id=\"copyright\">Found a typo?<a href=\"https://www.github.com/lorlouis/blog\"> open a pr!</a><br>",
    );
    html.append(line);
    html.append("</p>");
    assert(html@ =~= copyright_paragraph(line@));
    html
}

/// The foot of a page.
pub fn common_footer(line: &str) -> (html: String)
    ensures
        html@ == common_footer_text(line@),
{
    let mut html = String::new();
    html.append("<div id=\"page_link_div\"></div>");
    let paragraph = copyright(line);
    html.append(paragraph.as_str());
    assert(html@ =~= common_footer_text(line@));
    html
}

/// The head of a page. Without an author the owner of the site is named;
/// without a description none is written.
pub fn common_head(title: &str, author: Option<&str>, blurb: Option<&str>) -> (html: String)
    ensures
        html@ == common_head_text(title@, text_of(author), text_of(blurb)),
{
    let mut html = String::new();
    html.append(HEAD_LINKS);
    html.append("<title>");
    html.append(title);
    html.append("</title><meta charset=\"UTF-8\">");
    match blurb {
        Some(b) => {
            html.append("<meta name=\"description\" content=\"");
            html.append(b);
            html.append("\">");
            assert(html@ =~= HEAD_LINKS@ + "<title>"@ + title@
                + "</title><meta charset=\"UTF-8\">"@ + description_text(text_of(blurb)));
        },
        None => {
            assert(html@ =~= HEAD_LINKS@ + "<title>"@ + title@
                + "</title><meta charset=\"UTF-8\">"@ + description_text(text_of(blurb)));
        },
    }
    html.append("<meta name=\"author\" content=\"");
    match author {
        Some(a) => {
            html.append(a);
        },
        None => {
            html.append(DEFAULT_AUTHOR);
        },
    }
    html.append("\">");
    html.append(HEAD_SCRIPTS);
    assert(html@ =~= common_head_text(title@, text_of(author), text_of(blurb)));
    html
}

/// The text of a page is that of its nine parts, one after the other.
proof fn lemma_page_parts(head: Seq<char>, header: Seq<char>, main: Seq<char>, footer: Seq<char>)
    ensures
        seq![
            "<!DOCTYPE html><html><head>"@,
            head,
            "</head><body><header>"@,
            header,
            "</header><main>"@,
            main,
            "</main><footer>"@,
            footer,
            "</footer></body></html>"@,
        ].flatten() == page_text(head, header, main, footer),
{
    reveal_with_fuel(Seq::flatten, 10);
    assert(seq![
        "<!DOCTYPE html><html><head>"@,
        head,
        "</head><body><header>"@,
        header,
        "</header><main>"@,
        main,
        "</main><footer>"@,
        footer,
        "</footer></body></html>"@,
    ].flatten() =~= page_text(head, header, main, footer));
}

/// A whole page around its head, its top links and its content, with the
/// foot for the copyright line `line`. The page is a tree: the markup of
/// the frame and the three parts are its literals, and the foot is worked
/// out when the tree is rendered.
fn page(head: &str, header: &str, main: &str, line: &str) -> (html: String)
    ensures
        html@ == page_text(head@, header@, main@, common_footer_text(line@)),
{
    let footer = || -> (text: String)
        ensures
            text@ == common_footer_text(line@),
        { common_footer(line) };
    let mut nodes = Vec::new();
    nodes.push(Node::Str("<!DOCTYPE html><html><head>"));
    nodes.push(Node::Str(head));
    nodes.push(Node::Str("</head><body><header>"));
    nodes.push(Node::Str(header));
    nodes.push(Node::Str("</header><main>"));
    nodes.push(Node::Str(main));
    nodes.push(Node::Str("</main><footer>"));
    nodes.push(Node::Fn(footer));
    nodes.push(Node::Str("</footer></body></html>"));
    let root = Root::from(Node::List(nodes));
    let ghost expected = seq![
        "<!DOCTYPE html><html><head>"@,
        head@,
        "</head><body><header>"@,
        header@,
        "</header><main>"@,
        main@,
        "</main><footer>"@,
        common_footer_text(line@),
        "</footer></body></html>"@,
    ];
    proof {
        lemma_leaves_of_flat(nodes@);
        assert(root@.len() == 9);
        assert(root@[7] == Leaf::Lazy(footer));
    }
    let html = root.render();
    proof {
        lemma_renders_exactly(root@, expected, html@);
        lemma_page_parts(head@, header@, main@, common_footer_text(line@));
    }
    html
}

/// A page of the site: the common head, top links and foot around `main`.
fn site_page(
    title: &str,
    author: Option<&str>,
    blurb: Option<&str>,
    main: &str,
    line: &str,
) -> (html: String)
    ensures
        html@ == site_page_text(title@, text_of(author), text_of(blurb), main@, line@),
{
    let head = common_head(title, author, blurb);
    page(head.as_str(), COMMON_HEADER, main, line)
}

/// The page for an address that leads nowhere; `line` is the copyright
/// line.
pub fn page_404(line: &str) -> (html: String)
    ensures
        html@ == page_404_text(line@),
{
    site_page("Page not found", None, None, "<h1>Page not found</h1>", line)
}

/// The page for a request that failed with the message `error`. The
/// message is written as it is.
pub fn page_500(error: &str, line: &str) -> (html: String)
    ensures
        html@ == page_500_text(error@, line@),
{
    let mut main = String::new();
    main.append("<h1>Internal server error</h1><pre><code>");
    main.append(error);
    main.append("</code></pre>");
    assert(main@ =~= "<h1>Internal server error</h1><pre><code>"@ + error@ + "</code></pre>"@);
    site_page("Page not found", None, None, main.as_str(), line)
}

/// The text under `key`, if the header has that key.
fn value_of<'a>(header: &'a Header, key: &str) -> (value: Option<&'a str>)
    ensures
        text_of(value) == lookup(header@, key@),
{
    match header.get(key) {
        Some(value) => Some(value.as_str()),
        None => None,
    }
}

/// The page that shows a markdown document that is no article.
pub fn basic_md_page(markdown: &ExtendedMd, line: &str) -> (html: String)
    ensures
        html@ == basic_md_page_text(markdown@.header, markdown@.markdown, line@),
{
    let title = match value_of(&markdown.header, "Title") {
        Some(title) => title,
        None => "",
    };
    proof {
        reveal_strlit("");
        assert(""@ =~= Seq::<char>::empty());
    }
    let main = markdown.to_html();
    site_page(title, None, None, main.as_str(), line)
}

/// The page of the article `markdown`, kept in the file `name`.
pub fn article_page(markdown: &ExtendedMd, name: &str, line: &str) -> (html: String)
    ensures
        html@ == article_page_text(markdown@.header, markdown@.markdown, name@, line@),
{
    let title = match value_of(&markdown.header, "Title") {
        Some(title) => title,
        None => name,
    };
    let author = value_of(&markdown.header, "Author");
    let blurb = value_of(&markdown.header, "Blurb");
    let main = markdown.to_html();
    site_page(title, author, blurb, main.as_str(), line)
}

/// The part of `items` that is left when the first `skip` are passed over
/// and no more than `count` are taken.
pub open spec fn window<A>(items: Seq<A>, skip: int, count: int) -> Seq<A> {
    let from = if skip < items.len() {
        skip
    } else {
        items.len() as int
    };
    let to = if from + count < items.len() {
        from + count
    } else {
        items.len() as int
    };
    items.subrange(from, to)
}

/// The quotation that shows what an article is about, where it says so.
pub open spec fn blurb_text(blurb: Option<Seq<char>>) -> Seq<char> {
    match blurb {
        Some(b) => "<blockquote class=\"blurb\">"@ + b + "</blockquote>"@,
        None => Seq::empty(),
    }
}

/// One article in a list: its date, its title as a link to the article,
/// and what it is about. Without a title the file name stands in.
pub open spec fn list_item_text(article: Article) -> Seq<char> {
    "<article><h3 class=\"list_element\">"@ + article.date@
        + "</h3><h3 class=\"list_element\"><a href=\"article/"@ + article.name@ + "\">"@
        + lookup_or(article.header@, "Title"@, article.name@) + "</a></h3>"@ + blurb_text(
        lookup(article.header@, "Blurb"@),
    ) + "</article>"@
}

/// The articles `articles` one after the other, as list items.
pub open spec fn list_items_text(articles: Seq<Article>) -> Seq<char>
    decreases articles.len(),
{
    if articles.len() == 0 {
        Seq::empty()
    } else {
        list_items_text(articles.drop_last()) + list_item_text(articles.last())
    }
}

/// A list of articles.
pub open spec fn article_list_text(articles: Seq<Article>) -> Seq<char> {
    "<div id=\"article_container\">"@ + list_items_text(articles) + "</div>"@
}

/// One article in a list.
fn list_item(article: &Article) -> (html: String)
    ensures
        html@ == list_item_text(*article),
{
    let title = match value_of(&article.header, "Title") {
        Some(title) => title,
        None => article.name.as_str(),
    };
    let mut html = String::new();
    html.append("<article><h3 class=\"list_element\">");
    html.append(article.date.as_str());
    html.append("</h3><h3 class=\"list_element\"><a href=\"article/");
    html.append(article.name.as_str());
    html.append("\">");
    html.append(title);
    html.append("</a></h3>");
    let ghost before = html@;
    match value_of(&article.header, "Blurb") {
        Some(blurb) => {
            html.append("<blockquote class=\"blurb\">");
            html.append(blurb);
            html.append("</blockquote>");
        },
        None => {},
    }
    assert(html@ =~= before + blurb_text(lookup(article.header@, "Blurb"@)));
    html.append("</article>");
    assert(html@ =~= list_item_text(*article));
    html
}

/// The list of the articles `posts[skip..]`, `count` of them at most.
pub fn build_articles_html_list(posts: &Vec<Article>, count: usize, skip: usize) -> (html: String)
    ensures
        html@ == article_list_text(window(posts@, skip as int, count as int)),
{
    let from = if skip < posts.len() {
        skip
    } else {
        posts.len()
    };
    let to = if count < posts.len() - from {
        from + count
    } else {
        posts.len()
    };
    let ghost shown = posts@.subrange(from as int, to as int);
    let mut html = String::new();
    html.append("<div id=\"article_container\">");
    let mut i: usize = from;
    proof {
        assert(shown.take(0) =~= Seq::<Article>::empty());
        assert(html@ =~= "<div id=\"article_container\">"@ + list_items_text(shown.take(0)));
    }
    while i < to
        invariant
            from <= i <= to <= posts@.len(),
            shown == posts@.subrange(from as int, to as int),
            html@ == "<div id=\"article_container\">"@ + list_items_text(shown.take(i - from)),
        decreases to - i,
    {
        let item = list_item(&posts[i]);
        html.append(item.as_str());
        proof {
            assert(shown.take(i - from + 1).drop_last() =~= shown.take(i - from));
            assert(shown.take(i - from + 1).last() == posts@[i as int]);
            assert(html@ =~= "<div id=\"article_container\">"@ + list_items_text(
                shown.take(i - from + 1),
            ));
        }
        i += 1;
    }
    html.append("</div>");
    proof {
        assert(shown.take(to - from) =~= shown);
        assert(html@ =~= article_list_text(shown));
    }
    html
}

/// The front page: the text of the document `markdown`, then the most
/// recent articles.
pub open spec fn index_text(
    markdown: Seq<char>,
    posts: Seq<Article>,
    line: Seq<char>,
) -> Seq<char> {
    site_page_text(
        SITE_TITLE@,
        None,
        None,
        html_of(markdown) + "<h3>Recent Articles</h3>"@ + article_list_text(
            window(posts, 0, RECENT_ARTICLES as int),
        ),
        line,
    )
}

/// The front page.
pub fn index(markdown: &ExtendedMd, posts: &Vec<Article>, line: &str) -> (html: String)
    ensures
        html@ == index_text(markdown@.markdown, posts@, line@),
{
    let mut main = markdown.to_html();
    main.append("<h3>Recent Articles</h3>");
    let list = build_articles_html_list(posts, RECENT_ARTICLES, 0);
    main.append(list.as_str());
    site_page(SITE_TITLE, None, None, main.as_str(), line)
}

/// Where a page of the list of articles stands among the pages.
#[derive(Clone, Copy, Debug, PartialEq, Eq)]
pub struct Paging {
    /// The page that is shown.
    pub current: usize,
    /// The page before it, or the first page.
    pub previous: usize,
    /// The page after it.
    pub next: usize,
    /// The last page.
    pub last: usize,
    /// How many articles stand on the pages before the one shown.
    pub skip: usize,
}

/// The paging for page `page` of a list of `len` articles. Pages are
/// counted from zero and hold [`ARTICLES_PER_PAGE`] articles each; a page
/// past the last one is shown as the last.
pub open spec fn paging_of(len: usize, page: usize) -> Paging {
    let last = len / ARTICLES_PER_PAGE;
    let current = if page < last {
        page
    } else {
        last
    };
    Paging {
        current,
        previous: if current == 0 {
            0
        } else {
            (current - 1) as usize
        },
        next: (current + 1) as usize,
        last,
        skip: (ARTICLES_PER_PAGE * current) as usize,
    }
}

/// The paging for page `page` of a list of `len` articles.
pub fn paging(len: usize, page: usize) -> (paging: Paging)
    ensures
        paging == paging_of(len, page),
        paging.current <= paging.last,
        paging.skip <= len,
{
    let last = len / ARTICLES_PER_PAGE;
    let current = if page < last {
        page
    } else {
        last
    };
    let previous = if current == 0 {
        0
    } else {
        current - 1
    };
    Paging { current, previous, next: current + 1, last, skip: ARTICLES_PER_PAGE * current }
}

/// The links to the first, the previous, the next and the last page.
pub open spec fn page_links_text(paging: Paging) -> Seq<char> {
    "<div id=\"page_link_div\"><a href=\"/articles\" class=\"article_link\" id=\"link_first_page\" title=\"fist page\">&lt;&lt;</a><a href=\"articles?p="@
        + decimal(paging.previous as int)
        + "\" class=\"article_link\" id=\"link_previous_page\" title=\"previous page\">&lt;</a><a href=\"articles?p="@
        + decimal(paging.next as int)
        + "\" class=\"article_link\" id=\"link_next_page\" title=\"next page\">&gt;</a><a href=\"articles?p="@
        + decimal(paging.last as int)
        + "\" class=\"article_link\" id=\"link_last_page\" title=\"last page\">&gt;&gt;</a></div>"@
}

/// Page `page` of the list of articles: the articles of that page, and at
/// the foot the links to the other pages.
pub open spec fn articles_text(posts: Seq<Article>, page: usize, line: Seq<char>) -> Seq<char> {
    let paging = paging_of(posts.len() as usize, page);
    "<!DOCTYPE html><html><head>"@ + common_head_text("articles"@, None, None) + "</head><body>"@
        + COMMON_HEADER@ + "<main><h1>Articles</h1>"@ + article_list_text(
        window(posts, paging.skip as int, ARTICLES_PER_PAGE as int),
    ) + "</main><footer>"@ + page_links_text(paging) + copyright_paragraph(line)
        + "</footer></body></html>"@
}

/// The links to the first, the previous, the next and the last page.
fn page_links(paging: &Paging) -> (html: String)
    ensures
        html@ == page_links_text(*paging),
{
    let previous = count_of(paging.previous);
    let next = count_of(paging.next);
    let last = count_of(paging.last);
    let mut html = String::new();
    html.append(
        "<div id=\"page_link_div\"><a href=\"/articles\" class=\"article_link\" id=\"link_first_page\" title=\"fist page\">&lt;&lt;</a><a href=\"articles?p=",
    );
    html.append(previous.as_str());
    html.append(
        "\" class=\"article_link\" id=\"link_previous_page\" title=\"previous page\">&lt;</a><a href=\"articles?p=",
    );
    html.append(next.as_str());
    html.append(
        "\" class=\"article_link\" id=\"link_next_page\" title=\"next page\">&gt;</a><a href=\"articles?p=",
    );
    html.append(last.as_str());
    html.append(
        "\" class=\"article_link\" id=\"link_last_page\" title=\"last page\">&gt;&gt;</a></div>",
    );
    assert(html@ =~= page_links_text(*paging));
    html
}

/// Page `page` of the list of articles.
pub fn articles(posts: &Vec<Article>, page: usize, line: &str) -> (html: String)
    ensures
        html@ == articles_text(posts@, page, line@),
{
    let paging = paging(posts.len(), page);
    let head = common_head("articles", None, None);
    let list = build_articles_html_list(posts, ARTICLES_PER_PAGE, paging.skip);
    let links = page_links(&paging);
    let paragraph = copyright(line);
    let mut html = String::new();
    html.append("<!DOCTYPE html><html><head>");
    html.append(head.as_str());
    html.append("</head><body>");
    html.append(COMMON_HEADER);
    html.append("<main><h1>Articles</h1>");
    html.append(list.as_str());
    html.append("</main><footer>");
    html.append(links.as_str());
    html.append(paragraph.as_str());
    html.append("</footer></body></html>");
    assert(html@ =~= articles_text(posts@, page, line@));
    html
}

/// What the feed of the site starts with: its name and what it is.
pub const FEED_HEAD: &'static str =
    "<?xml version=\"1.0\" encoding=\"UTF-8\" ?><rss version=\"2.0\"><channel><title><![CDATA[Louis' imperfect blog]]></title><description><![CDATA[Louis' imperfect blog's RSS feed]]></description>";

/// One article in the feed: its title with what it is about, the address
/// of its page, and the page itself. `document` is the article as read
/// from its file.
pub open spec fn feed_item_text(
    article: Article,
    document: ExtendedMd,
    line: Seq<char>,
) -> Seq<char> {
    "<item><title><![CDATA["@ + lookup_or(article.header@, "Title"@, article.name@)
        + " \u{2013} "@ + lookup_or(article.header@, "Blurb"@, Seq::empty())
        + "]]></title><link>"@ + BASE_URL@ + "/article/"@ + article.name@
        + "</link><description><![CDATA["@ + article_page_text(
        document@.header,
        document@.markdown,
        article.name@,
        line,
    ) + "]]></description></item>"@
}

/// The articles of the feed, one after the other. An article whose file
/// could not be read is left out.
pub open spec fn feed_items_text(
    entries: Seq<(Article, Option<ExtendedMd>)>,
    line: Seq<char>,
) -> Seq<char>
    decreases entries.len(),
{
    if entries.len() == 0 {
        Seq::empty()
    } else {
        feed_items_text(entries.drop_last(), line) + match entries.last().1 {
            Some(document) => feed_item_text(entries.last().0, document, line),
            None => Seq::empty(),
        }
    }
}

/// When the feed was last changed: the date of the first article, if there
/// is an article.
pub open spec fn feed_date_text(entries: Seq<(Article, Option<ExtendedMd>)>) -> Seq<char> {
    if entries.len() > 0 {
        "<pubDate>"@ + entries[0].0.date@ + "</pubDate>"@
    } else {
        Seq::empty()
    }
}

/// The feed of the site.
pub open spec fn rss_text(
    entries: Seq<(Article, Option<ExtendedMd>)>,
    line: Seq<char>,
) -> Seq<char> {
    FEED_HEAD@ + "<link>"@ + BASE_URL@ + "</link><copyright>"@ + line + "</copyright>"@
        + feed_date_text(entries) + "<ttl>1800</ttl>"@ + feed_items_text(entries, line)
        + "</channel></rss>"@
}

/// One article in the feed.
fn feed_item(article: &Article, document: &ExtendedMd, line: &str) -> (xml: String)
    ensures
        xml@ == feed_item_text(*article, *document, line@),
{
    let title = match value_of(&article.header, "Title") {
        Some(title) => title,
        None => article.name.as_str(),
    };
    let blurb = match value_of(&article.header, "Blurb") {
        Some(blurb) => blurb,
        None => "",
    };
    proof {
        reveal_strlit("");
        assert(""@ =~= Seq::<char>::empty());
    }
    let page = article_page(document, article.name.as_str(), line);
    let mut xml = String::new();
    xml.append("<item><title><![CDATA[");
    xml.append(title);
    xml.append(" \u{2013} ");
    xml.append(blurb);
    xml.append("]]></title><link>");
    xml.append(BASE_URL);
    xml.append("/article/");
    xml.append(article.name.as_str());
    xml.append("</link><description><![CDATA[");
    xml.append(page.as_str());
    xml.append("]]></description></item>");
    assert(xml@ =~= feed_item_text(*article, *document, line@));
    xml
}

/// The feed of the site for the articles `entries`, each with what was
/// read from its file, or with nothing where that failed.
pub fn build_rss(entries: &Vec<(Article, Option<ExtendedMd>)>, line: &str) -> (xml: String)
    ensures
        xml@ == rss_text(entries@, line@),
{
    let mut xml = String::new();
    xml.append(FEED_HEAD);
    xml.append("<link>");
    xml.append(BASE_URL);
    xml.append("</link><copyright>");
    xml.append(line);
    xml.append("</copyright>");
    if entries.len() > 0 {
        xml.append("<pubDate>");
        xml.append(entries[0].0.date.as_str());
        xml.append("</pubDate>");
    }
    xml.append("<ttl>1800</ttl>");
    let ghost start = FEED_HEAD@ + "<link>"@ + BASE_URL@ + "</link><copyright>"@ + line@
        + "</copyright>"@ + feed_date_text(entries@) + "<ttl>1800</ttl>"@;
    let mut i: usize = 0;
    proof {
        assert(entries@.take(0) =~= Seq::<(Article, Option<ExtendedMd>)>::empty());
        assert(xml@ =~= start + feed_items_text(entries@.take(0), line@));
    }
    while i < entries.len()
        invariant
            i <= entries@.len(),
            xml@ == start + feed_items_text(entries@.take(i as int), line@),
        decreases entries@.len() - i,
    {
        proof {
            assert(entries@.take(i + 1).drop_last() =~= entries@.take(i as int));
            assert(entries@.take(i + 1).last() == entries@[i as int]);
        }
        match &entries[i].1 {
            Some(document) => {
                let item = feed_item(&entries[i].0, document, line);
                xml.append(item.as_str());
                assert(xml@ =~= start + feed_items_text(entries@.take(i + 1), line@));
            },
            None => {
                assert(xml@ =~= start + feed_items_text(entries@.take(i + 1), line@));
            },
        }
        i += 1;
    }
    xml.append("</channel></rss>");
    proof {
        assert(entries@.take(i as int) =~= entries@);
        assert(xml@ =~= rss_text(entries@, line@));
    }
    xml
}

} // verus!
