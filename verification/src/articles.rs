//! The articles of the site: which files are articles, what is known of an
//! article before it is shown, and the order in which articles are listed.
use crate::header::Header;
use crate::text::{ends_with, has_suffix};
use vstd::prelude::*;
use vstd::utf8::encode_utf8;

verus! {

/// The date of an article that gives none: later than any real date, so
/// that such articles are listed first.
pub const DEFAULT_DATE: &'static str = "31005-12-01";

/// An article as the lists of the site know it.
#[derive(Debug)]
pub struct Article {
    /// The date under which it is listed.
    pub date: String,
    /// The name of the file that holds it.
    pub name: String,
    /// The header of the file.
    pub header: Header,
}

/// An article, as plain values.
pub struct ArticleModel {
    pub date: Seq<char>,
    pub name: Seq<char>,
    pub header: Map<Seq<char>, Seq<char>>,
}

impl View for Article {
    type V = ArticleModel;

    open spec fn view(&self) -> ArticleModel {
        ArticleModel { date: self.date@, name: self.name@, header: self.header@ }
    }
}

/// The date under which an article with the header `header` is listed: the
/// one that the header gives, else the default.
pub open spec fn listed_date(header: Map<Seq<char>, Seq<char>>) -> Seq<char> {
    if header.contains_key("Date"@) {
        header["Date"@]
    } else {
        DEFAULT_DATE@
    }
}

impl Article {
    /// The article in the file `name` whose header is `header`.
    pub fn new(name: String, header: Header) -> (article: Article)
        ensures
            article@ == (ArticleModel {
                date: listed_date(header@),
                name: name@,
                header: header@,
            }),
    {
        let date = match header.get("Date") {
            Some(date) => date.clone(),
            None => DEFAULT_DATE.to_owned(),
        };
        Article { date, name, header }
    }
}

/// What `str::to_lowercase` makes of `text`.
pub uninterp spec fn lowercase_of(text: Seq<char>) -> Seq<char>;

/// Calls `str::to_lowercase`. Trusted: the result is what the name
/// `lowercase_of` stands for.
#[verifier::external_body]
fn lowercase(text: &str) -> (lower: String)
    ensures
        lower@ == lowercase_of(text@),
{
    text.to_lowercase()
}

/// A file with the lower-case name `name` holds markdown: the name ends
/// in `.md`, or, where unfinished articles are shown too, in `.md.wip`.
pub open spec fn markdown_name(name: Seq<char>, render_wip: bool) -> bool {
    ends_with(name, ".md"@) || (render_wip && ends_with(name, ".md.wip"@))
}

/// Whether a file with the lower-case name `name` holds markdown.
pub fn is_markdown(name: &str, render_wip: bool) -> (yes: bool)
    ensures
        yes == markdown_name(name@, render_wip),
{
    has_suffix(name, ".md") || (render_wip && has_suffix(name, ".md.wip"))
}

/// Whether the directory entry with the name `file_name` is an article: it
/// is a file, and its name in lower case is that of a markdown file.
pub fn is_article_file(file_name: &str, is_file: bool, render_wip: bool) -> (yes: bool)
    ensures
        yes == (is_file && markdown_name(lowercase_of(file_name@), render_wip)),
{
    let lower = lowercase(file_name);
    is_file && is_markdown(lower.as_str(), render_wip)
}

/// `a` comes before `b` in the order of strings: at the first byte where
/// they differ `a` has the smaller one, or `a` ends there and `b` goes on.
pub open spec fn precedes(a: Seq<u8>, b: Seq<u8>) -> bool
    decreases a.len(),
{
    if b.len() == 0 {
        false
    } else if a.len() == 0 {
        true
    } else if a[0] != b[0] {
        a[0] < b[0]
    } else {
        precedes(a.drop_first(), b.drop_first())
    }
}

/// The article `a` is listed under a date that comes before that of `b`.
pub open spec fn older(a: Article, b: Article) -> bool {
    precedes(encode_utf8(a.date@), encode_utf8(b.date@))
}

/// No article is followed by one with a later date.
pub open spec fn newest_first(articles: Seq<Article>) -> bool {
    forall|i: int, j: int|
        0 <= i < j < articles.len() ==> !older(#[trigger] articles[i], #[trigger] articles[j])
}

/// Of two strings, at most one comes before the other.
pub proof fn lemma_precedes_one_way(a: Seq<u8>, b: Seq<u8>)
    requires
        precedes(a, b),
    ensures
        !precedes(b, a),
    decreases a.len(),
{
    if a.len() > 0 && b.len() > 0 && a[0] == b[0] {
        lemma_precedes_one_way(a.drop_first(), b.drop_first());
    }
}

/// What comes before something that comes before a third comes before the
/// third.
pub proof fn lemma_precedes_chain(a: Seq<u8>, b: Seq<u8>, c: Seq<u8>)
    requires
        precedes(a, b),
        precedes(b, c),
    ensures
        precedes(a, c),
    decreases a.len(),
{
    if a.len() > 0 && a[0] == b[0] && b[0] == c[0] {
        lemma_precedes_chain(a.drop_first(), b.drop_first(), c.drop_first());
    }
}

/// Whether `a` comes before `b` in the order of strings.
pub fn comes_before(a: &str, b: &str) -> (yes: bool)
    ensures
        yes == precedes(encode_utf8(a@), encode_utf8(b@)),
{
    let x = a.as_bytes();
    let y = b.as_bytes();
    let mut i: usize = 0;
    proof {
        assert(x@.skip(0) =~= x@);
        assert(y@.skip(0) =~= y@);
    }
    while i < x.len() && i < y.len()
        invariant
            i <= x@.len(),
            i <= y@.len(),
            x@ == encode_utf8(a@),
            y@ == encode_utf8(b@),
            precedes(x@, y@) == precedes(x@.skip(i as int), y@.skip(i as int)),
        decreases x@.len() - i,
    {
        proof {
            assert(x@.skip(i as int).drop_first() =~= x@.skip(i + 1));
            assert(y@.skip(i as int).drop_first() =~= y@.skip(i + 1));
            assert(x@.skip(i as int)[0] == x@[i as int]);
            assert(y@.skip(i as int)[0] == y@[i as int]);
        }
        if x[i] != y[i] {
            return x[i] < y[i];
        }
        i += 1;
    }
    i < y.len()
}

/// Puts the articles in the order in which they are listed: the newest
/// first. Articles with the same date stand together, in no promised
/// order.
pub fn sort_articles(articles: Vec<Article>) -> (sorted: Vec<Article>)
    ensures
        newest_first(sorted@),
        sorted@.to_multiset() == articles@.to_multiset(),
{
    let ghost all = articles@;
    let mut sorted: Vec<Article> = Vec::new();
    proof {
        assert(all.take(0) =~= Seq::<Article>::empty());
    }
    for article in it: articles
        invariant
            it.seq() == all,
            newest_first(sorted@),
            sorted@.to_multiset() == all.take(it.index()).to_multiset(),
    {
        let mut at: usize = 0;
        while at < sorted.len() && !comes_before(
            sorted[at].date.as_str(),
            article.date.as_str(),
        )
            invariant
                at <= sorted@.len(),
                forall|j: int| 0 <= j < at ==> !older(#[trigger] sorted@[j], article),
            decreases sorted@.len() - at,
        {
            at += 1;
        }
        proof {
            let before = sorted@;
            let after = before.insert(at as int, article);
            assert forall|i: int, j: int| 0 <= i < j < after.len() implies !older(
                #[trigger] after[i],
                #[trigger] after[j],
            ) by {
                if j < at {
                    assert(after[i] == before[i] && after[j] == before[j]);
                } else if j == at {
                    assert(after[i] == before[i]);
                } else if i == at {
                    // the article went in before the first older one
                    let next = before[at as int];
                    let last = before[j - 1];
                    assert(after[j] == last);
                    assert(older(next, article));
                    lemma_precedes_one_way(
                        encode_utf8(next.date@),
                        encode_utf8(article.date@),
                    );
                    if j - 1 > at {
                        assert(!older(next, last));
                        if older(article, last) {
                            lemma_precedes_chain(
                                encode_utf8(next.date@),
                                encode_utf8(article.date@),
                                encode_utf8(last.date@),
                            );
                        }
                    }
                } else if i < at {
                    assert(after[i] == before[i] && after[j] == before[j - 1]);
                } else {
                    assert(after[i] == before[i - 1] && after[j] == before[j - 1]);
                }
            }
            vstd::seq_lib::to_multiset_insert(before, at as int, article);
            assert(all.take(it.index() + 1) =~= all.take(it.index()).push(article));
            vstd::seq_lib::to_multiset_build(all.take(it.index()), article);
        }
        sorted.insert(at, article);
    }
    proof {
        assert(all.take(all.len() as int) =~= all);
    }
    sorted
}

} // verus!
