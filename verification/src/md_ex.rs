//! Markdown documents that start with a header of `key: value` lines.
//!
//! A document is a sequence of bytes. Its header is read line by line: blank
//! lines are skipped, a line of dashes before the first entry is skipped, a
//! line of dashes after an entry ends the header, and every other line must
//! be an entry, a key and a non-empty value with a colon between them. What
//! follows the header is the markdown text.
use crate::header::Header;
use crate::text::{all_are, all_equal, chars_of, find, position, trim, trim_range};
use vstd::prelude::*;
use vstd::slice::slice_subrange;
use vstd::std_specs::cmp::PartialEqSpecImpl;
use vstd::utf8::{decode_utf8, valid_utf8};

verus! {

/// Why a header could not be read.
#[derive(Debug)]
pub enum HeaderError {
    /// A line that is neither blank nor made of dashes has no colon, or
    /// nothing but white space after its first colon. `key` is that line,
    /// trimmed.
    NoValue { key: String },
    /// A line of the header, or the text after it, is not UTF-8.
    InvalidUtf8,
}

/// What a [`HeaderError`] says, as plain values.
pub enum Failure {
    NoValue { key: Seq<char> },
    InvalidUtf8,
}

impl View for HeaderError {
    type V = Failure;

    open spec fn view(&self) -> Failure {
        match self {
            HeaderError::NoValue { key } => Failure::NoValue { key: key@ },
            HeaderError::InvalidUtf8 => Failure::InvalidUtf8,
        }
    }
}

/// What one line of a header is.
pub enum Line {
    /// Nothing but white space.
    Blank,
    /// Dashes only, at least one.
    Rule,
    /// A key, a colon and a value.
    Entry { key: Seq<char>, value: Seq<char> },
    /// Anything else; `text` is the line without the white space around it.
    Broken { text: Seq<char> },
}

/// Reads one line. The white space around the line does not count. In an
/// entry the key is what stands before the first colon, as it is, and the
/// value is what stands after it, without the white space around it; the
/// value may hold further colons.
pub open spec fn read_line(line: Seq<char>) -> Line {
    let text = trim(line);
    let colon = position(text, ':');
    if text.len() == 0 {
        Line::Blank
    } else if all_are(text, '-') {
        Line::Rule
    } else if colon < text.len() && trim(text.skip(colon + 1)).len() > 0 {
        Line::Entry { key: text.take(colon), value: trim(text.skip(colon + 1)) }
    } else {
        Line::Broken { text }
    }
}

/// The number of bytes in the first line of `bytes`, its line feed
/// included; all of `bytes` where it holds no line feed.
pub open spec fn line_end(bytes: Seq<u8>) -> int
    decreases bytes.len(),
{
    if bytes.len() == 0 {
        0
    } else if bytes[0] == 10u8 {
        1
    } else {
        1 + line_end(bytes.drop_first())
    }
}

/// The first line of a non-empty text is not empty, and lies within it.
pub proof fn lemma_line_end_bounds(bytes: Seq<u8>)
    ensures
        0 <= line_end(bytes) <= bytes.len(),
        bytes.len() > 0 ==> line_end(bytes) > 0,
    decreases bytes.len(),
{
    if bytes.len() > 0 && bytes[0] != 10u8 {
        lemma_line_end_bounds(bytes.drop_first());
    }
}

/// The first line ends after the first line feed, or where the text ends.
pub proof fn lemma_line_end(bytes: Seq<u8>, k: int)
    requires
        0 <= k <= bytes.len(),
        forall|j: int| 0 <= j < k ==> bytes[j] != 10u8,
        k == bytes.len() || bytes[k] == 10u8,
    ensures
        line_end(bytes) == if k == bytes.len() {
            k
        } else {
            k + 1
        },
    decreases k,
{
    if k > 0 {
        let rest = bytes.drop_first();
        assert forall|j: int| 0 <= j < k - 1 implies rest[j] != 10u8 by {
            assert(rest[j] == bytes[j + 1]);
        }
        if k < bytes.len() {
            assert(rest[k - 1] == bytes[k]);
        }
        lemma_line_end(rest, k - 1);
    }
}

/// How reading a header ends.
pub enum Outcome {
    /// The header was read: its entries, and the bytes that follow it.
    Read { entries: Map<Seq<char>, Seq<char>>, rest: Seq<u8> },
    /// It failed.
    Failed { failure: Failure },
}

/// Reads a header from `bytes`, line by line, with `entries` already read.
/// A line that is not UTF-8 fails, and so does a broken line. An entry is
/// put into the map, over an earlier entry with the same key. A rule ends
/// the header once the map holds an entry, and so does the end of the text.
pub open spec fn read_from(bytes: Seq<u8>, entries: Map<Seq<char>, Seq<char>>) -> Outcome
    decreases bytes.len(),
{
    let n = line_end(bytes);
    let line = bytes.take(n);
    let rest = bytes.skip(n);
    if bytes.len() == 0 {
        Outcome::Read { entries, rest: bytes }
    } else if !valid_utf8(line) {
        Outcome::Failed { failure: Failure::InvalidUtf8 }
    } else {
        proof {
            lemma_line_end_bounds(bytes);
        }
        match read_line(decode_utf8(line)) {
            Line::Blank => read_from(rest, entries),
            Line::Rule => if entries.is_empty() {
                read_from(rest, entries)
            } else {
                Outcome::Read { entries, rest }
            },
            Line::Entry { key, value } => read_from(rest, entries.insert(key, value)),
            Line::Broken { text } => Outcome::Failed { failure: Failure::NoValue { key: text } },
        }
    }
}

/// The header of the document `bytes`.
pub open spec fn header_of(bytes: Seq<u8>) -> Outcome {
    read_from(bytes, Map::empty())
}

/// Decodes `bytes` with `std::str::from_utf8`. Trusted: the call succeeds
/// exactly on well-formed UTF-8, and the text it then returns is the one
/// that the bytes encode.
#[verifier::external_body]
fn utf8_text<'a>(bytes: &'a [u8]) -> (text: Option<&'a str>)
    ensures
        match text {
            Some(t) => valid_utf8(bytes@) && t@ == decode_utf8(bytes@),
            None => !valid_utf8(bytes@),
        },
{
    std::str::from_utf8(bytes).ok()
}

/// One line of a header, classified, with the texts of an entry and of a
/// broken line as owned strings.
enum LineRead {
    Blank,
    Rule,
    Entry { key: String, value: String },
    Broken { text: String },
}

impl View for LineRead {
    type V = Line;

    closed spec fn view(&self) -> Line {
        match self {
            LineRead::Blank => Line::Blank,
            LineRead::Rule => Line::Rule,
            LineRead::Entry { key, value } => Line::Entry { key: key@, value: value@ },
            LineRead::Broken { text } => Line::Broken { text: text@ },
        }
    }
}

/// Classifies one line.
fn classify(line: &str) -> (read: LineRead)
    ensures
        read@ == read_line(line@),
{
    let chars = chars_of(line);
    let (from, to) = trim_range(&chars, 0, chars.len());
    proof {
        assert(chars@.subrange(0, chars.len() as int) =~= line@);
    }
    let ghost text = trim(line@);
    if from == to {
        return LineRead::Blank;
    }
    if all_equal(&chars, from, to, '-') {
        return LineRead::Rule;
    }
    let colon = find(&chars, from, to, ':');
    if colon < to {
        let (value_from, value_to) = trim_range(&chars, colon + 1, to);
        proof {
            assert(text.skip(colon - from + 1) =~= chars@.subrange(colon + 1, to as int));
            assert(text.take(colon - from) =~= chars@.subrange(from as int, colon as int));
        }
        if value_from < value_to {
            let key = line.substring_char(from, colon).to_owned();
            let value = line.substring_char(value_from, value_to).to_owned();
            return LineRead::Entry { key, value };
        }
    }
    LineRead::Broken { text: line.substring_char(from, to).to_owned() }
}

/// The number of bytes in the line that starts at `from`.
fn line_length(bytes: &[u8], from: usize) -> (n: usize)
    requires
        from <= bytes@.len(),
    ensures
        n == line_end(bytes@.skip(from as int)),
        from + n <= bytes@.len(),
{
    let ghost tail = bytes@.skip(from as int);
    let mut at: usize = from;
    while at < bytes.len() && bytes[at] != 10u8
        invariant
            from <= at <= bytes@.len(),
            forall|j: int| from <= j < at ==> bytes@[j] != 10u8,
        decreases bytes@.len() - at,
    {
        at += 1;
    }
    proof {
        assert forall|j: int| 0 <= j < at - from implies tail[j] != 10u8 by {
            assert(tail[j] == bytes@[j + from]);
        }
        if at < bytes@.len() {
            assert(tail[at - from] == bytes@[at as int]);
        }
        lemma_line_end(tail, at - from);
    }
    if at < bytes.len() {
        at - from + 1
    } else {
        at - from
    }
}

/// Reads the header at the start of `bytes` and tells how many bytes it
/// takes up.
fn scan(bytes: &[u8]) -> (read: Result<(Header, usize), HeaderError>)
    ensures
        match header_of(bytes@) {
            Outcome::Read { entries, rest } => read matches Ok((header, used)) && header@
                == entries && used <= bytes@.len() && bytes@.skip(used as int) == rest,
            Outcome::Failed { failure } => read matches Err(error) && error@ == failure,
        },
{
    let mut header = Header::new();
    let mut at: usize = 0;
    proof {
        assert(bytes@.skip(0) =~= bytes@);
    }
    while at < bytes.len()
        invariant
            at <= bytes@.len(),
            header_of(bytes@) == read_from(bytes@.skip(at as int), header@),
        decreases bytes@.len() - at,
    {
        let ghost tail = bytes@.skip(at as int);
        let n = line_length(bytes, at);
        proof {
            lemma_line_end_bounds(tail);
            assert(tail.take(n as int) =~= bytes@.subrange(at as int, at + n));
            assert(tail.skip(n as int) =~= bytes@.skip(at + n));
        }
        let line = match utf8_text(slice_subrange(bytes, at, at + n)) {
            Some(line) => line,
            None => {
                return Err(HeaderError::InvalidUtf8);
            },
        };
        at = at + n;
        match classify(line) {
            LineRead::Blank => {},
            LineRead::Rule => {
                if !header.is_empty() {
                    return Ok((header, at));
                }
            },
            LineRead::Entry { key, value } => {
                header.insert(key, value);
            },
            LineRead::Broken { text } => {
                return Err(HeaderError::NoValue { key: text });
            },
        }
    }
    proof {
        assert(bytes@.skip(at as int) =~= Seq::<u8>::empty());
    }
    Ok((header, at))
}

/// Which markdown constructs are read, beyond or short of the defaults of
/// the `markdown` crate. Constructs that are not named here keep their
/// default; the HTML is written as for GitHub-flavoured markdown.
#[derive(Clone, Copy, Debug)]
pub struct Dialect {
    /// `<https://example.com>`
    pub autolink: bool,
    /// `\*` for a literal asterisk
    pub character_escape: bool,
    /// `[^a]: b`
    pub footnote_definition: bool,
    /// `[^a]`
    pub footnote_label: bool,
    /// `~~a~~`
    pub strikethrough: bool,
    /// `~a~` counts as strikethrough too
    pub single_tilde: bool,
    /// tables
    pub table: bool,
}

/// The dialect in which the articles of the site are written: all of the
/// constructs above.
pub open spec fn site_dialect() -> Dialect {
    Dialect {
        autolink: true,
        character_escape: true,
        footnote_definition: true,
        footnote_label: true,
        strikethrough: true,
        single_tilde: true,
        table: true,
    }
}

impl Dialect {
    /// The dialect of the site.
    pub fn site() -> (dialect: Dialect)
        ensures
            dialect == site_dialect(),
    {
        Dialect {
            autolink: true,
            character_escape: true,
            footnote_definition: true,
            footnote_label: true,
            strikethrough: true,
            single_tilde: true,
            table: true,
        }
    }
}

/// The HTML that the `markdown` crate writes for `text` read in `dialect`.
pub uninterp spec fn rendered_markdown(text: Seq<char>, dialect: Dialect) -> Seq<char>;

/// Calls `markdown::to_html_with_options`. Trusted: the result is what
/// `rendered_markdown` stands for, and the call does not fail. The crate
/// documents that it fails on MDX only, and no field of a [`Dialect`] turns
/// MDX on.
#[verifier::external_body]
fn markdown_to_html(text: &str, dialect: &Dialect) -> (html: String)
    ensures
        html@ == rendered_markdown(text@, *dialect),
{
    let constructs = markdown::Constructs {
        autolink: dialect.autolink,
        character_escape: dialect.character_escape,
        gfm_footnote_definition: dialect.footnote_definition,
        gfm_label_start_footnote: dialect.footnote_label,
        gfm_strikethrough: dialect.strikethrough,
        gfm_table: dialect.table,
        ..Default::default()
    };
    let single_tilde = dialect.single_tilde;
    let parse = markdown::ParseOptions { gfm_strikethrough_single_tilde: single_tilde, constructs, ..Default::default() };
    let options = markdown::Options { parse, compile: markdown::CompileOptions::gfm() };
    markdown::to_html_with_options(text, &options).unwrap()
}

/// Turns the markdown `s` into HTML, in the dialect of the site.
pub fn md_to_html(s: &str) -> (html: String)
    ensures
        html@ == rendered_markdown(s@, site_dialect()),
{
    let dialect = Dialect::site();
    markdown_to_html(s, &dialect)
}

/// A document: the entries of its header and its markdown text.
pub struct Document {
    pub header: Map<Seq<char>, Seq<char>>,
    pub markdown: Seq<char>,
}

/// The document that `bytes` hold: the header at their start, and the
/// bytes after it as text. It fails where the header fails, and where the
/// bytes after the header are not UTF-8.
pub open spec fn document_of(bytes: Seq<u8>) -> Result<Document, Failure> {
    match header_of(bytes) {
        Outcome::Read { entries, rest } => if valid_utf8(rest) {
            Ok(Document { header: entries, markdown: decode_utf8(rest) })
        } else {
            Err(Failure::InvalidUtf8)
        },
        Outcome::Failed { failure } => Err(failure),
    }
}

/// A markdown document with its header.
#[derive(Debug)]
pub struct ExtendedMd {
    /// The entries of the header.
    pub header: Header,
    /// The markdown text that follows the header.
    pub markdown_str: String,
}

impl View for ExtendedMd {
    type V = Document;

    open spec fn view(&self) -> Document {
        Document { header: self.header@, markdown: self.markdown_str@ }
    }
}

impl ExtendedMd {
    /// Reads the header at the start of the document `bytes`; what follows
    /// the header is not looked at.
    pub fn read_header(bytes: &[u8]) -> (read: Result<Header, HeaderError>)
        ensures
            match header_of(bytes@) {
                Outcome::Read { entries, rest } => read matches Ok(header) && header@ == entries,
                Outcome::Failed { failure } => read matches Err(error) && error@ == failure,
            },
    {
        match scan(bytes) {
            Ok((header, _)) => Ok(header),
            Err(error) => Err(error),
        }
    }

    /// Reads a document from `bytes`: its header, and what follows the
    /// header as its markdown text.
    pub fn from_bufread(bytes: &[u8]) -> (read: Result<Self, HeaderError>)
        ensures
            match document_of(bytes@) {
                Ok(document) => read matches Ok(md) && md@ == document,
                Err(failure) => read matches Err(error) && error@ == failure,
            },
    {
        let (header, used) = match scan(bytes) {
            Ok(read) => read,
            Err(error) => {
                return Err(error);
            },
        };
        proof {
            assert(bytes@.skip(used as int) =~= bytes@.subrange(used as int, bytes@.len() as int));
        }
        match utf8_text(slice_subrange(bytes, used, bytes.len())) {
            Some(text) => Ok(ExtendedMd { header, markdown_str: text.to_owned() }),
            None => Err(HeaderError::InvalidUtf8),
        }
    }

    /// The markdown text of the document as HTML, in the dialect of the
    /// site.
    pub fn to_html(&self) -> (html: String)
        ensures
            html@ == rendered_markdown(self@.markdown, site_dialect()),
    {
        md_to_html(self.markdown_str.as_str())
    }
}

impl PartialEq for ExtendedMd {
    /// Two documents are equal when their headers hold the same entries and
    /// their markdown texts are the same.
    fn eq(&self, other: &Self) -> (equal: bool) {
        self.header == other.header && self.markdown_str == other.markdown_str
    }
}

impl PartialEqSpecImpl for ExtendedMd {
    open spec fn obeys_eq_spec() -> bool {
        true
    }

    open spec fn eq_spec(&self, other: &Self) -> bool {
        self@ == other@
    }
}

impl Eq for ExtendedMd {

}

} // verus!
