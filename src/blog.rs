use crate::date::{
    chrono_parsed_date, ends_with_weekday, format_pub_date, parse_timestamp, timestamp_pattern,
    PublishDate,
};
use crate::html::{
    all_html_with_class, first_html_with_class, first_html_with_id,
    first_paragraph_text_in_class, first_text_with_class, opt_view, HtmlDocument,
};
use vstd::hash_map::StringHashMap;
use vstd::prelude::*;

verus! {

/// Class of the element that holds an article's title.
pub const TITLE_CLASS: &'static str = "title";

/// Class of the element that holds an article's timestamp.
pub const TIMESTAMP_CLASS: &'static str = "timestamp";

/// `id` of the element that holds the table of contents.
pub const TOC_ID: &'static str = "text-table-of-contents";

/// Class of the top-level outline block that holds the article's body.
pub const CONTENTS_CLASS: &'static str = "outline-2";

/// Class of each footnote definition.
pub const FOOTNOTE_CLASS: &'static str = "footdef";

/// One article of the blog, as read from its exported HTML document.
#[derive(Debug)]
pub struct OrgModeHtml {
    pub title: String,
    pub date: PublishDate,
    pub pub_date: String,
    pub toc: String,
    pub desc: String,
    pub html: String,
    pub slug: String,
    pub footnotes: Vec<String>,
}

/// What an article holds, as mathematical values.
pub struct ArticleView {
    pub title: Seq<char>,
    pub date: PublishDate,
    pub pub_date: Seq<char>,
    pub toc: Seq<char>,
    pub desc: Seq<char>,
    pub html: Seq<char>,
    pub slug: Seq<char>,
    pub footnotes: Seq<Seq<char>>,
}

pub open spec fn string_views(s: Seq<String>) -> Seq<Seq<char>> {
    s.map_values(|x: String| x@)
}

impl View for OrgModeHtml {
    type V = ArticleView;

    open spec fn view(&self) -> ArticleView {
        ArticleView {
            title: self.title@,
            date: self.date,
            pub_date: self.pub_date@,
            toc: self.toc@,
            desc: self.desc@,
            html: self.html@,
            slug: self.slug@,
            footnotes: string_views(self.footnotes@),
        }
    }
}

impl Clone for OrgModeHtml {
    fn clone(&self) -> (r: Self)
        ensures
            r@ == self@,
    {
        let footnotes = self.footnotes.clone();
        assert(footnotes@ =~= self.footnotes@);
        OrgModeHtml {
            title: self.title.clone(),
            date: self.date,
            pub_date: self.pub_date.clone(),
            toc: self.toc.clone(),
            desc: self.desc.clone(),
            html: self.html.clone(),
            slug: self.slug.clone(),
            footnotes,
        }
    }
}

/// Why a document could not be read as an article; each failure carries the document's path.
#[derive(Debug, PartialEq, Eq)]
pub enum ParsingError {
    CannotFindToc(String),
    CannotParseDate(String),
    CannotFindTitle(String),
    CannotFindFirstParagraph(String),
    CannotFindDate(String),
    CannotFindContents(String),
    CannotMakeSlug(String),
    CannotParseHtml(String),
}

/// The kinds of parse failure, for contracts.
pub enum ParseFailure {
    Toc,
    DateFormat,
    Title,
    FirstParagraph,
    Date,
    Contents,
    Slug,
    Unreadable,
}

impl View for ParsingError {
    type V = (ParseFailure, Seq<char>);

    open spec fn view(&self) -> (ParseFailure, Seq<char>) {
        match self {
            ParsingError::CannotFindToc(p) => (ParseFailure::Toc, p@),
            ParsingError::CannotParseDate(p) => (ParseFailure::DateFormat, p@),
            ParsingError::CannotFindTitle(p) => (ParseFailure::Title, p@),
            ParsingError::CannotFindFirstParagraph(p) => (ParseFailure::FirstParagraph, p@),
            ParsingError::CannotFindDate(p) => (ParseFailure::Date, p@),
            ParsingError::CannotFindContents(p) => (ParseFailure::Contents, p@),
            ParsingError::CannotMakeSlug(p) => (ParseFailure::Slug, p@),
            ParsingError::CannotParseHtml(p) => (ParseFailure::Unreadable, p@),
        }
    }
}

pub open spec fn outcome_view(r: Result<OrgModeHtml, ParsingError>) -> Result<
    ArticleView,
    (ParseFailure, Seq<char>),
> {
    match r {
        Ok(a) => Ok(a@),
        Err(e) => Err(e@),
    }
}

/// Index just past the last `/` of a path, or 0 where it has none.
pub open spec fn file_name_start(path: Seq<char>) -> int
    decreases path.len(),
{
    if path.len() == 0 {
        0
    } else if path.last() == '/' {
        path.len() as int
    } else {
        file_name_start(path.drop_last())
    }
}

/// The last component of a `/`-separated path.
pub open spec fn file_name(path: Seq<char>) -> Seq<char> {
    path.subrange(file_name_start(path), path.len() as int)
}

pub open spec fn html_extension() -> Seq<char> {
    seq!['.', 'h', 't', 'm', 'l']
}

pub open spec fn ends_with_html(name: Seq<char>) -> bool {
    name.len() >= 5 && name.subrange(name.len() - 5, name.len() as int) == html_extension()
}

/// The slug of a document: its file name without the `.html` extension; none where
/// that leaves nothing.
pub open spec fn slug_of(path: Seq<char>) -> Option<Seq<char>> {
    let name = file_name(path);
    let stem = if ends_with_html(name) {
        name.subrange(0, name.len() - 5)
    } else {
        name
    };
    if stem.len() == 0 {
        None
    } else {
        Some(stem)
    }
}

proof fn lemma_file_name_start_skip(path: Seq<char>, i: int)
    requires
        0 <= i <= path.len(),
        forall|k: int| i <= k < path.len() ==> path[k] != '/',
    ensures
        file_name_start(path) == file_name_start(path.subrange(0, i)),
    decreases path.len() - i,
{
    if i == path.len() {
        assert(path.subrange(0, i) =~= path);
    } else {
        let shorter = path.drop_last();
        assert(shorter.subrange(0, i) =~= path.subrange(0, i));
        lemma_file_name_start_skip(shorter, i);
    }
}

/// The last component of `path`.
pub fn file_name_of(path: &str) -> (r: &str)
    ensures
        r@ == file_name(path@),
{
    let len = path.unicode_len();
    let mut i: usize = len;
    while i > 0 && path.get_char(i - 1) != '/'
        invariant
            len == path@.len(),
            i <= len,
            forall|k: int| i <= k < len ==> path@[k] != '/',
        decreases i,
    {
        i = i - 1;
    }
    proof {
        lemma_file_name_start_skip(path@, i as int);
        let head = path@.subrange(0, i as int);
        if i > 0 {
            assert(head.last() == '/');
        }
        assert(file_name_start(path@) == i);
    }
    path.substring_char(i, len)
}

/// Whether `name` ends with `.html`.
pub fn has_html_extension(name: &str) -> (r: bool)
    ensures
        r == ends_with_html(name@),
{
    let n = name.unicode_len();
    if n >= 5 && name.get_char(n - 5) == '.' && name.get_char(n - 4) == 'h' && name.get_char(n - 3)
        == 't' && name.get_char(n - 2) == 'm' && name.get_char(n - 1) == 'l' {
        assert(name@.subrange(n - 5, n as int) =~= html_extension());
        true
    } else {
        assert(!ends_with_html(name@)) by {
            if ends_with_html(name@) {
                let ext = name@.subrange(n - 5, n as int);
                assert(ext[0] == name@[n - 5]);
                assert(ext[1] == name@[n - 4]);
                assert(ext[2] == name@[n - 3]);
                assert(ext[3] == name@[n - 2]);
                assert(ext[4] == name@[n - 1]);
            }
        }
        false
    }
}

/// The slug of the document at `path`.
pub fn slug_of_path(path: &str) -> (r: Option<String>)
    ensures
        opt_view(r) == slug_of(path@),
{
    let name = file_name_of(path);
    let stem = if has_html_extension(name) {
        name.substring_char(0, name.unicode_len() - 5)
    } else {
        name
    };
    if stem.unicode_len() == 0 {
        None
    } else {
        Some(stem.to_owned())
    }
}

/// What the markup queries found in one document.
pub struct ArticleParts {
    pub title: Option<String>,
    pub timestamp: Option<String>,
    pub toc: Option<String>,
    pub contents: Option<String>,
    pub first_paragraph: Option<String>,
    pub footnotes: Vec<String>,
}

pub struct ArticlePartsView {
    pub title: Option<Seq<char>>,
    pub timestamp: Option<Seq<char>>,
    pub toc: Option<Seq<char>>,
    pub contents: Option<Seq<char>>,
    pub first_paragraph: Option<Seq<char>>,
    pub footnotes: Seq<Seq<char>>,
}

impl View for ArticleParts {
    type V = ArticlePartsView;

    open spec fn view(&self) -> ArticlePartsView {
        ArticlePartsView {
            title: opt_view(self.title),
            timestamp: opt_view(self.timestamp),
            toc: opt_view(self.toc),
            contents: opt_view(self.contents),
            first_paragraph: opt_view(self.first_paragraph),
            footnotes: string_views(self.footnotes@),
        }
    }
}

/// What the markup queries find in the document whose text is `source`.
pub open spec fn parts_of(source: Seq<char>) -> ArticlePartsView {
    ArticlePartsView {
        title: first_text_with_class(source, TITLE_CLASS@),
        timestamp: first_text_with_class(source, TIMESTAMP_CLASS@),
        toc: first_html_with_id(source, TOC_ID@),
        contents: first_html_with_class(source, CONTENTS_CLASS@),
        first_paragraph: first_paragraph_text_in_class(source, CONTENTS_CLASS@),
        footnotes: all_html_with_class(source, FOOTNOTE_CLASS@),
    }
}

/// The article made of what was found in the document at `path`, or the first
/// failure in the order title, timestamp, date format, table of contents, body,
/// first paragraph, slug.
pub open spec fn article_spec(path: Seq<char>, parts: ArticlePartsView) -> Result<
    ArticleView,
    (ParseFailure, Seq<char>),
> {
    if parts.title is None {
        Err((ParseFailure::Title, path))
    } else if parts.timestamp is None {
        Err((ParseFailure::Date, path))
    } else if chrono_parsed_date(parts.timestamp->0, timestamp_pattern()) is None {
        Err((ParseFailure::DateFormat, path))
    } else if parts.toc is None {
        Err((ParseFailure::Toc, path))
    } else if parts.contents is None {
        Err((ParseFailure::Contents, path))
    } else if parts.first_paragraph is None {
        Err((ParseFailure::FirstParagraph, path))
    } else if slug_of(path) is None {
        Err((ParseFailure::Slug, path))
    } else {
        let (y, m, d) = chrono_parsed_date(parts.timestamp->0, timestamp_pattern())->0;
        let date = PublishDate { year: y, month: m, day: d };
        Ok(
            ArticleView {
                title: parts.title->0,
                date,
                pub_date: date.pub_date_text(),
                toc: parts.toc->0,
                desc: parts.first_paragraph->0,
                html: parts.contents->0,
                slug: slug_of(path)->0,
                footnotes: parts.footnotes,
            },
        )
    }
}

/// What reading the document at `path` gives; `contents` is `None` where the file
/// could not be read as text.
pub open spec fn parse_spec(path: Seq<char>, contents: Option<Seq<char>>) -> Result<
    ArticleView,
    (ParseFailure, Seq<char>),
> {
    match contents {
        None => Err((ParseFailure::Unreadable, path)),
        Some(source) => article_spec(path, parts_of(source)),
    }
}

/// Builds the article of the document at `blog_file` from what its markup holds.
pub fn article_from_parts(blog_file: &str, parts: ArticleParts) -> (r: Result<
    OrgModeHtml,
    ParsingError,
>)
    ensures
        outcome_view(r) == article_spec(blog_file@, parts@),
        r matches Ok(a) ==> a.date.valid(),
        parts@.timestamp matches Some(t) ==> (parts@.title is Some && !ends_with_weekday(t)
            ==> outcome_view(r) == Err::<ArticleView, _>((ParseFailure::DateFormat, blog_file@))),
{
    let ArticleParts { title, timestamp, toc, contents, first_paragraph, footnotes } = parts;
    let title = match title {
        Some(t) => t,
        None => {
            return Err(ParsingError::CannotFindTitle(blog_file.to_owned()));
        },
    };
    let timestamp = match timestamp {
        Some(t) => t,
        None => {
            return Err(ParsingError::CannotFindDate(blog_file.to_owned()));
        },
    };
    let date = match parse_timestamp(timestamp.as_str()) {
        Some(d) => d,
        None => {
            return Err(ParsingError::CannotParseDate(blog_file.to_owned()));
        },
    };
    let toc = match toc {
        Some(t) => t,
        None => {
            return Err(ParsingError::CannotFindToc(blog_file.to_owned()));
        },
    };
    let html = match contents {
        Some(t) => t,
        None => {
            return Err(ParsingError::CannotFindContents(blog_file.to_owned()));
        },
    };
    let desc = match first_paragraph {
        Some(t) => t,
        None => {
            return Err(ParsingError::CannotFindFirstParagraph(blog_file.to_owned()));
        },
    };
    let slug = match slug_of_path(blog_file) {
        Some(s) => s,
        None => {
            return Err(ParsingError::CannotMakeSlug(blog_file.to_owned()));
        },
    };
    let pub_date = format_pub_date(&date);
    Ok(OrgModeHtml { title, date, pub_date, toc, desc, html, slug, footnotes })
}

/// Reads one exported document as an article. `file_contents` is the document's text,
/// or `None` where the file could not be read.
pub fn get_html_contents(blog_file: &str, file_contents: Option<String>) -> (r: Result<
    OrgModeHtml,
    ParsingError,
>)
    ensures
        outcome_view(r) == parse_spec(blog_file@, opt_view(file_contents)),
        r matches Ok(a) ==> a.date.valid(),
        file_contents matches Some(src) ==> (first_text_with_class(src@, TIMESTAMP_CLASS@) matches Some(
            t,
        ) ==> (first_text_with_class(src@, TITLE_CLASS@) is Some && !ends_with_weekday(t)
            ==> outcome_view(r) == Err::<ArticleView, _>((ParseFailure::DateFormat, blog_file@)))),
{
    let source = match file_contents {
        Some(s) => s,
        None => {
            return Err(ParsingError::CannotParseHtml(blog_file.to_owned()));
        },
    };
    let document = HtmlDocument::parse(source);
    let parts = ArticleParts {
        title: document.first_text_with_class(TITLE_CLASS),
        timestamp: document.first_text_with_class(TIMESTAMP_CLASS),
        toc: document.first_html_with_id(TOC_ID),
        contents: document.first_html_with_class(CONTENTS_CLASS),
        first_paragraph: document.first_paragraph_text_in_class(CONTENTS_CLASS),
        footnotes: document.all_html_with_class(FOOTNOTE_CLASS),
    };
    article_from_parts(blog_file, parts)
}

/// Reading a document is a function of its path and its text: two reads of the same
/// document give equal articles, or the same failure for the same path.
pub proof fn lemma_parse_is_deterministic(
    path: Seq<char>,
    contents: Option<Seq<char>>,
    first: Result<OrgModeHtml, ParsingError>,
    second: Result<OrgModeHtml, ParsingError>,
)
    requires
        outcome_view(first) == parse_spec(path, contents),
        outcome_view(second) == parse_spec(path, contents),
    ensures
        outcome_view(first) == outcome_view(second),
        first is Ok <==> second is Ok,
        first matches Ok(a) ==> second matches Ok(b) && a@ == b@,
{
}

/// A document that has a title but no timestamp element fails with the missing-date
/// failure, which carries the document's path, whatever else it lacks.
pub proof fn lemma_missing_timestamp(path: Seq<char>, source: Seq<char>)
    requires
        first_text_with_class(source, TITLE_CLASS@) is Some,
        first_text_with_class(source, TIMESTAMP_CLASS@) is None,
    ensures
        parse_spec(path, Some(source)) == Err::<ArticleView, _>((ParseFailure::Date, path)),
{
}

/// A document with a title and a timestamp element whose text chrono does not read
/// under the timestamp pattern fails with the date-format failure, not the
/// missing-date one.
pub proof fn lemma_unreadable_timestamp(path: Seq<char>, source: Seq<char>)
    requires
        first_text_with_class(source, TITLE_CLASS@) is Some,
        first_text_with_class(source, TIMESTAMP_CLASS@) matches Some(t) && chrono_parsed_date(
            t,
            timestamp_pattern(),
        ) is None,
    ensures
        parse_spec(path, Some(source)) == Err::<ArticleView, _>(
            (ParseFailure::DateFormat, path),
        ),
        parse_spec(path, Some(source)) != Err::<ArticleView, _>((ParseFailure::Date, path)),
{
}

/// An entry found inside one of the category directories of the source root.
pub struct TreeEntry {
    pub path: String,
    pub is_dir: bool,
}

pub open spec fn entry_views(entries: Seq<TreeEntry>) -> Seq<(Seq<char>, bool)> {
    entries.map_values(|e: TreeEntry| (e.path@, e.is_dir))
}

/// A file name whose extension is `html`: it ends with `.html` and has something before it.
pub open spec fn is_html_name(path: Seq<char>) -> bool {
    file_name(path).len() > 5 && ends_with_html(file_name(path))
}

pub open spec fn is_html_entry(e: (Seq<char>, bool)) -> bool {
    !e.1 && is_html_name(e.0)
}

pub open spec fn entry_paths(entries: Seq<(Seq<char>, bool)>) -> Seq<Seq<char>> {
    entries.map_values(|e: (Seq<char>, bool)| e.0)
}

/// The paths of the HTML files among `entries`, in order.
pub open spec fn html_files(entries: Seq<(Seq<char>, bool)>) -> Seq<Seq<char>>
    decreases entries.len(),
{
    if entries.len() == 0 {
        Seq::empty()
    } else {
        let rest = html_files(entries.drop_last());
        if is_html_entry(entries.last()) {
            rest.push(entries.last().0)
        } else {
            rest
        }
    }
}

/// Locates the article documents: `entries` are the entries of each directory directly
/// under `base`; the HTML files among them are kept, in order.
pub fn get_html_files(base: &str, base_is_dir: bool, entries: &Vec<TreeEntry>) -> (r: Result<
    Vec<String>,
    crate::error::SiteError,
>)
    ensures
        !base_is_dir <==> r is Err,
        r matches Err(e) ==> e matches crate::error::SiteError::NotADirectory(p) && p@ == base@,
        r matches Ok(files) ==> string_views(files@) == html_files(entry_views(entries@)),
        r matches Ok(files) ==> (entry_paths(entry_views(entries@)).no_duplicates()
            ==> string_views(files@).no_duplicates()),
{
    if !base_is_dir {
        return Err(crate::error::SiteError::NotADirectory(base.to_owned()));
    }
    let mut html: Vec<String> = Vec::new();
    let mut i: usize = 0;
    while i < entries.len()
        invariant
            i <= entries@.len(),
            string_views(html@) == html_files(entry_views(entries@).subrange(0, i as int)),
        decreases entries@.len() - i,
    {
        let ghost before = entry_views(entries@).subrange(0, i as int);
        let ghost after = entry_views(entries@).subrange(0, i + 1);
        assert(after.drop_last() =~= before);
        let entry = &entries[i];
        if !entry.is_dir {
            let name = file_name_of(entry.path.as_str());
            if name.unicode_len() > 5 && has_html_extension(name) {
                html.push(entry.path.clone());
                assert(string_views(html@) =~= html_files(after));
            } else {
                assert(string_views(html@) =~= html_files(after));
            }
        } else {
            assert(string_views(html@) =~= html_files(after));
        }
        i = i + 1;
    }
    assert(entry_views(entries@).subrange(0, entries@.len() as int) =~= entry_views(entries@));
    proof {
        if entry_paths(entry_views(entries@)).no_duplicates() {
            lemma_locator_exact(entry_views(entries@));
        }
    }
    Ok(html)
}

/// A path is located exactly when it is the path of an HTML file among the entries.
pub proof fn lemma_html_files_members(entries: Seq<(Seq<char>, bool)>, p: Seq<char>)
    ensures
        html_files(entries).contains(p) <==> exists|i: int|
            0 <= i < entries.len() && #[trigger] entries[i].0 == p && is_html_entry(entries[i]),
    decreases entries.len(),
{
    if entries.len() > 0 {
        let init = entries.drop_last();
        let last = entries.last();
        let rest = html_files(init);
        lemma_html_files_members(init, p);
        if html_files(entries).contains(p) {
            let k = choose|k: int| 0 <= k < html_files(entries).len() && html_files(entries)[k] == p;
            if k < rest.len() {
                assert(rest.contains(p));
                let i = choose|i: int|
                    0 <= i < init.len() && #[trigger] init[i].0 == p && is_html_entry(init[i]);
                assert(entries[i].0 == p);
            } else {
                assert(entries[entries.len() - 1].0 == p);
            }
        }
        if exists|i: int| 0 <= i < entries.len() && #[trigger] entries[i].0 == p && is_html_entry(
            entries[i],
        ) {
            let i = choose|i: int|
                0 <= i < entries.len() && #[trigger] entries[i].0 == p && is_html_entry(entries[i]);
            if i < init.len() {
                assert(init[i].0 == p);
                assert(rest.contains(p));
                let k = choose|k: int| 0 <= k < rest.len() && rest[k] == p;
                if is_html_entry(last) {
                    assert(rest.push(last.0)[k] == p);
                }
            } else {
                assert(rest.push(last.0)[rest.len() as int] == p);
            }
        }
    }
}

/// Every HTML file of the tree is located exactly once: where the entries' paths are
/// distinct, the located paths are distinct too, and they are exactly the paths of the
/// HTML files among the entries.
pub proof fn lemma_locator_exact(entries: Seq<(Seq<char>, bool)>)
    requires
        entry_paths(entries).no_duplicates(),
    ensures
        html_files(entries).no_duplicates(),
        forall|p: Seq<char>|
            #[trigger] html_files(entries).contains(p) <==> exists|i: int|
                0 <= i < entries.len() && #[trigger] entries[i].0 == p && is_html_entry(
                    entries[i],
                ),
    decreases entries.len(),
{
    assert forall|p: Seq<char>|
        #[trigger] html_files(entries).contains(p) <==> exists|i: int|
            0 <= i < entries.len() && #[trigger] entries[i].0 == p && is_html_entry(
                entries[i],
            ) by {
        lemma_html_files_members(entries, p);
    }
    if entries.len() > 0 {
        let init = entries.drop_last();
        let paths = entry_paths(entries);
        let init_paths = init.map_values(|e: (Seq<char>, bool)| e.0);
        assert(init_paths =~= paths.drop_last());
        assert forall|i: int, j: int|
            0 <= i < init_paths.len() && 0 <= j < init_paths.len() && i != j implies #[trigger] init_paths[i]
                != #[trigger] init_paths[j] by {
            assert(paths[i] != paths[j]);
        }
        lemma_locator_exact(init);
        let last = entries.last();
        if is_html_entry(last) {
            if html_files(init).contains(last.0) {
                lemma_html_files_members(init, last.0);
                let i = choose|i: int|
                    0 <= i < init.len() && #[trigger] init[i].0 == last.0 && is_html_entry(
                        init[i],
                    );
                assert(paths[i] == paths[entries.len() - 1]);
            }
            let rest = html_files(init);
            assert forall|i: int, j: int|
                0 <= i < rest.push(last.0).len() && 0 <= j < rest.push(last.0).len() && i
                    != j implies #[trigger] rest.push(last.0)[i] != #[trigger] rest.push(last.0)[j] by {
                if i < rest.len() && j < rest.len() {
                } else if i < rest.len() {
                    assert(rest.contains(rest[i]));
                } else {
                    assert(rest.contains(rest[j]));
                }
            }
        }
    }
}

/// One candidate document: its path, and its text, or `None` where it could not be read.
pub struct SourceDocument {
    pub path: String,
    pub contents: Option<String>,
}

pub open spec fn document_views(docs: Seq<SourceDocument>) -> Seq<(Seq<char>, Option<Seq<char>>)> {
    docs.map_values(|d: SourceDocument| (d.path@, opt_view(d.contents)))
}

pub open spec fn article_views(s: Seq<OrgModeHtml>) -> Seq<ArticleView> {
    s.map_values(|a: OrgModeHtml| a@)
}

pub open spec fn failure_views(s: Seq<ParsingError>) -> Seq<(ParseFailure, Seq<char>)> {
    s.map_values(|e: ParsingError| e@)
}

/// The articles read from the documents that parse, in the documents' order.
pub open spec fn parsed_articles(docs: Seq<(Seq<char>, Option<Seq<char>>)>) -> Seq<ArticleView>
    decreases docs.len(),
{
    if docs.len() == 0 {
        Seq::empty()
    } else {
        let rest = parsed_articles(docs.drop_last());
        match parse_spec(docs.last().0, docs.last().1) {
            Ok(a) => rest.push(a),
            Err(_) => rest,
        }
    }
}

/// The failures of the documents that do not parse, in the documents' order.
pub open spec fn parse_failures(docs: Seq<(Seq<char>, Option<Seq<char>>)>) -> Seq<
    (ParseFailure, Seq<char>),
>
    decreases docs.len(),
{
    if docs.len() == 0 {
        Seq::empty()
    } else {
        let rest = parse_failures(docs.drop_last());
        match parse_spec(docs.last().0, docs.last().1) {
            Ok(_) => rest,
            Err(e) => rest.push(e),
        }
    }
}

/// `a` was published strictly before `b`.
pub open spec fn older(a: ArticleView, b: ArticleView) -> bool {
    !b.date.not_after(a.date)
}

/// Where `a` goes in a newest-first list: after every article that is not older than it.
pub open spec fn insert_position(sorted: Seq<ArticleView>, a: ArticleView) -> int
    decreases sorted.len(),
{
    if sorted.len() == 0 {
        0
    } else if older(sorted.last(), a) {
        insert_position(sorted.drop_last(), a)
    } else {
        sorted.len() as int
    }
}

/// The articles sorted newest first; articles of the same date keep their order.
pub open spec fn newest_first(s: Seq<ArticleView>) -> Seq<ArticleView>
    decreases s.len(),
{
    if s.len() == 0 {
        s
    } else {
        let sorted = newest_first(s.drop_last());
        sorted.insert(insert_position(sorted, s.last()), s.last())
    }
}

pub open spec fn is_newest_first(s: Seq<ArticleView>) -> bool {
    forall|i: int, j: int| 0 <= i < j < s.len() ==> #[trigger] s[j].date.not_after(#[trigger] s[i].date)
}

proof fn lemma_insert_position_skip(sorted: Seq<ArticleView>, a: ArticleView, k: int)
    requires
        0 <= k <= sorted.len(),
        forall|j: int| k <= j < sorted.len() ==> older(#[trigger] sorted[j], a),
    ensures
        insert_position(sorted, a) == insert_position(sorted.subrange(0, k), a),
    decreases sorted.len() - k,
{
    if k == sorted.len() {
        assert(sorted.subrange(0, k) =~= sorted);
    } else {
        let init = sorted.drop_last();
        assert(init.subrange(0, k) =~= sorted.subrange(0, k));
        lemma_insert_position_skip(init, a, k);
    }
}

proof fn lemma_insert_position_bounds(sorted: Seq<ArticleView>, a: ArticleView)
    ensures
        0 <= insert_position(sorted, a) <= sorted.len(),
        forall|j: int|
            insert_position(sorted, a) <= j < sorted.len() ==> older(#[trigger] sorted[j], a),
        insert_position(sorted, a) > 0 ==> !older(sorted[insert_position(sorted, a) - 1], a),
    decreases sorted.len(),
{
    if sorted.len() > 0 && older(sorted.last(), a) {
        let init = sorted.drop_last();
        lemma_insert_position_bounds(init, a);
        assert forall|j: int|
            insert_position(sorted, a) <= j < sorted.len() implies older(#[trigger] sorted[j], a) by {
            if j < init.len() {
                assert(init[j] == sorted[j]);
            }
        }
    }
}

/// Inserting at its position keeps a newest-first list newest first.
proof fn lemma_insert_keeps_order(sorted: Seq<ArticleView>, a: ArticleView)
    requires
        is_newest_first(sorted),
    ensures
        is_newest_first(sorted.insert(insert_position(sorted, a), a)),
{
    lemma_insert_position_bounds(sorted, a);
    let k = insert_position(sorted, a);
    let r = sorted.insert(k, a);
    assert forall|i: int, j: int| 0 <= i < j < r.len() implies #[trigger] r[j].date.not_after(
        #[trigger] r[i].date,
    ) by {
        if j < k {
            assert(r[i] == sorted[i] && r[j] == sorted[j]);
        } else if j == k {
            assert(r[i] == sorted[i]);
            assert(!older(sorted[k - 1], a));
            assert(sorted[k - 1].date.not_after(sorted[i].date) || i == k - 1);
        } else if i < k {
            assert(r[i] == sorted[i] && r[j] == sorted[j - 1]);
        } else if i == k {
            assert(r[j] == sorted[j - 1]);
            assert(older(sorted[j - 1], a));
        } else {
            assert(r[i] == sorted[i - 1] && r[j] == sorted[j - 1]);
        }
    }
}

/// The sorted list is newest first, and as long as the input.
pub proof fn lemma_newest_first_sorted(s: Seq<ArticleView>)
    ensures
        is_newest_first(newest_first(s)),
        newest_first(s).len() == s.len(),
    decreases s.len(),
{
    if s.len() > 0 {
        lemma_newest_first_sorted(s.drop_last());
        let sorted = newest_first(s.drop_last());
        lemma_insert_keeps_order(sorted, s.last());
        lemma_insert_position_bounds(sorted, s.last());
    }
}

/// The articles of `s` published on `d`, in order.
pub open spec fn published_on(s: Seq<ArticleView>, d: PublishDate) -> Seq<ArticleView>
    decreases s.len(),
{
    if s.len() == 0 {
        s
    } else {
        let rest = published_on(s.drop_last(), d);
        if s.last().date == d {
            rest.push(s.last())
        } else {
            rest
        }
    }
}

proof fn lemma_published_on_concat(a: Seq<ArticleView>, b: Seq<ArticleView>, d: PublishDate)
    ensures
        published_on(a + b, d) == published_on(a, d) + published_on(b, d),
    decreases b.len(),
{
    if b.len() == 0 {
        assert(a + b =~= a);
        assert(published_on(a, d) + published_on(b, d) =~= published_on(a, d));
    } else {
        assert((a + b).drop_last() =~= a + b.drop_last());
        lemma_published_on_concat(a, b.drop_last(), d);
        if b.last().date == d {
            assert(published_on(a, d) + published_on(b, d) =~= (published_on(a, d)
                + published_on(b.drop_last(), d)).push(b.last()));
        }
    }
}

proof fn lemma_published_on_none(s: Seq<ArticleView>, d: PublishDate)
    requires
        forall|j: int| 0 <= j < s.len() ==> (#[trigger] s[j]).date != d,
    ensures
        published_on(s, d) == Seq::<ArticleView>::empty(),
    decreases s.len(),
{
    if s.len() > 0 {
        assert(s[s.len() - 1].date != d);
        lemma_published_on_none(s.drop_last(), d);
    }
}

/// Sorting newest first is a stable sort: the result is newest first, holds the same
/// articles, and keeps the articles of each date in their input order.
pub proof fn lemma_newest_first_is_stable_sort(s: Seq<ArticleView>)
    ensures
        is_newest_first(newest_first(s)),
        newest_first(s).to_multiset() == s.to_multiset(),
        forall|d: PublishDate| #[trigger] published_on(newest_first(s), d) == published_on(s, d),
    decreases s.len(),
{
    lemma_newest_first_sorted(s);
    if s.len() > 0 {
        let init = s.drop_last();
        let x = s.last();
        lemma_newest_first_is_stable_sort(init);
        let sorted = newest_first(init);
        lemma_insert_position_bounds(sorted, x);
        let k = insert_position(sorted, x);
        let r = sorted.insert(k, x);
        assert(r.remove(k) =~= sorted);
        r.to_multiset_ensures();
        init.to_multiset_ensures();
        assert(s =~= init.push(x));
        assert(r.to_multiset().count(x) > 0) by {
            assert(r[k] == x);
            assert(r.contains(x));
        }
        assert(r.to_multiset() =~= sorted.to_multiset().insert(x));
        assert forall|d: PublishDate| #[trigger] published_on(r, d) == published_on(s, d) by {
            let head = sorted.subrange(0, k);
            let tail = sorted.subrange(k, sorted.len() as int);
            assert(sorted =~= head + tail);
            assert(r =~= head + seq![x] + tail);
            lemma_published_on_concat(head, tail, d);
            lemma_published_on_concat(head + seq![x], tail, d);
            lemma_published_on_concat(head, seq![x], d);
            assert(seq![x].drop_last() =~= Seq::<ArticleView>::empty());
            assert(s.drop_last() =~= init);
            assert(published_on(sorted, d) == published_on(init, d));
            let single = published_on(seq![x], d);
            let none = Seq::<ArticleView>::empty();
            assert(published_on(none, d) == none);
            assert(seq![x].last() == x);
            assert(published_on(seq![x].drop_last(), d) == none);
            if x.date == d {
                assert(single == Seq::<ArticleView>::empty().push(x));
                assert(published_on(head, d) + single =~= published_on(head, d).push(x));
            } else {
                assert(single == Seq::<ArticleView>::empty());
                assert(published_on(head, d) + single =~= published_on(head, d));
            }
            if x.date == d {
                assert forall|j: int| 0 <= j < tail.len() implies (#[trigger] tail[j]).date != d by {
                    assert(tail[j] == sorted[k + j]);
                    assert(older(sorted[k + j], x));
                }
                lemma_published_on_none(tail, d);
                assert(published_on(head, d) + Seq::<ArticleView>::empty() =~= published_on(
                    head,
                    d,
                ));
            } else {
                assert(published_on(head, d) + Seq::<ArticleView>::empty() =~= published_on(
                    head,
                    d,
                ));
            }
        }
    }
}

/// Reads every document; keeps the articles and the failures in the documents' order.
fn parse_documents(documents: &Vec<SourceDocument>) -> (r: (Vec<OrgModeHtml>, Vec<ParsingError>))
    ensures
        article_views(r.0@) == parsed_articles(document_views(documents@)),
        failure_views(r.1@) == parse_failures(document_views(documents@)),
        forall|i: int| 0 <= i < r.0@.len() ==> (#[trigger] r.0@[i]).date.valid(),
{
    let ghost docs = document_views(documents@);
    let mut parsed: Vec<OrgModeHtml> = Vec::new();
    let mut failures: Vec<ParsingError> = Vec::new();
    let mut i: usize = 0;
    while i < documents.len()
        invariant
            i <= documents@.len(),
            docs == document_views(documents@),
            article_views(parsed@) == parsed_articles(docs.subrange(0, i as int)),
            failure_views(failures@) == parse_failures(docs.subrange(0, i as int)),
            forall|j: int| 0 <= j < parsed@.len() ==> (#[trigger] parsed@[j]).date.valid(),
        decreases documents@.len() - i,
    {
        let ghost done = docs.subrange(0, i as int);
        let ghost next = docs.subrange(0, i + 1);
        assert(next.drop_last() =~= done);
        let document = &documents[i];
        let contents = match &document.contents {
            Some(c) => Some(c.clone()),
            None => None,
        };
        assert(next.last() == (document.path@, opt_view(contents)));
        match get_html_contents(document.path.as_str(), contents) {
            Ok(article) => {
                parsed.push(article);
                assert(article_views(parsed@) =~= parsed_articles(next));
            },
            Err(e) => {
                failures.push(e);
                assert(failure_views(failures@) =~= parse_failures(next));
            },
        }
        i = i + 1;
    }
    assert(docs.subrange(0, documents@.len() as int) =~= docs);
    (parsed, failures)
}

/// The articles sorted newest first; articles of the same date keep their order.
pub fn sort_newest_first(articles: &Vec<OrgModeHtml>) -> (r: Vec<OrgModeHtml>)
    ensures
        article_views(r@) == newest_first(article_views(articles@)),
{
    let ghost input = article_views(articles@);
    let mut sorted: Vec<OrgModeHtml> = Vec::new();
    let mut i: usize = 0;
    while i < articles.len()
        invariant
            i <= articles@.len(),
            input == article_views(articles@),
            article_views(sorted@) == newest_first(input.subrange(0, i as int)),
        decreases articles@.len() - i,
    {
        let ghost done = input.subrange(0, i as int);
        let ghost next = input.subrange(0, i + 1);
        assert(next.drop_last() =~= done);
        let article = articles[i].clone();
        let ghost before = article_views(sorted@);
        let mut k: usize = sorted.len();
        while k > 0 && !article.date.is_not_after(&sorted[k - 1].date)
            invariant
                k <= sorted@.len(),
                before == article_views(sorted@),
                forall|j: int| k <= j < before.len() ==> older(#[trigger] before[j], article@),
            decreases k,
        {
            k = k - 1;
        }
        proof {
            lemma_insert_position_skip(before, article@, k as int);
            if k > 0 {
                assert(before.subrange(0, k as int).last() == before[k - 1]);
            }
            assert(insert_position(before, article@) == k);
        }
        let ghost a = article@;
        sorted.insert(k, article);
        assert(article_views(sorted@) =~= before.insert(k as int, a));
        i = i + 1;
    }
    assert(input.subrange(0, articles@.len() as int) =~= input);
    sorted
}

/// Reads every document, keeps the articles sorted newest first (articles of the same
/// date in the documents' order) and reports the failures in the documents' order.
pub fn get_org_mode_files(documents: &Vec<SourceDocument>) -> (r: (
    Vec<OrgModeHtml>,
    Vec<ParsingError>,
))
    ensures
        article_views(r.0@) == newest_first(parsed_articles(document_views(documents@))),
        failure_views(r.1@) == parse_failures(document_views(documents@)),
        forall|i: int| 0 <= i < r.0@.len() ==> (#[trigger] r.0@[i]).date.valid(),
{
    let (parsed, failures) = parse_documents(documents);
    let sorted = sort_newest_first(&parsed);
    proof {
        lemma_newest_first_is_stable_sort(article_views(parsed@));
        let p = article_views(parsed@);
        let q = article_views(sorted@);
        assert forall|i: int| 0 <= i < q.len() implies (#[trigger] sorted@[i]).date.valid() by {
            assert(q[i] == sorted@[i]@);
            lemma_same_members(p, q);
            assert(q.contains(q[i]));
            assert(p.contains(q[i]));
            let j = choose|j: int| 0 <= j < p.len() && p[j] == q[i];
            assert(p[j] == parsed@[j]@);
        }
    }
    (sorted, failures)
}

/// The slug mapping of an ordered list: each article is entered under its slug in
/// turn, so a later article replaces an earlier one of the same slug.
pub open spec fn slug_index(s: Seq<ArticleView>) -> Map<Seq<char>, ArticleView>
    decreases s.len(),
{
    if s.len() == 0 {
        Map::empty()
    } else {
        slug_index(s.drop_last()).insert(s.last().slug, s.last())
    }
}

/// `m` holds, under each key, an article equal to the one of `index`.
pub open spec fn indexes(m: Map<Seq<char>, OrgModeHtml>, index: Map<Seq<char>, ArticleView>) -> bool {
    &&& m.dom() == index.dom()
    &&& forall|k: Seq<char>| #[trigger] m.contains_key(k) ==> m[k]@ == index[k]
}

/// Maps each slug to its article; on equal slugs the later article wins.
pub fn index_by_slug(files: &Vec<OrgModeHtml>) -> (r: StringHashMap<OrgModeHtml>)
    ensures
        indexes(r@, slug_index(article_views(files@))),
{
    let mut m: StringHashMap<OrgModeHtml> = StringHashMap::new();
    let mut i: usize = 0;
    while i < files.len()
        invariant
            i <= files@.len(),
            indexes(m@, slug_index(article_views(files@).subrange(0, i as int))),
        decreases files@.len() - i,
    {
        let ghost next = article_views(files@).subrange(0, i + 1);
        assert(next.drop_last() =~= article_views(files@).subrange(0, i as int));
        let article = files[i].clone();
        m.insert(files[i].slug.clone(), article);
        assert(m@.dom() =~= slug_index(next).dom());
        i = i + 1;
    }
    assert(article_views(files@).subrange(0, files@.len() as int) =~= article_views(files@));
    m
}

/// The blog: every article by slug, and every article newest first.
pub struct OrgBlog {
    pub html: StringHashMap<OrgModeHtml>,
    pub blog_files: Vec<OrgModeHtml>,
}

impl OrgBlog {
    /// `blog_files` is newest first; `html` has a key for each slug of `blog_files`,
    /// and maps it to one of the articles of `blog_files` with that slug.
    pub open spec fn wf(&self) -> bool {
        &&& is_newest_first(article_views(self.blog_files@))
        &&& self.html@.dom() == slugs(article_views(self.blog_files@)).to_set()
        &&& forall|k: Seq<char>| #[trigger]
            self.html@.contains_key(k) ==> exists|j: int|
                0 <= j < self.blog_files@.len() && (#[trigger] self.blog_files@[j])@
                    == self.html@[k]@ && self.blog_files@[j].slug@ == k
    }
}

/// Reads every document into the blog, and reports the documents that do not parse.
/// The slug mapping is filled in the documents' order, so where documents share a slug
/// the one read last wins.
pub fn get_org_blog(documents: &Vec<SourceDocument>) -> (r: (OrgBlog, Vec<ParsingError>))
    ensures
        r.0.wf(),
        article_views(r.0.blog_files@) == newest_first(parsed_articles(document_views(documents@))),
        indexes(r.0.html@, slug_index(parsed_articles(document_views(documents@)))),
        failure_views(r.1@) == parse_failures(document_views(documents@)),
        forall|i: int| 0 <= i < r.0.blog_files@.len() ==> (#[trigger] r.0.blog_files@[i]).date.valid(),
{
    let (parsed, failures) = parse_documents(documents);
    let html = index_by_slug(&parsed);
    let blog_files = sort_newest_first(&parsed);
    let ghost p = article_views(parsed@);
    let ghost q = article_views(blog_files@);
    proof {
        lemma_newest_first_is_stable_sort(p);
        lemma_slug_index_dom(p);
        lemma_same_members(p, q);
        assert forall|i: int| 0 <= i < q.len() implies (#[trigger] blog_files@[i]).date.valid() by {
            assert(q[i] == blog_files@[i]@);
            assert(q.contains(q[i]));
            assert(p.contains(q[i]));
            let j = choose|j: int| 0 <= j < p.len() && p[j] == q[i];
            assert(p[j] == parsed@[j]@);
        }
        assert forall|k: Seq<char>| #[trigger] html@.contains_key(k) implies exists|j: int|
            0 <= j < blog_files@.len() && (#[trigger] blog_files@[j])@ == html@[k]@
                && blog_files@[j].slug@ == k by {
            lemma_slug_index_member(p, k);
            let x = slug_index(p)[k];
            assert(p.contains(x));
            let j = choose|j: int| 0 <= j < q.len() && q[j] == x;
            assert(q[j] == blog_files@[j]@);
        }
    }
    (OrgBlog { html, blog_files }, failures)
}

proof fn lemma_same_members(p: Seq<ArticleView>, q: Seq<ArticleView>)
    requires
        p.to_multiset() == q.to_multiset(),
    ensures
        forall|x: ArticleView| p.contains(x) <==> q.contains(x),
        slugs(p).to_set() == slugs(q).to_set(),
{
    p.to_multiset_ensures();
    q.to_multiset_ensures();
    assert forall|x: ArticleView| p.contains(x) <==> q.contains(x) by {
        assert(p.contains(x) <==> p.to_multiset().count(x) > 0);
        assert(q.contains(x) <==> q.to_multiset().count(x) > 0);
        assert(p.to_multiset().count(x) == q.to_multiset().count(x));
    }
    assert forall|k: Seq<char>| slugs(p).to_set().contains(k) implies slugs(q).to_set().contains(
        k,
    ) by {
        let i = choose|i: int| 0 <= i < slugs(p).len() && slugs(p)[i] == k;
        assert(p.contains(p[i]));
        assert(q.contains(p[i]));
        let j = choose|j: int| 0 <= j < q.len() && q[j] == p[i];
        assert(slugs(q)[j] == k);
    }
    assert forall|k: Seq<char>| slugs(q).to_set().contains(k) implies slugs(p).to_set().contains(
        k,
    ) by {
        let i = choose|i: int| 0 <= i < slugs(q).len() && slugs(q)[i] == k;
        assert(q.contains(q[i]));
        assert(p.contains(q[i]));
        let j = choose|j: int| 0 <= j < p.len() && p[j] == q[i];
        assert(slugs(p)[j] == k);
    }
    assert(slugs(p).to_set() =~= slugs(q).to_set());
}

proof fn lemma_slug_index_member(s: Seq<ArticleView>, k: Seq<char>)
    requires
        slug_index(s).contains_key(k),
    ensures
        s.contains(slug_index(s)[k]),
        slug_index(s)[k].slug == k,
    decreases s.len(),
{
    if s.last().slug != k {
        lemma_slug_index_member(s.drop_last(), k);
        let i = choose|i: int| 0 <= i < s.drop_last().len() && s.drop_last()[i] == slug_index(
            s,
        )[k];
        assert(s[i] == slug_index(s)[k]);
    } else {
        assert(s[s.len() - 1] == slug_index(s)[k]);
    }
}

pub open spec fn slugs(s: Seq<ArticleView>) -> Seq<Seq<char>> {
    s.map_values(|a: ArticleView| a.slug)
}

pub proof fn lemma_slug_index_dom(s: Seq<ArticleView>)
    ensures
        slug_index(s).dom() == slugs(s).to_set(),
    decreases s.len(),
{
    if s.len() > 0 {
        lemma_slug_index_dom(s.drop_last());
        assert(slugs(s) =~= slugs(s.drop_last()) + seq![s.last().slug]);
        Seq::lemma_to_set_insert_commutes(slugs(s.drop_last()), s.last().slug);
    }
}

proof fn lemma_slug_index_last(s: Seq<ArticleView>, j: int)
    requires
        0 <= j < s.len(),
        forall|k: int| j < k < s.len() ==> (#[trigger] s[k]).slug != s[j].slug,
    ensures
        slug_index(s).contains_key(s[j].slug),
        slug_index(s)[s[j].slug] == s[j],
    decreases s.len(),
{
    if j < s.len() - 1 {
        let init = s.drop_last();
        assert(s[s.len() - 1].slug != s[j].slug);
        assert forall|k: int| j < k < init.len() implies (#[trigger] init[k]).slug != init[j].slug by {
            assert(init[k] == s[k]);
        }
        lemma_slug_index_last(init, j);
    }
}

/// The ordered list is newest first, and there are never more slugs than articles; as
/// many exactly when no two articles share a slug.
pub proof fn lemma_blog_shape(blog: &OrgBlog)
    requires
        blog.wf(),
    ensures
        is_newest_first(article_views(blog.blog_files@)),
        blog.html@.len() <= blog.blog_files@.len(),
        slugs(article_views(blog.blog_files@)).no_duplicates() ==> blog.html@.len()
            == blog.blog_files@.len(),
{
    let s = article_views(blog.blog_files@);
    slugs(s).lemma_cardinality_of_set();
    if slugs(s).no_duplicates() {
        slugs(s).unique_seq_to_set();
    }
}

/// Where documents share a slug, the slug maps to the article of the last of them in
/// the order in which the documents were read, never to a mix of several.
pub proof fn lemma_last_slug_wins(blog: &OrgBlog, documents: Seq<SourceDocument>, j: int)
    requires
        indexes(blog.html@, slug_index(parsed_articles(document_views(documents)))),
        0 <= j < parsed_articles(document_views(documents)).len(),
        forall|k: int|
            j < k < parsed_articles(document_views(documents)).len() ==> (#[trigger] parsed_articles(
                document_views(documents),
            )[k]).slug != parsed_articles(document_views(documents))[j].slug,
    ensures
        blog.html@.contains_key(parsed_articles(document_views(documents))[j].slug),
        blog.html@[parsed_articles(document_views(documents))[j].slug]@ == parsed_articles(
            document_views(documents),
        )[j],
{
    lemma_slug_index_last(parsed_articles(document_views(documents)), j);
}

} // verus!
