use dpbriggs_blog::blog::{
    article_from_parts, get_html_contents, slug_of_path, ArticleParts, ParsingError,
};
use dpbriggs_blog::date::{format_pub_date, parse_timestamp, PublishDate};

const GOOD_PATH: &str = "tests/good-blog-files/2420-04-20/good-blog-file.html";

fn document(title: bool, timestamp: Option<&str>, toc: bool, body: bool, paragraph: bool) -> String {
    let mut doc = String::from("<html><head></head><body><div id=\"content\">");
    if title {
        doc.push_str("<h1 class=\"title\">Hello</h1>");
    }
    if toc {
        doc.push_str("<div id=\"table-of-contents\"><h2>Table of Contents</h2>");
        doc.push_str("<div id=\"text-table-of-contents\"><ul><li>Intro</li></ul></div></div>");
    }
    if body {
        doc.push_str("<div id=\"outline-container-org1\" class=\"outline-2\"><h2>Intro</h2>");
        doc.push_str("<div class=\"outline-text-2\">");
        if paragraph {
            doc.push_str("<p>First paragraph.</p><p>Second paragraph.</p>");
        }
        doc.push_str("</div></div>");
    }
    doc.push_str("<div id=\"footnotes\"><div class=\"footdef\"><sup>1</sup> one</div>");
    doc.push_str("<div class=\"footdef\"><sup>2</sup> two</div></div></div>");
    if let Some(ts) = timestamp {
        doc.push_str("<div id=\"postamble\"><p class=\"date\">Date: ");
        doc.push_str("<span class=\"timestamp-wrapper\"><span class=\"timestamp\">");
        doc.push_str(&ts.replace('<', "&lt;").replace('>', "&gt;"));
        doc.push_str("</span></span></p></div>");
    }
    doc.push_str("</body></html>");
    doc
}

fn good_document() -> String {
    document(true, Some("<2019-02-06 Wed>"), true, true, true)
}

#[test]
fn org_parser_should_parse_good_files() {
    let res = get_html_contents(GOOD_PATH, Some(good_document()));
    assert!(res.is_ok());
}

#[test]
fn org_parser_should_throw_applicable_errors() {
    let missing_date_loc = "tests/bad-org-mode-files/missing-date.html";
    let missing_date_err = ParsingError::CannotFindDate(missing_date_loc.to_string());

    let bad_html_loc = "tests/bad-org-mode-files/non-existent.html";
    let bad_html_err = ParsingError::CannotParseHtml(bad_html_loc.to_string());

    let missing_title_loc = "tests/bad-org-mode-files/missing-title.html";
    let missing_title_err = ParsingError::CannotFindTitle(missing_title_loc.to_string());

    let missing_toc_loc = "tests/bad-org-mode-files/missing-toc.html";
    let missing_toc_err = ParsingError::CannotFindToc(missing_toc_loc.to_string());

    let missing_date = document(true, None, true, true, true);
    match get_html_contents(missing_date_loc, Some(missing_date)) {
        Ok(_) => panic!("Successfully parsed bad file {:?}", missing_date_loc),
        Err(e) => assert_eq!(e, missing_date_err),
    }
    match get_html_contents(bad_html_loc, None) {
        Ok(_) => panic!("Successfully parsed bad file {:?}", bad_html_loc),
        Err(e) => assert_eq!(e, bad_html_err),
    }
    let missing_title = document(false, Some("<2019-02-06 Wed>"), true, true, true);
    match get_html_contents(missing_title_loc, Some(missing_title)) {
        Ok(_) => panic!("Successfully parsed bad file {:?}", missing_title_loc),
        Err(e) => assert_eq!(e, missing_title_err),
    }
    let missing_toc = document(true, Some("<2019-02-06 Wed>"), false, true, true);
    match get_html_contents(missing_toc_loc, Some(missing_toc)) {
        Ok(_) => panic!("Successfully parsed bad file {:?}", missing_toc_loc),
        Err(e) => assert_eq!(e, missing_toc_err),
    }
}

#[test]
fn good_file_fields_are_extracted() {
    let a = get_html_contents(GOOD_PATH, Some(good_document())).unwrap();
    assert_eq!(a.title, "Hello");
    assert_eq!(a.date, PublishDate { year: 2019, month: 2, day: 6 });
    assert_eq!(a.pub_date, "Wed, 06 Feb 2019 1:01:00 EST");
    assert_eq!(a.desc, "First paragraph.");
    assert_eq!(a.slug, "good-blog-file");
    assert!(a.toc.contains("text-table-of-contents"));
    assert!(a.toc.contains("Intro"));
    assert!(a.html.starts_with("<div"));
    assert!(a.html.contains("outline-2"));
    assert!(a.html.contains("Second paragraph."));
    assert_eq!(a.footnotes.len(), 2);
    assert!(a.footnotes[0].contains("footdef") && a.footnotes[0].contains("one"));
    assert!(a.footnotes[1].contains("two"));
}

#[test]
fn parsing_twice_gives_equal_articles() {
    let first = get_html_contents(GOOD_PATH, Some(good_document())).unwrap();
    let second = get_html_contents(GOOD_PATH, Some(good_document())).unwrap();
    assert_eq!(first.title, second.title);
    assert_eq!(first.date, second.date);
    assert_eq!(first.pub_date, second.pub_date);
    assert_eq!(first.toc, second.toc);
    assert_eq!(first.desc, second.desc);
    assert_eq!(first.html, second.html);
    assert_eq!(first.slug, second.slug);
    assert_eq!(first.footnotes, second.footnotes);
}

#[test]
fn missing_timestamp_is_missing_date_not_missing_toc() {
    let path = "blog/posts/no-date.html";
    let doc = document(true, None, false, false, false);
    assert_eq!(
        get_html_contents(path, Some(doc)).unwrap_err(),
        ParsingError::CannotFindDate(path.to_string())
    );
}

#[test]
fn malformed_timestamp_is_date_parse_failure() {
    let path = "blog/posts/bad-date.html";
    let doc = document(true, Some("<2019-13-99 Xyz>"), true, true, true);
    assert_eq!(
        get_html_contents(path, Some(doc)).unwrap_err(),
        ParsingError::CannotParseDate(path.to_string())
    );
    let wrong_weekday = document(true, Some("<2019-02-06 Mon>"), true, true, true);
    assert_eq!(
        get_html_contents(path, Some(wrong_weekday)).unwrap_err(),
        ParsingError::CannotParseDate(path.to_string())
    );
}

#[test]
fn missing_body_and_paragraph_and_slug_failures() {
    let path = "blog/posts/x.html";
    let no_body = document(true, Some("<2019-02-06 Wed>"), true, false, false);
    assert_eq!(
        get_html_contents(path, Some(no_body)).unwrap_err(),
        ParsingError::CannotFindContents(path.to_string())
    );
    let no_paragraph = document(true, Some("<2019-02-06 Wed>"), true, true, false);
    assert_eq!(
        get_html_contents(path, Some(no_paragraph)).unwrap_err(),
        ParsingError::CannotFindFirstParagraph(path.to_string())
    );
    let bad_path = "blog/posts/.html";
    assert_eq!(
        get_html_contents(bad_path, Some(good_document())).unwrap_err(),
        ParsingError::CannotMakeSlug(bad_path.to_string())
    );
}

#[test]
fn failures_follow_the_fixed_order() {
    let path = "p/a.html";
    let nothing = document(false, None, false, false, false);
    assert_eq!(
        get_html_contents(path, Some(nothing)).unwrap_err(),
        ParsingError::CannotFindTitle(path.to_string())
    );
    let bad_date_no_toc = document(true, Some("nonsense"), false, false, false);
    assert_eq!(
        get_html_contents(path, Some(bad_date_no_toc)).unwrap_err(),
        ParsingError::CannotParseDate(path.to_string())
    );
}

#[test]
fn article_from_parts_assembles_the_record() {
    let parts = ArticleParts {
        title: Some("T".to_string()),
        timestamp: Some("<2020-02-29 Sat>".to_string()),
        toc: Some("<div>toc</div>".to_string()),
        contents: Some("<div>body</div>".to_string()),
        first_paragraph: Some("desc".to_string()),
        footnotes: vec!["<div>f</div>".to_string()],
    };
    let a = article_from_parts("a/b/leap-day.html", parts).unwrap();
    assert_eq!(a.slug, "leap-day");
    assert_eq!(a.date, PublishDate { year: 2020, month: 2, day: 29 });
    assert_eq!(a.pub_date, "Sat, 29 Feb 2020 1:01:00 EST");
    assert_eq!(a.toc, "<div>toc</div>");
    assert_eq!(a.html, "<div>body</div>");
    assert_eq!(a.desc, "desc");
    assert_eq!(a.footnotes, vec!["<div>f</div>".to_string()]);

    let no_toc = ArticleParts {
        title: Some("T".to_string()),
        timestamp: Some("<2020-02-29 Sat>".to_string()),
        toc: None,
        contents: None,
        first_paragraph: None,
        footnotes: vec![],
    };
    assert_eq!(
        article_from_parts("x.html", no_toc).unwrap_err(),
        ParsingError::CannotFindToc("x.html".to_string())
    );
}

#[test]
fn slugs_strip_directory_and_extension() {
    assert_eq!(slug_of_path("blog/2019/hello.html"), Some("hello".to_string()));
    assert_eq!(slug_of_path("hello.html"), Some("hello".to_string()));
    assert_eq!(slug_of_path("a/b/notes.txt"), Some("notes.txt".to_string()));
    assert_eq!(slug_of_path("a/b.html/c.d.html"), Some("c.d".to_string()));
    assert_eq!(slug_of_path("a/b/"), None);
    assert_eq!(slug_of_path("a/.html"), None);
    assert_eq!(slug_of_path(""), None);
}

#[test]
fn timestamps_are_read_by_the_fixed_pattern() {
    assert_eq!(
        parse_timestamp("<2019-02-06 Wed>"),
        Some(PublishDate { year: 2019, month: 2, day: 6 })
    );
    assert_eq!(
        parse_timestamp("<2420-04-20 Mon>"),
        Some(PublishDate { year: 2420, month: 4, day: 20 })
    );
    assert_eq!(parse_timestamp("<2019-13-99 Xyz>"), None);
    assert_eq!(parse_timestamp("2019-02-06 Wed"), None);
    assert_eq!(parse_timestamp("<2019-02-30 Sat>"), None);
    assert_eq!(parse_timestamp(""), None);
}

#[test]
fn publication_dates_have_the_fixed_format() {
    let d = PublishDate { year: 2019, month: 2, day: 6 };
    assert_eq!(format_pub_date(&d), "Wed, 06 Feb 2019 1:01:00 EST");
    let d = PublishDate { year: 2000, month: 12, day: 31 };
    assert_eq!(format_pub_date(&d), "Sun, 31 Dec 2000 1:01:00 EST");
    let d = PublishDate { year: 999, month: 1, day: 1 };
    assert_eq!(format_pub_date(&d), "Tue, 01 Jan 0999 1:01:00 EST");
    let d = PublishDate { year: 1970, month: 1, day: 1 };
    assert_eq!(format_pub_date(&d), "Thu, 01 Jan 1970 1:01:00 EST");
}

#[test]
fn dates_compare_by_year_month_day() {
    let a = PublishDate { year: 2019, month: 2, day: 6 };
    let b = PublishDate { year: 2019, month: 3, day: 1 };
    let c = PublishDate { year: 2018, month: 12, day: 31 };
    assert!(a.is_not_after(&b));
    assert!(!b.is_not_after(&a));
    assert!(c.is_not_after(&a));
    assert!(a.is_not_after(&a));
}
