use dpbriggs_blog::blog::{
    get_html_files, get_org_blog, get_org_mode_files, index_by_slug, ParsingError,
    SourceDocument, TreeEntry,
};
use dpbriggs_blog::context::BLOG_ROOT;
use dpbriggs_blog::date::PublishDate;
use dpbriggs_blog::error::SiteError;

fn article(title: &str, timestamp: &str) -> String {
    let mut doc = String::from("<html><body><h1 class=\"title\">");
    doc.push_str(title);
    doc.push_str("</h1><div id=\"text-table-of-contents\"><ul></ul></div>");
    doc.push_str("<div class=\"outline-2\"><h2>S</h2><p>About ");
    doc.push_str(title);
    doc.push_str(".</p></div><span class=\"timestamp\">");
    doc.push_str(&timestamp.replace('<', "&lt;").replace('>', "&gt;"));
    doc.push_str("</span></body></html>");
    doc
}

fn source(path: &str, contents: Option<String>) -> SourceDocument {
    SourceDocument { path: path.to_string(), contents }
}

#[test]
fn blog_files_should_be_parsable() {
    let entries = vec![
        TreeEntry { path: format!("{}2019/first.html", BLOG_ROOT), is_dir: false },
        TreeEntry { path: format!("{}2019/first.org", BLOG_ROOT), is_dir: false },
    ];
    let paths = get_html_files(BLOG_ROOT, true, &entries).unwrap();
    let documents: Vec<SourceDocument> = paths
        .iter()
        .map(|p| source(p, Some(article("First", "<2019-01-01 Tue>"))))
        .collect();
    get_org_mode_files(&documents);
}

#[test]
fn locator_keeps_each_html_file_once() {
    let entries = vec![
        TreeEntry { path: "blog/a/post.html".to_string(), is_dir: false },
        TreeEntry { path: "blog/a/post.org".to_string(), is_dir: false },
        TreeEntry { path: "blog/a/images.html".to_string(), is_dir: true },
        TreeEntry { path: "blog/b/.html".to_string(), is_dir: false },
        TreeEntry { path: "blog/b/other.v2.html".to_string(), is_dir: false },
        TreeEntry { path: "blog/b/html".to_string(), is_dir: false },
        TreeEntry { path: "blog/c/x.html".to_string(), is_dir: false },
    ];
    let files = get_html_files("blog/", true, &entries).unwrap();
    assert_eq!(
        files,
        vec![
            "blog/a/post.html".to_string(),
            "blog/b/other.v2.html".to_string(),
            "blog/c/x.html".to_string()
        ]
    );
    assert_eq!(get_html_files("blog/", true, &vec![]).unwrap(), Vec::<String>::new());
}

#[test]
fn locator_refuses_a_missing_root() {
    assert_eq!(
        get_html_files("nowhere/", false, &vec![]),
        Err(SiteError::NotADirectory("nowhere/".to_string()))
    );
}

#[test]
fn collection_is_newest_first_and_stable() {
    let documents = vec![
        source("blog/a/old.html", Some(article("Old", "<2018-05-01 Tue>"))),
        source("blog/a/new.html", Some(article("New", "<2019-02-06 Wed>"))),
        source("blog/b/broken.html", Some(article("Broken", "<2019-13-99 Xyz>"))),
        source("blog/b/same-day.html", Some(article("Same", "<2019-02-06 Wed>"))),
        source("blog/b/gone.html", None),
        source("blog/c/first.html", Some(article("First", "<2019-01-01 Tue>"))),
    ];
    let (files, failures) = get_org_mode_files(&documents);
    let titles: Vec<&str> = files.iter().map(|a| a.title.as_str()).collect();
    assert_eq!(titles, vec!["New", "Same", "First", "Old"]);
    for pair in files.windows(2) {
        assert!(pair[1].date.is_not_after(&pair[0].date));
    }
    assert_eq!(
        failures,
        vec![
            ParsingError::CannotParseDate("blog/b/broken.html".to_string()),
            ParsingError::CannotParseHtml("blog/b/gone.html".to_string())
        ]
    );
    assert_eq!(files[0].date, PublishDate { year: 2019, month: 2, day: 6 });
}

#[test]
fn collection_sizes_with_unique_slugs() {
    let documents = vec![
        source("blog/a/one.html", Some(article("One", "<2018-05-01 Tue>"))),
        source("blog/b/two.html", Some(article("Two", "<2019-02-06 Wed>"))),
    ];
    let (blog, failures) = get_org_blog(&documents);
    assert!(failures.is_empty());
    assert_eq!(blog.blog_files.len(), 2);
    assert_eq!(blog.html.len(), 2);
    assert_eq!(blog.html.get("one").unwrap().title, "One");
    assert_eq!(blog.html.get("two").unwrap().title, "Two");
}

#[test]
fn shared_slug_maps_to_the_last_article_entered() {
    let documents = vec![
        source("blog/a/dup.html", Some(article("Newer", "<2019-02-06 Wed>"))),
        source("blog/b/dup.html", Some(article("Older", "<2018-05-01 Tue>"))),
        source("blog/c/dup.html", Some(article("Tie", "<2018-05-01 Tue>"))),
    ];
    let (blog, _) = get_org_blog(&documents);
    assert_eq!(blog.blog_files.len(), 3);
    assert!(blog.html.len() <= blog.blog_files.len());
    assert_eq!(blog.html.len(), 1);
    let winner = blog.html.get("dup").unwrap();
    assert_eq!(winner.title, "Tie");
    assert_eq!(winner.desc, "About Tie.");

    let files = get_org_mode_files(&documents).0;
    let index = index_by_slug(&files);
    assert_eq!(index.get("dup").unwrap().title, "Tie");
}

#[test]
fn empty_input_gives_empty_blog() {
    let (blog, failures) = get_org_blog(&vec![]);
    assert!(failures.is_empty());
    assert!(blog.blog_files.is_empty());
    assert_eq!(blog.html.len(), 0);
}

#[test]
fn later_document_wins_a_shared_slug_even_when_newer() {
    let documents = vec![
        source("blog/a/dup.html", Some(article("Older", "<2018-05-01 Tue>"))),
        source("blog/b/dup.html", Some(article("Newer", "<2019-02-06 Wed>"))),
    ];
    let (blog, _) = get_org_blog(&documents);
    let titles: Vec<&str> = blog.blog_files.iter().map(|a| a.title.as_str()).collect();
    assert_eq!(titles, vec!["Newer", "Older"]);
    assert_eq!(blog.html.len(), 1);
    assert_eq!(blog.html.get("dup").unwrap().title, "Newer");

    let reversed = vec![
        source("blog/b/dup.html", Some(article("Newer", "<2019-02-06 Wed>"))),
        source("blog/a/dup.html", Some(article("Older", "<2018-05-01 Tue>"))),
    ];
    let (blog, _) = get_org_blog(&reversed);
    assert_eq!(blog.html.get("dup").unwrap().title, "Older");
}

#[test]
fn locator_listing_of_a_nested_tree() {
    let entries = vec![
        TreeEntry { path: "base/2019/a.html".to_string(), is_dir: false },
        TreeEntry { path: "base/2019/a.org".to_string(), is_dir: false },
        TreeEntry { path: "base/2019/sub".to_string(), is_dir: true },
        TreeEntry { path: "base/2020/b.html".to_string(), is_dir: false },
    ];
    let files = get_html_files("base", true, &entries).unwrap();
    assert_eq!(files, vec!["base/2019/a.html".to_string(), "base/2020/b.html".to_string()]);
}
