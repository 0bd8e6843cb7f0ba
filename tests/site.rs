use dpbriggs_blog::blog::{get_org_blog, SourceDocument};
use dpbriggs_blog::context::{get_base_context, static_site_context, SiteContextKv};
use dpbriggs_blog::routes::{generate_site, logical_pages, template_map, PageSource, SitePage};

fn template_of(page: &SitePage) -> Option<String> {
    match &page.source {
        PageSource::Template(t) => Some(t.clone()),
        PageSource::Text(_) => None,
    }
}

#[test]
fn templates_should_exist() {
    let template_map = template_map();
    let templates = vec!["/", "404", "500", "/blog", "/linkedin", "/github", "/resume_pdf", "/resume"];
    for template in templates {
        assert!(template_map.contains_key(template))
    }
}

#[test]
fn base_context_should_contain_necessary_keys() {
    let base = static_site_context();
    let (blog, _) = get_org_blog(&vec![]);
    let base_context = get_base_context("/", &base, &blog).base;
    let necessary_keys = vec![
        "domain_name",
        "nav_site_href",
        "root_uri",
        "blog_uri",
        "resume_uri",
        "linkedin_uri",
        "github_uri",
        "resume_uri",
        "resume_pdf_uri",
        "crash_uri",
        "web_sep",
        "admin_email",
        "full_name",
        "internet_handle",
        "my_email",
        "github_url",
        "github_repo_url",
        "linkedin_url",
        "nav_site_href",
    ];
    for key in necessary_keys {
        assert!(base_context.contains_key(key))
    }
}

#[test]
fn static_context_values() {
    let base = static_site_context();
    assert_eq!(base.get("domain_name").unwrap(), "dpbriggs.ca");
    assert_eq!(base.get("rss_uri").unwrap(), "/feed/index.xml");
    assert_eq!(base.get("resume_uri").unwrap(), "/resume");
    assert_eq!(base.entries().len(), 18);
    assert!(base.get("missing").is_none());
}

#[test]
fn kv_insert_replaces_and_keeps_order() {
    let mut kv = SiteContextKv::new();
    kv.insert("a".to_string(), "1".to_string());
    kv.insert("b".to_string(), "2".to_string());
    kv.insert("a".to_string(), "3".to_string());
    assert_eq!(kv.get("a").unwrap(), "3");
    assert_eq!(kv.get("b").unwrap(), "2");
    assert!(!kv.contains_key("c"));
    assert_eq!(
        kv.entries(),
        &vec![("a".to_string(), "3".to_string()), ("b".to_string(), "2".to_string())]
    );
}

#[test]
fn base_context_sets_the_navigation_target() {
    let base = static_site_context();
    let (blog, _) = get_org_blog(&vec![]);
    let context = get_base_context("/resume", &base, &blog);
    assert_eq!(context.kv.get("nav_site_href").unwrap(), "/resume");
    assert_eq!(context.kv.entries().len(), 1);
    assert!(context.curr_blog.is_none());
}

#[test]
fn empty_blog_still_gets_every_fixed_page() {
    let base = static_site_context();
    let (blog, _) = get_org_blog(&vec![]);
    let pages = generate_site(&base, &blog);
    let paths: Vec<&str> = pages.iter().map(|p| p.output_path.as_str()).collect();
    assert_eq!(
        paths,
        vec![
            "index.html",
            "resume/index.html",
            "blog/index.html",
            "linkedin/index.html",
            "github/index.html",
            "feed/index.xml",
            "404.html",
            "500.html",
            "robots.txt"
        ]
    );
    assert!(pages.iter().all(|p| p.context.curr_blog.is_none()));
    assert_eq!(template_of(&pages[5]).unwrap(), "blog-rss.xml.tera");
    assert!(pages[5].context.blog.blog_files.is_empty());
    match &pages[8].source {
        PageSource::Text(t) => assert_eq!(t, "User-agent: *\nDisallow:"),
        PageSource::Template(_) => panic!("robots.txt is not rendered"),
    }
    assert_eq!(pages[6].context.kv.get("title").unwrap(), "404");
    assert_eq!(pages[6].context.kv.get("blog_uri").unwrap(), "");
    assert_eq!(pages[7].context.kv.get("uri").unwrap(), "/");
    assert!(pages[5].context.kv.get("title").is_none());
    assert_eq!(pages[5].context.kv.get("nav_site_href").unwrap(), "/blog");
}

#[test]
fn one_article_end_to_end() {
    let doc = String::from(
        "<html><body><h1 class=\"title\">Hello</h1>\
         <div id=\"text-table-of-contents\"><ul><li>Intro</li></ul></div>\
         <div class=\"outline-2\"><h2>Intro</h2><p>Hi there.</p></div>\
         <span class=\"timestamp\">&lt;2019-02-06 Wed&gt;</span></body></html>",
    );
    let documents = vec![SourceDocument {
        path: "blog/2019/hello-world.html".to_string(),
        contents: Some(doc),
    }];
    let base = static_site_context();
    let (blog, failures) = get_org_blog(&documents);
    assert!(failures.is_empty());
    let pages = generate_site(&base, &blog);
    assert_eq!(pages.len(), 10);
    let article = &pages[9];
    assert_eq!(article.output_path, "blog/hello-world/index.html");
    assert_eq!(template_of(article).unwrap(), "blog/blog_article.html.tera");
    let shown = article.context.curr_blog.unwrap();
    assert_eq!(shown.title, "Hello");
    assert_eq!(article.context.kv.get("curr_slug").unwrap(), "hello-world");
    assert_eq!(article.context.kv.get("title").unwrap(), "blog");
    let feed = &pages[5];
    assert_eq!(feed.output_path, "feed/index.xml");
    assert_eq!(feed.context.blog.blog_files.len(), 1);
    assert_eq!(feed.context.blog.blog_files[0].pub_date, "Wed, 06 Feb 2019 1:01:00 EST");
}

#[test]
fn shared_slugs_get_one_page() {
    let doc = |title: &str| {
        format!(
            "<h1 class=\"title\">{}</h1><div id=\"text-table-of-contents\"></div>\
             <div class=\"outline-2\"><p>x</p></div>\
             <span class=\"timestamp\">&lt;2019-02-06 Wed&gt;</span>",
            title
        )
    };
    let documents = vec![
        SourceDocument { path: "blog/a/same.html".to_string(), contents: Some(doc("A")) },
        SourceDocument { path: "blog/b/same.html".to_string(), contents: Some(doc("B")) },
        SourceDocument { path: "blog/c/other.html".to_string(), contents: Some(doc("C")) },
    ];
    let base = static_site_context();
    let (blog, _) = get_org_blog(&documents);
    let pages = generate_site(&base, &blog);
    assert_eq!(pages.len(), 11);
    assert_eq!(pages[9].output_path, "blog/same/index.html");
    assert_eq!(pages[9].context.curr_blog.unwrap().title, "B");
    assert_eq!(pages[10].output_path, "blog/other/index.html");
}

#[test]
fn page_table_rows() {
    let rows = logical_pages();
    assert_eq!(rows.len(), 8);
    assert_eq!(rows[0].template, "index.html.tera");
    assert_eq!(rows[2].output_path, "blog/index.html");
    let map = template_map();
    assert_eq!(map.get("/blog").unwrap(), "blog/blog_root.html.tera");
    assert_eq!(map.get("/resume_pdf").unwrap(), "dpbriggs_resume.pdf");
}
