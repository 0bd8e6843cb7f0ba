use crate::blog::{article_views, slugs, ArticleView, OrgBlog};
use crate::context::{
    get_base_context, pairs_map, SiteContext, SiteContextKv, CURR_SLUG_KEY, NAV_KEY, TITLE_KEY,
};
use vstd::hash_set::StringHashSet;
use vstd::prelude::*;

verus! {

/// Template of the page of one article.
pub const ARTICLE_TEMPLATE: &'static str = "blog/blog_article.html.tera";

/// Where `robots.txt` goes, and what it says.
pub const ROBOTS_PATH: &'static str = "robots.txt";

pub const ROBOTS_TXT: &'static str = "User-agent: *\nDisallow:";

/// The résumé PDF, which answers its route as it is.
pub const RESUME_PDF_ROUTE: &'static str = "/resume_pdf";

pub const RESUME_PDF_FILE: &'static str = "dpbriggs_resume.pdf";

/// One fixed page of the site: the route it answers, the template that renders it, the
/// file it is written to, its navigation target, its title, and one more dynamic value.
pub struct LogicalPage {
    pub route: &'static str,
    pub template: &'static str,
    pub output_path: &'static str,
    pub nav_href: &'static str,
    pub title: Option<&'static str>,
    pub extra: Option<(&'static str, &'static str)>,
}

pub struct LogicalPageView {
    pub route: Seq<char>,
    pub template: Seq<char>,
    pub output_path: Seq<char>,
    pub nav_href: Seq<char>,
    pub title: Option<Seq<char>>,
    pub extra: Option<(Seq<char>, Seq<char>)>,
}

impl View for LogicalPage {
    type V = LogicalPageView;

    open spec fn view(&self) -> LogicalPageView {
        LogicalPageView {
            route: self.route@,
            template: self.template@,
            output_path: self.output_path@,
            nav_href: self.nav_href@,
            title: match self.title {
                Some(t) => Some(t@),
                None => None,
            },
            extra: match self.extra {
                Some((k, v)) => Some((k@, v@)),
                None => None,
            },
        }
    }
}

pub open spec fn row(
    route: &str,
    template: &str,
    output_path: &str,
    nav_href: &str,
    title: Option<&str>,
    extra: Option<(&str, &str)>,
) -> LogicalPageView {
    LogicalPageView {
        route: route@,
        template: template@,
        output_path: output_path@,
        nav_href: nav_href@,
        title: match title {
            Some(t) => Some(t@),
            None => None,
        },
        extra: match extra {
            Some((k, v)) => Some((k@, v@)),
            None => None,
        },
    }
}

/// The fixed pages of the site, in the order in which they are written.
pub open spec fn page_table() -> Seq<LogicalPageView> {
    seq![
        row("/", "index.html.tera", "index.html", "/", Some("home"), None),
        row("/resume", "resume.html.tera", "resume/index.html", "/resume", Some("resume"), None),
        row("/blog", "blog/blog_root.html.tera", "blog/index.html", "/blog", Some("blog"), None),
        row("/linkedin", "linkedin.html.tera", "linkedin/index.html", "/linkedin", Some("linkedin"), None),
        row("/github", "github.html.tera", "github/index.html", "/github", Some("github"), None),
        row("/feed/index.xml", "blog-rss.xml.tera", "feed/index.xml", "/blog", None, None),
        row("404", "404.html.tera", "404.html", "/", Some("404"), Some(("blog_uri", ""))),
        row("500", "500.html.tera", "500.html", "/", Some("500"), Some(("uri", "/"))),
    ]
}

/// The fixed pages of the site, in the order in which they are written.
pub fn logical_pages() -> (r: Vec<LogicalPage>)
    ensures
        r@.map_values(|p: LogicalPage| p@) == page_table(),
{
    let r = vec![
        LogicalPage { route: "/", template: "index.html.tera", output_path: "index.html", nav_href: "/", title: Some("home"), extra: None },
        LogicalPage { route: "/resume", template: "resume.html.tera", output_path: "resume/index.html", nav_href: "/resume", title: Some("resume"), extra: None },
        LogicalPage { route: "/blog", template: "blog/blog_root.html.tera", output_path: "blog/index.html", nav_href: "/blog", title: Some("blog"), extra: None },
        LogicalPage { route: "/linkedin", template: "linkedin.html.tera", output_path: "linkedin/index.html", nav_href: "/linkedin", title: Some("linkedin"), extra: None },
        LogicalPage { route: "/github", template: "github.html.tera", output_path: "github/index.html", nav_href: "/github", title: Some("github"), extra: None },
        LogicalPage { route: "/feed/index.xml", template: "blog-rss.xml.tera", output_path: "feed/index.xml", nav_href: "/blog", title: None, extra: None },
        LogicalPage { route: "404", template: "404.html.tera", output_path: "404.html", nav_href: "/", title: Some("404"), extra: Some(("blog_uri", "")) },
        LogicalPage { route: "500", template: "500.html.tera", output_path: "500.html", nav_href: "/", title: Some("500"), extra: Some(("uri", "/")) },
    ];
    assert(r@.map_values(|p: LogicalPage| p@) =~= page_table());
    r
}

/// What a page is made from: a template rendered with the page's context, or fixed text.
pub enum PageSource {
    Template(String),
    Text(String),
}

/// One file of the generated site: where it goes under the output root, and what it
/// is made from.
pub struct SitePage<'a> {
    pub output_path: String,
    pub source: PageSource,
    pub context: SiteContext<'a>,
}

/// The dynamic values of a fixed page.
pub open spec fn row_kv(r: LogicalPageView) -> Map<Seq<char>, Seq<char>> {
    let m = map![NAV_KEY@ => r.nav_href];
    let m = match r.title {
        Some(t) => m.insert(TITLE_KEY@, t),
        None => m,
    };
    match r.extra {
        Some((k, v)) => m.insert(k, v),
        None => m,
    }
}

pub open spec fn renders(page: SitePage, template: Seq<char>) -> bool {
    page.source matches PageSource::Template(t) && t@ == template
}

pub open spec fn sees(page: SitePage, base: &SiteContextKv, blog: &OrgBlog) -> bool {
    &&& page.context.base == base
    &&& page.context.blog == blog
    &&& page.context.kv.wf()
}

/// `page` is the fixed page `r` of the table.
pub open spec fn is_fixed_page(
    page: SitePage,
    r: LogicalPageView,
    base: &SiteContextKv,
    blog: &OrgBlog,
) -> bool {
    &&& page.output_path@ == r.output_path
    &&& renders(page, r.template)
    &&& sees(page, base, blog)
    &&& page.context.curr_blog is None
    &&& page.context.kv@ == row_kv(r)
}

pub open spec fn is_robots_page(page: SitePage) -> bool {
    &&& page.output_path@ == ROBOTS_PATH@
    &&& page.source matches PageSource::Text(t) && t@ == ROBOTS_TXT@
    &&& page.context.curr_blog is None
}

pub open spec fn article_path(slug: Seq<char>) -> Seq<char> {
    "blog/"@ + slug + "/index.html"@
}

/// `page` is the page of the article that `blog` maps `slug` to.
pub open spec fn is_article_page(
    page: SitePage,
    slug: Seq<char>,
    base: &SiteContextKv,
    blog: &OrgBlog,
) -> bool {
    &&& page.output_path@ == article_path(slug)
    &&& renders(page, ARTICLE_TEMPLATE@)
    &&& sees(page, base, blog)
    &&& blog.html@.contains_key(slug)
    &&& page.context.curr_blog matches Some(a) && *a == blog.html@[slug]
    &&& page.context.kv@ == map![NAV_KEY@ => "/blog"@, TITLE_KEY@ => "blog"@, CURR_SLUG_KEY@ => slug]
}

/// The slugs of the articles, each once, in the order of their first appearance.
pub open spec fn distinct_slugs(s: Seq<ArticleView>) -> Seq<Seq<char>>
    decreases s.len(),
{
    if s.len() == 0 {
        Seq::empty()
    } else {
        let d = distinct_slugs(s.drop_last());
        if d.contains(s.last().slug) {
            d
        } else {
            d.push(s.last().slug)
        }
    }
}

/// Every page of the site: the fixed pages of the table, then `robots.txt`, then one
/// page for each slug of the blog.
pub open spec fn is_site_plan(pages: Seq<SitePage>, base: &SiteContextKv, blog: &OrgBlog) -> bool {
    let n = page_table().len();
    let articles = distinct_slugs(article_views(blog.blog_files@));
    &&& pages.len() == n + 1 + articles.len()
    &&& forall|i: int| 0 <= i < n ==> is_fixed_page(#[trigger] pages[i], page_table()[i], base, blog)
    &&& is_robots_page(pages[n as int])
    &&& forall|i: int|
        0 <= i < articles.len() ==> is_article_page(
            #[trigger] pages[n + 1 + i],
            articles[i],
            base,
            blog,
        )
}

fn fixed_page<'a>(r: &LogicalPage, base: &'a SiteContextKv, blog: &'a OrgBlog) -> (p: SitePage<'a>)
    requires
        base.wf(),
    ensures
        is_fixed_page(p, r@, base, blog),
{
    let mut context = get_base_context(r.nav_href, base, blog);
    if let Some(t) = r.title {
        context.kv.insert(TITLE_KEY.to_owned(), t.to_owned());
    }
    if let Some((k, v)) = r.extra {
        context.kv.insert(k.to_owned(), v.to_owned());
    }
    SitePage {
        output_path: r.output_path.to_owned(),
        source: PageSource::Template(r.template.to_owned()),
        context,
    }
}

fn article_page<'a>(slug: &String, base: &'a SiteContextKv, blog: &'a OrgBlog) -> (p: Option<
    SitePage<'a>,
>)
    requires
        base.wf(),
    ensures
        blog.html@.contains_key(slug@) ==> (p matches Some(page) && is_article_page(
            page,
            slug@,
            base,
            blog,
        )),
{
    match blog.html.get(slug.as_str()) {
        Some(article) => {
            let mut context = get_base_context("/blog", base, blog);
            context.kv.insert(TITLE_KEY.to_owned(), "blog".to_owned());
            context.kv.insert(CURR_SLUG_KEY.to_owned(), slug.clone());
            context.curr_blog = Some(article);
            let mut output_path = "blog/".to_owned();
            output_path.append(slug.as_str());
            output_path.append("/index.html");
            Some(
                SitePage {
                    output_path,
                    source: PageSource::Template(ARTICLE_TEMPLATE.to_owned()),
                    context,
                },
            )
        },
        None => None,
    }
}

/// Lays out the whole site: the fixed pages of the table, `robots.txt`, and one page
/// for each slug of the blog, showing the article that the slug maps to.
pub fn generate_site<'a>(base: &'a SiteContextKv, blog: &'a OrgBlog) -> (r: Vec<SitePage<'a>>)
    requires
        base.wf(),
        blog.wf(),
    ensures
        is_site_plan(r@, base, blog),
{
    let table = logical_pages();
    let mut pages: Vec<SitePage<'a>> = Vec::new();
    let mut i: usize = 0;
    while i < table.len()
        invariant
            i <= table@.len(),
            table@.map_values(|p: LogicalPage| p@) == page_table(),
            base.wf(),
            pages@.len() == i,
            forall|j: int| 0 <= j < i ==> is_fixed_page(#[trigger] pages@[j], page_table()[j], base, blog),
        decreases table@.len() - i,
    {
        assert(table@[i as int]@ == page_table()[i as int]);
        let page = fixed_page(&table[i], base, blog);
        pages.push(page);
        i = i + 1;
    }
    let robots = SitePage {
        output_path: ROBOTS_PATH.to_owned(),
        source: PageSource::Text(ROBOTS_TXT.to_owned()),
        context: get_base_context("/", base, blog),
    };
    pages.push(robots);
    let ghost n = page_table().len();
    let ghost views = article_views(blog.blog_files@);
    let mut seen = StringHashSet::new();
    let mut k: usize = 0;
    while k < blog.blog_files.len()
        invariant
            k <= blog.blog_files@.len(),
            views == article_views(blog.blog_files@),
            blog.wf(),
            base.wf(),
            blog.html@.dom() == slugs(views).to_set(),
            seen@ == distinct_slugs(views.subrange(0, k as int)).to_set(),
            pages@.len() == n + 1 + distinct_slugs(views.subrange(0, k as int)).len(),
            forall|j: int| 0 <= j < n ==> is_fixed_page(#[trigger] pages@[j], page_table()[j], base, blog),
            is_robots_page(pages@[n as int]),
            forall|j: int|
                0 <= j < distinct_slugs(views.subrange(0, k as int)).len() ==> is_article_page(
                    #[trigger] pages@[n + 1 + j],
                    distinct_slugs(views.subrange(0, k as int))[j],
                    base,
                    blog,
                ),
        decreases blog.blog_files@.len() - k,
    {
        let ghost done = views.subrange(0, k as int);
        let ghost next = views.subrange(0, k + 1);
        assert(next.drop_last() =~= done);
        let slug = &blog.blog_files[k].slug;
        assert(slugs(views)[k as int] == slug@);
        assert(blog.html@.contains_key(slug@));
        assert(distinct_slugs(done).to_set().contains(slug@) == distinct_slugs(done).contains(slug@));
        if !seen.contains(slug.as_str()) {
            let page = article_page(slug, base, blog);
            if let Some(page) = page {
                pages.push(page);
            }
            seen.insert(slug.clone());
            proof {
                Seq::lemma_to_set_insert_commutes(distinct_slugs(done), slug@);
                assert(distinct_slugs(done) + seq![slug@] =~= distinct_slugs(next));
            }
        }
        k = k + 1;
    }
    assert(views.subrange(0, blog.blog_files@.len() as int) =~= views);
    pages
}

/// Each fixed page's route paired with its template, in table order.
pub open spec fn route_pairs(rows: Seq<LogicalPageView>) -> Seq<(Seq<char>, Seq<char>)> {
    rows.map_values(|r: LogicalPageView| (r.route, r.template))
}

/// The route table of the site: the template behind each route, and the résumé PDF,
/// which its route serves as it is.
pub open spec fn route_table() -> Map<Seq<char>, Seq<char>> {
    pairs_map(route_pairs(page_table())).insert(RESUME_PDF_ROUTE@, RESUME_PDF_FILE@)
}

/// The route table of the site: the template behind each route, and the résumé PDF,
/// which its route serves as it is.
pub fn template_map() -> (r: SiteContextKv)
    ensures
        r.wf(),
        r@ == route_table(),
{
    let table = logical_pages();
    let mut map = SiteContextKv::new();
    let mut i: usize = 0;
    while i < table.len()
        invariant
            i <= table@.len(),
            table@.map_values(|p: LogicalPage| p@) == page_table(),
            map.wf(),
            map@ == pairs_map(route_pairs(page_table()).subrange(0, i as int)),
        decreases table@.len() - i,
    {
        assert(table@[i as int]@ == page_table()[i as int]);
        assert(route_pairs(page_table()).subrange(0, i + 1).drop_last() =~= route_pairs(
            page_table(),
        ).subrange(0, i as int));
        map.insert(table[i].route.to_owned(), table[i].template.to_owned());
        i = i + 1;
    }
    assert(route_pairs(page_table()).subrange(0, table@.len() as int) =~= route_pairs(
        page_table(),
    ));
    map.insert(RESUME_PDF_ROUTE.to_owned(), RESUME_PDF_FILE.to_owned());
    map
}

proof fn lemma_distinct_slugs(s: Seq<ArticleView>)
    ensures
        distinct_slugs(s).no_duplicates(),
        distinct_slugs(s).to_set() == slugs(s).to_set(),
    decreases s.len(),
{
    if s.len() > 0 {
        let init = s.drop_last();
        let d = distinct_slugs(init);
        lemma_distinct_slugs(init);
        assert(slugs(s) =~= slugs(init) + seq![s.last().slug]);
        Seq::lemma_to_set_insert_commutes(slugs(init), s.last().slug);
        if d.contains(s.last().slug) {
            assert(d.to_set().contains(s.last().slug));
            assert(d.to_set().insert(s.last().slug) =~= d.to_set());
        } else {
            Seq::lemma_to_set_insert_commutes(d, s.last().slug);
            assert(d + seq![s.last().slug] =~= d.push(s.last().slug));
            assert forall|i: int, j: int|
                0 <= i < d.push(s.last().slug).len() && 0 <= j < d.push(s.last().slug).len() && i
                    != j implies #[trigger] d.push(s.last().slug)[i] != #[trigger] d.push(
                s.last().slug,
            )[j] by {
                if i < d.len() && j < d.len() {
                } else if i < d.len() {
                    assert(d.contains(d[i]));
                } else {
                    assert(d.contains(d[j]));
                }
            }
        }
    }
}

/// The site has exactly one article page for each slug of the blog.
pub proof fn lemma_one_page_per_slug(pages: Seq<SitePage>, base: &SiteContextKv, blog: &OrgBlog)
    requires
        blog.wf(),
        is_site_plan(pages, base, blog),
    ensures
        pages.len() == page_table().len() + 1 + blog.html@.len(),
{
    let views = article_views(blog.blog_files@);
    lemma_distinct_slugs(views);
    distinct_slugs(views).unique_seq_to_set();
}

/// On a blog without articles the site still has its home, résumé, blog index, static,
/// feed, 404 and 500 pages and `robots.txt`, and no article page; the feed lists nothing.
pub proof fn lemma_empty_blog_site(pages: Seq<SitePage>, base: &SiteContextKv, blog: &OrgBlog)
    requires
        is_site_plan(pages, base, blog),
        blog.blog_files@.len() == 0,
    ensures
        pages.len() == page_table().len() + 1,
        forall|i: int| 0 <= i < pages.len() ==> (#[trigger] pages[i]).context.curr_blog is None,
        pages[0].output_path@ == "index.html"@,
        pages[1].output_path@ == "resume/index.html"@,
        pages[2].output_path@ == "blog/index.html"@,
        pages[3].output_path@ == "linkedin/index.html"@,
        pages[4].output_path@ == "github/index.html"@,
        pages[5].output_path@ == "feed/index.xml"@ && renders(pages[5], "blog-rss.xml.tera"@),
        pages[5].context.blog.blog_files@.len() == 0,
        pages[6].output_path@ == "404.html"@,
        pages[7].output_path@ == "500.html"@,
        is_robots_page(pages[8]),
{
    assert(article_views(blog.blog_files@) =~= Seq::<ArticleView>::empty());
    assert(is_fixed_page(pages[0], page_table()[0], base, blog));
    assert(is_fixed_page(pages[1], page_table()[1], base, blog));
    assert(is_fixed_page(pages[2], page_table()[2], base, blog));
    assert(is_fixed_page(pages[3], page_table()[3], base, blog));
    assert(is_fixed_page(pages[4], page_table()[4], base, blog));
    assert(is_fixed_page(pages[5], page_table()[5], base, blog));
    assert(is_fixed_page(pages[6], page_table()[6], base, blog));
    assert(is_fixed_page(pages[7], page_table()[7], base, blog));
}

/// On a blog of one article the site has the fixed pages, `robots.txt`, and one article
/// page, at `blog/<slug>/index.html`, showing that article; the feed lists that article.
pub proof fn lemma_single_article_site(pages: Seq<SitePage>, base: &SiteContextKv, blog: &OrgBlog)
    requires
        blog.wf(),
        is_site_plan(pages, base, blog),
        blog.blog_files@.len() == 1,
    ensures
        pages.len() == page_table().len() + 2,
        pages[9].output_path@ == article_path(blog.blog_files@[0].slug@),
        renders(pages[9], ARTICLE_TEMPLATE@),
        pages[9].context.curr_blog matches Some(a) && a@ == blog.blog_files@[0]@,
        pages[5].output_path@ == "feed/index.xml"@,
        pages[5].context.blog.blog_files@.len() == 1,
{
    let views = article_views(blog.blog_files@);
    let slug = blog.blog_files@[0].slug@;
    assert(views.drop_last() =~= Seq::<ArticleView>::empty());
    assert(distinct_slugs(views.drop_last()) =~= Seq::<Seq<char>>::empty());
    assert(distinct_slugs(views) =~= seq![slug]);
    assert(page_table().len() == 8);
    assert(distinct_slugs(views)[0] == slug);
    assert(is_article_page(pages[(page_table().len() + 1 + 0) as int], distinct_slugs(views)[0], base, blog));
    assert(is_article_page(pages[9], slug, base, blog));
    assert(is_fixed_page(pages[5], page_table()[5], base, blog));
    assert(blog.html@.contains_key(slug));
    let j = choose|j: int|
        0 <= j < blog.blog_files@.len() && (#[trigger] blog.blog_files@[j])@ == blog.html@[slug]@
            && blog.blog_files@[j].slug@ == slug;
    assert(j == 0);
}

} // verus!
