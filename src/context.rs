use crate::blog::{OrgBlog, OrgModeHtml};
use vstd::prelude::*;

verus! {

/// Where the exported article documents live, relative to the working directory.
pub const BLOG_ROOT: &'static str = "blog/";

/// Key of the navigation target of a page.
pub const NAV_KEY: &'static str = "nav_site_href";

pub open spec fn pair_views(s: Seq<(String, String)>) -> Seq<(Seq<char>, Seq<char>)> {
    s.map_values(|p: (String, String)| (p.0@, p.1@))
}

/// The mapping that a list of pairs spells out, later pairs winning.
pub open spec fn pairs_map(s: Seq<(Seq<char>, Seq<char>)>) -> Map<Seq<char>, Seq<char>>
    decreases s.len(),
{
    if s.len() == 0 {
        Map::empty()
    } else {
        pairs_map(s.drop_last()).insert(s.last().0, s.last().1)
    }
}

pub open spec fn unique_keys(s: Seq<(Seq<char>, Seq<char>)>) -> bool {
    forall|i: int, j: int| 0 <= i < s.len() && 0 <= j < s.len() && i != j ==> #[trigger] s[i].0 != #[trigger] s[j].0
}

proof fn lemma_pairs_map_keys(s: Seq<(Seq<char>, Seq<char>)>, k: Seq<char>)
    ensures
        pairs_map(s).contains_key(k) <==> exists|i: int| 0 <= i < s.len() && #[trigger] s[i].0 == k,
    decreases s.len(),
{
    if s.len() > 0 {
        let init = s.drop_last();
        lemma_pairs_map_keys(init, k);
        if exists|i: int| 0 <= i < s.len() && #[trigger] s[i].0 == k {
            let i = choose|i: int| 0 <= i < s.len() && #[trigger] s[i].0 == k;
            if i < init.len() {
                assert(init[i].0 == k);
            }
        }
        if pairs_map(init).contains_key(k) {
            let i = choose|i: int| 0 <= i < init.len() && #[trigger] init[i].0 == k;
            assert(s[i].0 == k);
        }
    }
}

proof fn lemma_pairs_map_value(s: Seq<(Seq<char>, Seq<char>)>, i: int)
    requires
        unique_keys(s),
        0 <= i < s.len(),
    ensures
        pairs_map(s).contains_key(s[i].0),
        pairs_map(s)[s[i].0] == s[i].1,
    decreases s.len(),
{
    if i < s.len() - 1 {
        let init = s.drop_last();
        assert(s[s.len() - 1].0 != s[i].0);
        assert forall|a: int, b: int|
            0 <= a < init.len() && 0 <= b < init.len() && a != b implies #[trigger] init[a].0
                != #[trigger] init[b].0 by {
            assert(s[a].0 != s[b].0);
        }
        lemma_pairs_map_value(init, i);
    }
}

proof fn lemma_pairs_map_update(s: Seq<(Seq<char>, Seq<char>)>, i: int, v: Seq<char>)
    requires
        unique_keys(s),
        0 <= i < s.len(),
    ensures
        unique_keys(s.update(i, (s[i].0, v))),
        pairs_map(s.update(i, (s[i].0, v))) == pairs_map(s).insert(s[i].0, v),
{
    let t = s.update(i, (s[i].0, v));
    assert forall|a: int, b: int|
        0 <= a < t.len() && 0 <= b < t.len() && a != b implies #[trigger] t[a].0
            != #[trigger] t[b].0 by {
        assert(s[a].0 != s[b].0);
    }
    let m = pairs_map(s).insert(s[i].0, v);
    assert forall|k: Seq<char>| #[trigger] pairs_map(t).contains_key(k) <==> m.contains_key(k) by {
        lemma_pairs_map_keys(s, k);
        lemma_pairs_map_keys(t, k);
        if exists|j: int| 0 <= j < s.len() && #[trigger] s[j].0 == k {
            let j = choose|j: int| 0 <= j < s.len() && #[trigger] s[j].0 == k;
            assert(t[j].0 == k);
        }
        if exists|j: int| 0 <= j < t.len() && #[trigger] t[j].0 == k {
            let j = choose|j: int| 0 <= j < t.len() && #[trigger] t[j].0 == k;
            assert(s[j].0 == k);
        }
    }
    assert forall|k: Seq<char>| #[trigger] pairs_map(t).contains_key(k) implies pairs_map(t)[k]
        == m[k] by {
        lemma_pairs_map_keys(t, k);
        let j = choose|j: int| 0 <= j < t.len() && #[trigger] t[j].0 == k;
        lemma_pairs_map_value(t, j);
        if j != i {
            assert(s[j] == t[j]);
            lemma_pairs_map_value(s, j);
        }
    }
    assert(pairs_map(t) =~= m);
}

/// A mapping from strings to strings, kept as pairs with distinct keys in the order in
/// which the keys were first entered.
pub struct SiteContextKv {
    entries: Vec<(String, String)>,
}

impl View for SiteContextKv {
    type V = Map<Seq<char>, Seq<char>>;

    closed spec fn view(&self) -> Map<Seq<char>, Seq<char>> {
        pairs_map(pair_views(self.entries@))
    }
}

impl SiteContextKv {
    pub closed spec fn wf(&self) -> bool {
        unique_keys(pair_views(self.entries@))
    }

    /// The pairs, in the order in which their keys were first entered.
    pub closed spec fn pairs(&self) -> Seq<(Seq<char>, Seq<char>)> {
        pair_views(self.entries@)
    }

    pub fn new() -> (r: SiteContextKv)
        ensures
            r.wf(),
            r@ == Map::<Seq<char>, Seq<char>>::empty(),
    {
        SiteContextKv { entries: Vec::new() }
    }

    fn position(&self, key: &String) -> (r: Option<usize>)
        ensures
            match r {
                Some(i) => i < self.entries@.len() && self.entries@[i as int].0@ == key@,
                None => forall|i: int|
                    0 <= i < self.entries@.len() ==> (#[trigger] self.entries@[i]).0@ != key@,
            },
    {
        let mut i: usize = 0;
        while i < self.entries.len()
            invariant
                i <= self.entries@.len(),
                forall|j: int| 0 <= j < i ==> (#[trigger] self.entries@[j]).0@ != key@,
            decreases self.entries@.len() - i,
        {
            if self.entries[i].0 == *key {
                return Some(i);
            }
            i = i + 1;
        }
        None
    }

    /// Enters `value` under `key`, in place of what was there.
    pub fn insert(&mut self, key: String, value: String)
        requires
            old(self).wf(),
        ensures
            final(self).wf(),
            final(self)@ == old(self)@.insert(key@, value@),
    {
        let ghost before = pair_views(self.entries@);
        match self.position(&key) {
            Some(i) => {
                proof {
                    lemma_pairs_map_update(before, i as int, value@);
                }
                self.entries.set(i, (key, value));
                assert(pair_views(self.entries@) =~= before.update(
                    i as int,
                    (before[i as int].0, value@),
                ));
            },
            None => {
                let ghost kv = (key@, value@);
                self.entries.push((key, value));
                assert(pair_views(self.entries@) =~= before.push(kv));
                assert(pair_views(self.entries@).drop_last() =~= before);
                assert forall|a: int, b: int|
                    0 <= a < pair_views(self.entries@).len() && 0 <= b < pair_views(
                        self.entries@,
                    ).len() && a != b implies #[trigger] pair_views(self.entries@)[a].0
                    != #[trigger] pair_views(self.entries@)[b].0 by {
                    if a < before.len() && b < before.len() {
                        assert(before[a].0 != before[b].0);
                    } else if a < before.len() {
                        assert(self.entries@[a].0@ != key@);
                    } else {
                        assert(self.entries@[b].0@ != key@);
                    }
                }
            },
        }
    }

    /// The value entered under `key`, if any.
    pub fn get(&self, key: &str) -> (r: Option<&String>)
        requires
            self.wf(),
        ensures
            match r {
                Some(v) => self@.contains_key(key@) && v@ == self@[key@],
                None => !self@.contains_key(key@),
            },
    {
        let k = key.to_owned();
        proof {
            lemma_pairs_map_keys(pair_views(self.entries@), key@);
        }
        match self.position(&k) {
            Some(i) => {
                proof {
                    lemma_pairs_map_value(pair_views(self.entries@), i as int);
                }
                Some(&self.entries[i].1)
            },
            None => {
                assert forall|j: int| 0 <= j < pair_views(self.entries@).len() implies #[trigger] pair_views(
                    self.entries@,
                )[j].0 != key@ by {
                    assert(self.entries@[j].0@ != key@);
                }
                None
            },
        }
    }

    /// Whether a value is entered under `key`.
    pub fn contains_key(&self, key: &str) -> (r: bool)
        requires
            self.wf(),
        ensures
            r == self@.contains_key(key@),
    {
        self.get(key).is_some()
    }

    /// The pairs, in the order in which their keys were first entered.
    pub fn entries(&self) -> (r: &Vec<(String, String)>)
        ensures
            pair_views(r@) == self.pairs(),
    {
        &self.entries
    }
}

/// Key of a page's title.
pub const TITLE_KEY: &'static str = "title";

/// Key of the slug of the article that a page shows.
pub const CURR_SLUG_KEY: &'static str = "curr_slug";

/// The site-wide constants that every page sees.
pub open spec fn static_site_kv() -> Map<Seq<char>, Seq<char>> {
    map![
        "domain_name"@ => "dpbriggs.ca"@,
        "nav_site_href"@ => "/"@,
        "root_uri"@ => "/"@,
        "blog_uri"@ => "/blog"@,
        "resume_uri"@ => "/resume"@,
        "linkedin_uri"@ => "/linkedin"@,
        "github_uri"@ => "/github"@,
        "resume_pdf_uri"@ => "/dpbriggs_resume.pdf"@,
        "rss_uri"@ => "/feed/index.xml"@,
        "crash_uri"@ => "/500"@,
        "web_sep"@ => "--"@,
        "admin_email"@ => "david@dpbriggs.ca"@,
        "full_name"@ => "David Briggs"@,
        "internet_handle"@ => "dpbriggs"@,
        "my_email"@ => "david@dpbriggs.ca"@,
        "github_url"@ => "https://github.com/dpbriggs"@,
        "github_repo_url"@ => "https://github.com/dpbriggs/dpbriggs-blog"@,
        "linkedin_url"@ => "https://www.linkedin.com/in/dpbriggs"@
    ]
}

fn put(kv: &mut SiteContextKv, key: &str, value: &str)
    requires
        old(kv).wf(),
    ensures
        final(kv).wf(),
        final(kv)@ == old(kv)@.insert(key@, value@),
{
    kv.insert(key.to_owned(), value.to_owned());
}

/// Builds the site-wide constants; called once at start-up, then only read.
pub fn static_site_context() -> (r: SiteContextKv)
    ensures
        r.wf(),
        r@ == static_site_kv(),
{
    let mut kv = SiteContextKv::new();
    put(&mut kv, "domain_name", "dpbriggs.ca");
    put(&mut kv, "nav_site_href", "/");
    put(&mut kv, "root_uri", "/");
    put(&mut kv, "blog_uri", "/blog");
    put(&mut kv, "resume_uri", "/resume");
    put(&mut kv, "linkedin_uri", "/linkedin");
    put(&mut kv, "github_uri", "/github");
    put(&mut kv, "resume_pdf_uri", "/dpbriggs_resume.pdf");
    put(&mut kv, "rss_uri", "/feed/index.xml");
    put(&mut kv, "crash_uri", "/500");
    put(&mut kv, "web_sep", "--");
    put(&mut kv, "admin_email", "david@dpbriggs.ca");
    put(&mut kv, "full_name", "David Briggs");
    put(&mut kv, "internet_handle", "dpbriggs");
    put(&mut kv, "my_email", "david@dpbriggs.ca");
    put(&mut kv, "github_url", "https://github.com/dpbriggs");
    put(&mut kv, "github_repo_url", "https://github.com/dpbriggs/dpbriggs-blog");
    put(&mut kv, "linkedin_url", "https://www.linkedin.com/in/dpbriggs");
    kv
}

/// Everything a template sees when it renders one page.
pub struct SiteContext<'a> {
    /// The site-wide constants.
    pub base: &'a SiteContextKv,
    /// What differs from page to page.
    pub kv: SiteContextKv,
    /// The whole blog.
    pub blog: &'a OrgBlog,
    /// The article that the page shows, if any.
    pub curr_blog: Option<&'a OrgModeHtml>,
}

/// The context of a page whose navigation target is `nav_href_uri`, showing no article.
pub fn get_base_context<'a>(nav_href_uri: &str, base: &'a SiteContextKv, blog: &'a OrgBlog) -> (r:
    SiteContext<'a>)
    ensures
        r.base == base,
        r.blog == blog,
        r.curr_blog is None,
        r.kv.wf(),
        r.kv@ == map![NAV_KEY@ => nav_href_uri@],
{
    let mut kv = SiteContextKv::new();
    put(&mut kv, NAV_KEY, nav_href_uri);
    SiteContext { base, kv, blog, curr_blog: None }
}

} // verus!
