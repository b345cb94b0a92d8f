//! The spider's logic: extracting same-domain links from a fetched page,
//! recognizing URLs that carry query parameters, and the breadth-first crawl
//! bookkeeping (visited set, depth-bounded queue, counters). Fetching itself
//! is left to the caller.

use crate::monitor::bump64;
use vstd::prelude::*;

verus! {

#[verifier::external_type_specification]
#[verifier::external_body]
pub struct ExUrl(url::Url);

/// What a `url::Url` value holds: its serialization. A URL is determined by
/// this text (parsing the serialization yields the URL back), so the other
/// names below read it.
pub uninterp spec fn url_text(u: url::Url) -> Seq<char>;

/// Whether `url::Url::parse` accepts a text as an absolute URL.
pub uninterp spec fn url_parse_ok(s: Seq<char>) -> bool;

/// The serialization of the URL that parsing a text yields.
pub uninterp spec fn url_norm_of(s: Seq<char>) -> Seq<char>;

/// Whether the URL with this serialization carries a query component.
pub uninterp spec fn url_query_of(s: Seq<char>) -> bool;

/// The domain of the URL with this serialization, when its host is one.
pub uninterp spec fn url_domain_of(s: Seq<char>) -> Option<Seq<char>>;

/// Whether resolving an href against the URL with this serialization
/// succeeds.
pub uninterp spec fn url_join_ok(base: Seq<char>, href: Seq<char>) -> bool;

/// The serialization of the URL an href resolves to against the URL with
/// this serialization.
pub uninterp spec fn url_join_of(base: Seq<char>, href: Seq<char>) -> Seq<char>;

/// The serialization left when the URL with this serialization drops its
/// fragment.
pub uninterp spec fn url_defrag_of(s: Seq<char>) -> Seq<char>;

/// Relies on `url::Url::parse`: `Some` exactly when the text is an absolute
/// URL the crate accepts, in which case the value is its parse, a function of
/// the text alone.
#[verifier::external_body]
fn parse_url(s: &str) -> (r: Option<url::Url>)
    ensures
        r is Some <==> url_parse_ok(s@),
        r is Some ==> url_text(r.unwrap()) == url_norm_of(s@),
{
    url::Url::parse(s).ok()
}

/// Relies on `url::Url::query`: whether the URL carries a query string.
#[verifier::external_body]
fn url_has_query(u: &url::Url) -> (r: bool)
    ensures
        r == url_query_of(url_text(*u)),
{
    u.query().is_some()
}

/// Relies on `url::Url::domain`: the domain of the URL's host, when it has
/// one.
#[verifier::external_body]
fn url_domain(u: &url::Url) -> (r: Option<String>)
    ensures
        r.deep_view() == url_domain_of(url_text(*u)),
{
    u.domain().map(|d| d.to_string())
}

/// Relies on `url::Url::join`: the href resolved against the base, when the
/// crate accepts it; a function of the base and the href alone.
#[verifier::external_body]
fn url_join(base: &url::Url, href: &str) -> (r: Option<url::Url>)
    ensures
        r is Some <==> url_join_ok(url_text(*base), href@),
        r is Some ==> url_text(r.unwrap()) == url_join_of(url_text(*base), href@),
{
    base.join(href).ok()
}

/// Relies on `url::Url`'s `Clone`: the copy serializes as the original.
#[verifier::external_body]
fn url_clone(u: &url::Url) -> (r: url::Url)
    ensures
        url_text(r) == url_text(*u),
{
    u.clone()
}

/// Relies on `url::Url::set_fragment`: drops the URL's fragment and changes
/// nothing else.
#[verifier::external_body]
fn url_drop_fragment(u: &mut url::Url)
    ensures
        url_text(*final(u)) == url_defrag_of(url_text(*old(u))),
{
    u.set_fragment(None);
}

/// Relies on `url::Url::as_str`: the URL's serialization.
#[verifier::external_body]
fn url_to_string(u: &url::Url) -> (r: String)
    ensures
        r@ == url_text(*u),
{
    u.as_str().to_string()
}

/// What the anchor elements of an HTML document carry: the `href` attribute
/// values in document order. The result depends on the text alone.
pub uninterp spec fn hrefs_of(body: Seq<char>) -> Seq<Seq<char>>;

/// Relies on scraper's `Html::parse_document` and `Selector::select`: the
/// `href` attribute of each anchor element of the document, in document
/// order (the `a` selector itself is a fixed, valid selector).
#[verifier::external_body]
fn html_hrefs(body: &str) -> (r: Vec<String>)
    ensures
        r.deep_view() == hrefs_of(body@),
{
    let document = scraper::Html::parse_document(body);
    let selector = scraper::Selector::parse("a").unwrap();
    document
        .select(&selector)
        .filter_map(|e| e.value().attr("href").map(|h| h.to_string()))
        .collect()
}

/// A text names a URL that carries query parameters: it parses as a URL and
/// that URL has a query component.
pub open spec fn has_params_of(s: Seq<char>) -> bool {
    url_parse_ok(s) && url_query_of(url_norm_of(s))
}

/// Whether a URL carries query parameters: false for anything that does not
/// parse as a URL.
pub fn check_for_params(url_str: &str) -> (r: bool)
    ensures
        r == has_params_of(url_str@),
{
    match parse_url(url_str) {
        Some(u) => url_has_query(&u),
        None => false,
    }
}

/// The views of a string sequence.
pub open spec fn views_of(v: Seq<String>) -> Set<Seq<char>> {
    Set::new(|s: Seq<char>| exists|i: int| 0 <= i < v.len() && (#[trigger] v[i])@ == s)
}

/// No two entries read the same.
pub open spec fn distinct_views(v: Seq<String>) -> bool {
    forall|i: int, j: int| 0 <= i < j < v.len() ==> (#[trigger] v[i])@ != (#[trigger] v[j])@
}

fn contains_str(v: &Vec<String>, s: &String) -> (r: bool)
    ensures
        r == views_of(v@).contains(s@),
{
    let mut i: usize = 0;
    while i < v.len()
        invariant
            i <= v@.len(),
            forall|j: int| 0 <= j < i ==> (#[trigger] v@[j])@ != s@,
        decreases v@.len() - i,
    {
        if v[i].eq(s) {
            proof {
                assert(views_of(v@).contains(s@));
            }
            return true;
        }
        i = i + 1;
    }
    proof {
        assert(!views_of(v@).contains(s@)) by {
            if views_of(v@).contains(s@) {
                let j = choose|j: int| 0 <= j < v@.len() && (#[trigger] v@[j])@ == s@;
            }
        }
    }
    false
}

/// The page's domain, the empty text when its URL has none.
pub open spec fn base_domain_text(base: Seq<char>) -> Seq<char> {
    match url_domain_of(base) {
        Some(d) => d,
        None => Seq::empty(),
    }
}

/// The link one href contributes against a base URL's serialization: the
/// href must resolve, the resolved URL's domain must equal the base's, and
/// the link is the resolved URL's serialization with its fragment dropped.
pub open spec fn href_link(base: Seq<char>, href: Seq<char>) -> Option<Seq<char>> {
    if url_join_ok(base, href) {
        let j = url_join_of(base, href);
        if url_domain_of(j) == Some(base_domain_text(base)) {
            Some(url_defrag_of(j))
        } else {
            None
        }
    } else {
        None
    }
}

/// Some href among the first `n` contributes the link `s`.
pub open spec fn link_in_prefix(base: Seq<char>, hrefs: Seq<Seq<char>>, n: int, s: Seq<char>) -> bool {
    exists|m: int| 0 <= m < n && href_link(base, #[trigger] hrefs[m]) == Some(s)
}

/// A page extracts the link `s`: the page's URL parses and some anchor's
/// href contributes `s` against it.
pub open spec fn is_extracted(base_url: Seq<char>, body: Seq<char>, s: Seq<char>) -> bool {
    url_parse_ok(base_url) && link_in_prefix(
        url_norm_of(base_url),
        hrefs_of(body),
        hrefs_of(body).len() as int,
        s,
    )
}

/// Extracts the same-domain links of a fetched page: every anchor's href is
/// resolved against the page's URL, kept when its domain equals the page's,
/// stripped of its fragment, and deduplicated. A page whose own URL does not
/// parse yields nothing.
pub fn extract_links(base_url: &str, html_body: &str) -> (r: Vec<String>)
    ensures
        distinct_views(r@),
        !url_parse_ok(base_url@) ==> r@.len() == 0,
        forall|s: Seq<char>| #[trigger] views_of(r@).contains(s) <==> is_extracted(
            base_url@,
            html_body@,
            s,
        ),
{
    let mut links: Vec<String> = Vec::new();
    let base = match parse_url(base_url) {
        Some(u) => u,
        None => {
            proof {
                assert(forall|s: Seq<char>| !(#[trigger] views_of(links@).contains(s)));
            }
            return links;
        },
    };
    let base_domain = match url_domain(&base) {
        Some(d) => d,
        None => String::new(),
    };
    let hrefs = html_hrefs(html_body);
    let ghost bt = url_text(base);
    let ghost hd = hrefs_of(html_body@);
    let mut i: usize = 0;
    while i < hrefs.len()
        invariant
            i <= hrefs@.len(),
            hrefs.deep_view() == hd,
            hd.len() == hrefs@.len(),
            bt == url_text(base),
            bt == url_norm_of(base_url@),
            base_domain@ == base_domain_text(bt),
            distinct_views(links@),
            forall|s: Seq<char>| #[trigger] views_of(links@).contains(s) <==> link_in_prefix(
                bt,
                hd,
                i as int,
                s,
            ),
        decreases hrefs@.len() - i,
    {
        let ghost prev = links@;
        let ghost this = href_link(bt, hd[i as int]);
        proof {
            assert(hrefs@[i as int]@ == hd[i as int]);
        }
        let mut add: Option<String> = None;
        if let Some(abs) = url_join(&base, hrefs[i].as_str()) {
            if let Some(domain) = url_domain(&abs) {
                if domain.eq(&base_domain) {
                    let mut clean = url_clone(&abs);
                    url_drop_fragment(&mut clean);
                    add = Some(url_to_string(&clean));
                }
            }
        }
        let ghost gadd = add.deep_view();
        proof {
            assert(this == gadd);
        }
        match add {
            Some(text) => {
                if !contains_str(&links, &text) {
                    links.push(text);
                    proof {
                        lemma_views_push(prev, links@.last());
                        assert(links@.drop_last() =~= prev);
                        assert forall|a: int, b: int|
                            0 <= a < b < links@.len() implies (#[trigger] links@[a])@ != (
                        #[trigger] links@[b])@ by {
                            if b < prev.len() {
                                assert(prev[a]@ != prev[b]@);
                            } else {
                                assert(views_of(prev).contains(prev[a]@));
                            }
                        }
                    }
                }
            },
            None => {},
        }
        proof {
            assert forall|s: Seq<char>| #[trigger] views_of(links@).contains(s) implies
                link_in_prefix(bt, hd, i + 1, s) by {
                if views_of(prev).contains(s) {
                    assert(link_in_prefix(bt, hd, i as int, s));
                    let m = choose|m: int|
                        0 <= m < i && href_link(bt, #[trigger] hd[m]) == Some(s);
                    assert(href_link(bt, hd[m]) == Some(s));
                } else {
                    assert(this == Some(s));
                    assert(href_link(bt, hd[i as int]) == Some(s));
                }
            }
            assert forall|s: Seq<char>| link_in_prefix(bt, hd, i + 1, s) implies (
            #[trigger] views_of(links@).contains(s)) by {
                let m = choose|m: int| 0 <= m < i + 1 && href_link(bt, #[trigger] hd[m]) == Some(s);
                if m < i {
                    assert(link_in_prefix(bt, hd, i as int, s));
                    assert(views_of(prev).contains(s));
                    let w = choose|w: int| 0 <= w < prev.len() && (#[trigger] prev[w])@ == s;
                    assert(links@[w]@ == s);
                } else {
                    assert(this == Some(s));
                    assert(gadd == Some(s));
                    if views_of(prev).contains(s) {
                        let w = choose|w: int| 0 <= w < prev.len() && (#[trigger] prev[w])@ == s;
                        assert(links@[w]@ == s);
                    } else {
                        assert(links@.last()@ == s);
                    }
                }
            }
        }
        i = i + 1;
    }
    proof {
        assert(i as int == hd.len());
    }
    links
}

/// The breadth-first crawl bookkeeping: pages are visited at most once, the
/// queue holds pages still to fetch with their depth, and two counters track
/// pages crawled and URLs seen carrying parameters.
pub struct CrawlState {
    pub visited: Vec<String>,
    pub queue: Vec<(String, usize)>,
    pub pages_crawled: u64,
    pub vulnerable_params: u64,
}

impl CrawlState {
    /// No URL is marked visited twice.
    pub open spec fn wf(&self) -> bool {
        distinct_views(self.visited@)
    }

    /// A fresh crawl: the start URL is marked visited and queued at depth
    /// zero.
    pub fn new(start_url: String) -> (r: CrawlState)
        ensures
            r.wf(),
            r.visited@.len() == 1 && r.visited@[0]@ == start_url@,
            r.queue@.len() == 1 && r.queue@[0].0@ == start_url@ && r.queue@[0].1 == 0usize,
            r.pages_crawled == 0u64 && r.vulnerable_params == 0u64,
    {
        let visited_entry = start_url.clone();
        CrawlState {
            visited: vec![visited_entry],
            queue: vec![(start_url, 0)],
            pages_crawled: 0,
            vulnerable_params: 0,
        }
    }

    /// Takes the next page to fetch, in arrival order: `None` when the crawl
    /// is done.
    pub fn next_target(&mut self) -> (r: Option<(String, usize)>)
        requires
            old(self).wf(),
        ensures
            final(self).wf(),
            final(self).visited == old(self).visited,
            final(self).pages_crawled == old(self).pages_crawled,
            final(self).vulnerable_params == old(self).vulnerable_params,
            old(self).queue@.len() == 0 ==> r is None && final(self).queue == old(self).queue,
            old(self).queue@.len() > 0 ==> r == Some(old(self).queue@[0]) && final(self).queue@
                == old(self).queue@.drop_first(),
    {
        if self.queue.len() == 0 {
            None
        } else {
            let head = self.queue.remove(0);
            proof {
                assert(self.queue@ =~= old(self).queue@.drop_first());
            }
            Some(head)
        }
    }

    /// Folds one fetched page into the crawl: counts the page, counts it
    /// again as parameter-carrying if its URL has a query, and -- while the
    /// depth bound allows going deeper -- marks each not-yet-visited link as
    /// visited and queues it one level deeper. Links already visited are
    /// never queued again.
    pub fn record_page(&mut self, depth: usize, max_depth: usize, links: Vec<String>,
        has_params: bool)
        requires
            old(self).wf(),
        ensures
            final(self).wf(),
            final(self).pages_crawled == bump64(old(self).pages_crawled),
            final(self).vulnerable_params == if has_params {
                bump64(old(self).vulnerable_params)
            } else {
                old(self).vulnerable_params
            },
            depth >= max_depth ==> final(self).visited == old(self).visited && final(self).queue
                == old(self).queue,
            depth < max_depth ==> views_of(final(self).visited@) == views_of(
                old(self).visited@,
            ).union(views_of(links@)),
            forall|j: int|
                0 <= j < old(self).queue@.len() ==> final(self).queue@[j] == old(self).queue@[j],
            final(self).queue@.len() >= old(self).queue@.len(),
            forall|j: int|
                old(self).queue@.len() <= j < final(self).queue@.len() ==> (#[trigger] final(self).queue@[j]).1
                    == depth + 1 && views_of(links@).contains(final(self).queue@[j].0@)
                    && !views_of(old(self).visited@).contains(final(self).queue@[j].0@),
    {
        self.pages_crawled = bump_u64_w(self.pages_crawled);
        if has_params {
            self.vulnerable_params = bump_u64_w(self.vulnerable_params);
        }
        if depth >= max_depth {
            return ;
        }
        let ghost vis0 = self.visited@;
        let ghost q0 = self.queue@;
        let mut i: usize = 0;
        while i < links.len()
            invariant
                i <= links@.len(),
                depth < max_depth,
                distinct_views(self.visited@),
                views_of(self.visited@) == views_of(vis0).union(
                    views_of(links@.subrange(0, i as int)),
                ),
                forall|j: int| 0 <= j < q0.len() ==> self.queue@[j] == q0[j],
                self.queue@.len() >= q0.len(),
                forall|j: int|
                    q0.len() <= j < self.queue@.len() ==> (#[trigger] self.queue@[j]).1 == depth
                        + 1 && views_of(links@).contains(self.queue@[j].0@) && !views_of(
                        vis0,
                    ).contains(self.queue@[j].0@),
                self.pages_crawled == bump64(old(self).pages_crawled),
                self.vulnerable_params == if has_params {
                    bump64(old(self).vulnerable_params)
                } else {
                    old(self).vulnerable_params
                },
            decreases links@.len() - i,
        {
            let link = &links[i];
            let ghost lv = links@[i as int]@;
            let ghost vprev = self.visited@;
            proof {
                assert(views_of(links@).contains(lv));
                lemma_views_take_step(links@, i as int);
            }
            if !contains_str(&self.visited, link) {
                self.visited.push(link.clone());
                self.queue.push((link.clone(), depth + 1));
                proof {
                    lemma_views_push(vprev, self.visited@.last());
                    assert(self.visited@.drop_last() =~= vprev);
                    assert(views_of(self.visited@) =~= views_of(vprev).insert(lv));
                    assert forall|a: int, b: int|
                        0 <= a < b < self.visited@.len() implies (#[trigger] self.visited@[a])@
                        != (#[trigger] self.visited@[b])@ by {
                        if b < vprev.len() {
                            assert(vprev[a]@ != vprev[b]@);
                        } else {
                            assert(views_of(vprev).contains(vprev[a]@));
                        }
                    }
                    assert(!views_of(vis0).contains(lv));
                }
            } else {
                proof {
                    assert(views_of(self.visited@).contains(lv));
                }
            }
            proof {
                assert(views_of(vis0).union(views_of(links@.subrange(0, i + 1))) =~= views_of(
                    vis0,
                ).union(views_of(links@.subrange(0, i as int))).insert(lv));
                assert(views_of(self.visited@) =~= views_of(vis0).union(
                    views_of(links@.subrange(0, i + 1)),
                ));
            }
            i = i + 1;
        }
        proof {
            assert(links@.subrange(0, links@.len() as int) =~= links@);
        }
    }
}

/// Pushing one string onto a sequence adds exactly its view to the view set.
proof fn lemma_views_push(v: Seq<String>, x: String)
    ensures
        views_of(v.push(x)) =~= views_of(v).insert(x@),
{
    let a = views_of(v.push(x));
    let b = views_of(v).insert(x@);
    assert forall|s: Seq<char>| a.contains(s) implies b.contains(s) by {
        let j = choose|j: int| 0 <= j < v.push(x).len() && (#[trigger] v.push(x)[j])@ == s;
        if j < v.len() {
            assert(v[j]@ == s);
        }
    }
    assert forall|s: Seq<char>| b.contains(s) implies a.contains(s) by {
        if s == x@ {
            assert(v.push(x)[v.len() as int]@ == s);
        } else {
            let j = choose|j: int| 0 <= j < v.len() && (#[trigger] v[j])@ == s;
            assert(v.push(x)[j]@ == s);
        }
    }
}

/// Growing the scanned prefix of the link list by one grows its view set by
/// that link's view.
proof fn lemma_views_take_step(links: Seq<String>, i: int)
    requires
        0 <= i < links.len(),
    ensures
        views_of(links.subrange(0, i + 1)) =~= views_of(links.subrange(0, i)).insert(links[i]@),
{
    let a = views_of(links.subrange(0, i + 1));
    let b = views_of(links.subrange(0, i)).insert(links[i]@);
    assert forall|s: Seq<char>| a.contains(s) implies b.contains(s) by {
        let j = choose|j: int|
            0 <= j < links.subrange(0, i + 1).len() && (#[trigger] links.subrange(0, i + 1)[j])@
                == s;
        if j < i {
            assert(links.subrange(0, i)[j]@ == s);
        }
    }
    assert forall|s: Seq<char>| b.contains(s) implies a.contains(s) by {
        if s == links[i]@ {
            assert(links.subrange(0, i + 1)[i]@ == s);
        } else {
            let j = choose|j: int|
                0 <= j < links.subrange(0, i).len() && (#[trigger] links.subrange(0, i)[j])@ == s;
            assert(links.subrange(0, i + 1)[j]@ == s);
        }
    }
}

fn bump_u64_w(x: u64) -> (r: u64)
    ensures
        r == bump64(x),
{
    if x < u64::MAX {
        x + 1
    } else {
        x
    }
}

} // verus!
