use crate::analyzer::value_at;
use crate::html::{
    elements_view, opt_str_view, select_elements, selector_matches, strings_view, ElementParts,
    MatchedElement,
};
use crate::page::Page;
use crate::text::str_eq;
use crate::web_url::{domain_of, href_of, join_url, joined_url, parse_url, parsed_url, UrlParts, WebUrl};
use std::collections::VecDeque;
use vstd::prelude::*;

verus! {

/// Why a crawl step could not go on.
#[derive(Debug, PartialEq, Eq, Structural)]
pub enum CrawlError {
    /// The seed URL does not parse: the crawl cannot start.
    ScopeParse,
    /// A page's own URL does not parse, so its links cannot be resolved.
    UrlParse,
}

/// `s` is among the strings of `v`.
pub fn contains_str(v: &Vec<String>, s: &str) -> (r: bool)
    ensures
        r == strings_view(v@).contains(s@),
{
    let mut i: usize = 0;
    while i < v.len()
        invariant
            i <= v@.len(),
            forall|j: int| 0 <= j < i ==> v@[j]@ != s@,
        decreases v@.len() - i,
    {
        if str_eq(v[i].as_str(), s) {
            assert(strings_view(v@)[i as int] == s@);
            return true;
        }
        i = i + 1;
    }
    assert(!strings_view(v@).contains(s@)) by {
        assert forall|j: int| 0 <= j < strings_view(v@).len() implies strings_view(v@)[j] != s@ by {
            assert(v@[j]@ != s@);
        }
    }
    false
}

/// `s` is among the strings of the queue `q`.
pub fn queue_contains(q: &VecDeque<String>, s: &str) -> (r: bool)
    ensures
        r == strings_view(q@).contains(s@),
{
    let mut i: usize = 0;
    while i < q.len()
        invariant
            i <= q@.len(),
            forall|j: int| 0 <= j < i ==> q@[j]@ != s@,
        decreases q@.len() - i,
    {
        if str_eq(q[i].as_str(), s) {
            assert(strings_view(q@)[i as int] == s@);
            return true;
        }
        i = i + 1;
    }
    assert(!strings_view(q@).contains(s@)) by {
        assert forall|j: int| 0 <= j < strings_view(q@).len() implies strings_view(q@)[j] != s@ by {
            assert(q@[j]@ != s@);
        }
    }
    false
}

/// The crawl frontier: the URLs already fetched, the queue of URLs still to
/// fetch, the domain that scopes the crawl, and the dequeue counter that the
/// depth bound limits.
pub struct Crawler {
    pub visited_urls: Vec<String>,
    pub pending_urls: VecDeque<String>,
    pub base_domain: String,
    pub max_depth: usize,
    pub current_depth: usize,
    /// The per-fetch timeout, in milliseconds, for whoever fetches.
    pub timeout_ms: u64,
}

/// The domain that scopes a crawl from a seed: the seed's domain, or empty
/// where it has none.
pub open spec fn scope_domain(seed: UrlParts) -> Seq<char> {
    match domain_of(seed) {
        Some(d) => d,
        None => seq![],
    }
}

impl Crawler {
    /// The visited URLs hold no duplicate.
    pub open spec fn wf(&self) -> bool {
        strings_view(self.visited_urls@).no_duplicates()
    }

    /// A crawler whose queue holds the seed alone; an error where the seed
    /// does not parse.
    pub fn new(start_url: &str, max_depth: usize, timeout_ms: u64) -> (r: Result<Crawler, CrawlError>)
        ensures
            r is Err <==> parsed_url(start_url@).is_none(),
            r matches Err(e) ==> e == CrawlError::ScopeParse,
            r matches Ok(c) ==> {
                &&& c.wf()
                &&& c.visited_urls@.len() == 0
                &&& strings_view(c.pending_urls@) == seq![start_url@]
                &&& c.base_domain@ == scope_domain(parsed_url(start_url@).unwrap())
                &&& c.max_depth == max_depth
                &&& c.current_depth == 0
                &&& c.timeout_ms == timeout_ms
            },
    {
        let base = match parse_url(start_url) {
            Ok(u) => u,
            Err(_) => {
                return Err(CrawlError::ScopeParse);
            },
        };
        let domain = match base.domain {
            Some(d) => d,
            None => String::new(),
        };
        let mut pending: VecDeque<String> = VecDeque::new();
        pending.push_back(start_url.to_owned());
        assert(strings_view(pending@) =~= seq![start_url@]);
        let visited: Vec<String> = Vec::new();
        assert(strings_view(visited@) =~= seq![]);
        Ok(Crawler {
            visited_urls: visited,
            pending_urls: pending,
            base_domain: domain,
            max_depth,
            current_depth: 0,
            timeout_ms,
        })
    }

    /// A URL belongs to the crawl where its domain equals the crawl's domain,
    /// by exact string equality.
    pub fn belongs(&self, candidate: &WebUrl) -> (r: bool)
        ensures
            r == (domain_of(candidate@) == Some(self.base_domain@)),
    {
        match &candidate.domain {
            Some(d) => str_eq(d.as_str(), self.base_domain.as_str()),
            None => false,
        }
    }
}

/// Where a matched anchor points: its `href` as an absolute URL, or else
/// resolved against the page's own URL.
pub open spec fn link_target(e: ElementParts, base: Seq<char>) -> Option<UrlParts> {
    match value_at(e.0, 0) {
        Some(h) => match parsed_url(h) {
            Some(u) => Some(u),
            None => joined_url(base, h),
        },
        None => None,
    }
}

/// The in-scope targets of the first `n` anchors, in document order.
pub open spec fn scoped_targets(ms: Seq<ElementParts>, base: Seq<char>, domain: Seq<char>, n: int) -> Seq<
    UrlParts,
>
    decreases n,
{
    if n <= 0 {
        seq![]
    } else {
        scoped_targets(ms, base, domain, n - 1) + match link_target(ms[n - 1], base) {
            Some(u) => if domain_of(u) == Some(domain) {
                seq![u]
            } else {
                seq![]
            },
            None => seq![],
        }
    }
}

/// The anchors of a document that carry an `href`.
pub open spec fn anchors(content: Seq<char>) -> Option<Seq<ElementParts>> {
    selector_matches(content, "a[href]"@, seq!["href"@])
}

/// The in-scope link targets of a page, in document order, duplicates kept.
pub open spec fn page_targets(content: Seq<char>, base: Seq<char>, domain: Seq<char>) -> Seq<UrlParts> {
    match anchors(content) {
        Some(ms) => scoped_targets(ms, base, domain, ms.len() as int),
        None => seq![],
    }
}

/// The links of a page: its in-scope targets in serialized form.
pub open spec fn page_links(content: Seq<char>, base: Seq<char>, domain: Seq<char>) -> Seq<Seq<char>> {
    page_targets(content, base, domain).map_values(|u: UrlParts| href_of(u))
}

impl Crawler {
    /// Resolves one anchor to an absolute URL, where it can be.
    fn resolve_anchor(e: &MatchedElement, base_url: &str) -> (r: Option<WebUrl>)
        ensures
            match r {
                Some(u) => link_target(e@, base_url@) == Some(u@),
                None => link_target(e@, base_url@).is_none(),
            },
    {
        if e.attrs.len() == 0 {
            return None;
        }
        match &e.attrs[0] {
            Some(h) => match parse_url(h.as_str()) {
                Ok(u) => Some(u),
                Err(_) => match join_url(base_url, h.as_str()) {
                    Ok(u) => Some(u),
                    Err(_) => None,
                },
            },
            None => None,
        }
    }

    /// The links on a page, resolved against the page's own URL and kept
    /// only where they belong to the crawl, in document order. An error
    /// where the page's URL does not parse.
    pub fn extract_links(&self, content: &str, base_url: &str) -> (r: Result<Vec<String>, CrawlError>)
        ensures
            r is Err <==> parsed_url(base_url@).is_none(),
            r matches Err(e) ==> e == CrawlError::UrlParse,
            r matches Ok(v) ==> strings_view(v@) == page_links(content@, base_url@, self.base_domain@),
    {
        match parse_url(base_url) {
            Ok(_) => {},
            Err(_) => {
                return Err(CrawlError::UrlParse);
            },
        }
        let names = vec!["href".to_owned()];
        assert(strings_view(names@) =~= seq!["href"@]);
        let mut links: Vec<String> = Vec::new();
        let ghost domain = self.base_domain@;
        match select_elements(content, "a[href]", &names) {
            Some(ms) => {
                let ghost mv = elements_view(ms@);
                let mut i: usize = 0;
                while i < ms.len()
                    invariant
                        mv == elements_view(ms@),
                        domain == self.base_domain@,
                        i <= ms@.len(),
                        strings_view(links@) == scoped_targets(mv, base_url@, domain, i as int).map_values(
                            |u: UrlParts| href_of(u),
                        ),
                    decreases ms@.len() - i,
                {
                    let ghost before = scoped_targets(mv, base_url@, domain, i as int);
                    assert(mv[i as int] == ms@[i as int]@);
                    match Self::resolve_anchor(&ms[i], base_url) {
                        Some(u) => {
                            if self.belongs(&u) {
                                let ghost uv = u@;
                                let ghost old_links = strings_view(links@);
                                links.push(u.href);
                                assert(scoped_targets(mv, base_url@, domain, i + 1) == before.push(uv));
                                assert(strings_view(links@) =~= old_links.push(href_of(uv)));
                                assert(before.push(uv).map_values(|u: UrlParts| href_of(u)) =~= before.map_values(
                                    |u: UrlParts| href_of(u),
                                ).push(href_of(uv)));
                            } else {
                                assert(scoped_targets(mv, base_url@, domain, i + 1) =~= before);
                            }
                        },
                        None => {
                            assert(scoped_targets(mv, base_url@, domain, i + 1) =~= before);
                        },
                    }
                    assert(strings_view(links@) =~= scoped_targets(mv, base_url@, domain, i + 1).map_values(
                        |u: UrlParts| href_of(u),
                    ));
                    i = i + 1;
                }
            },
            None => {
                assert(strings_view(links@) =~= page_links(content@, base_url@, domain));
            },
        }
        Ok(links)
    }
}

/// The queue after offering the first `n` candidates in order: a candidate is
/// appended unless it was visited or is already queued.
pub open spec fn offer_all(visited: Seq<Seq<char>>, pending: Seq<Seq<char>>, urls: Seq<Seq<char>>, n: int) -> Seq<
    Seq<char>,
>
    decreases n,
{
    if n <= 0 {
        pending
    } else {
        let q = offer_all(visited, pending, urls, n - 1);
        if visited.contains(urls[n - 1]) || q.contains(urls[n - 1]) {
            q
        } else {
            q.push(urls[n - 1])
        }
    }
}

/// One dequeue: the URL handed out (`None` once the queue is empty or the
/// bound is reached), the queue left, and the counter after it. The counter
/// grows by one for each URL taken off the queue below the bound, whether or
/// not it was already visited; a visited URL is passed over.
pub open spec fn dequeue(visited: Seq<Seq<char>>, pending: Seq<Seq<char>>, depth: int, max: int) -> (
    Option<Seq<char>>,
    Seq<Seq<char>>,
    int,
)
    decreases pending.len(),
{
    if pending.len() == 0 {
        (None, pending, depth)
    } else if depth >= max {
        (None, pending.drop_first(), depth)
    } else if visited.contains(pending[0]) {
        dequeue(visited, pending.drop_first(), depth + 1, max)
    } else {
        (Some(pending[0]), pending.drop_first(), depth + 1)
    }
}

impl Crawler {
    /// Offers candidate URLs in order: each one neither visited nor already
    /// queued goes to the back of the queue.
    pub fn queue_new_urls(&mut self, urls: &Vec<String>)
        ensures
            strings_view(final(self).pending_urls@) == offer_all(
                strings_view(old(self).visited_urls@),
                strings_view(old(self).pending_urls@),
                strings_view(urls@),
                urls@.len() as int,
            ),
            final(self).visited_urls == old(self).visited_urls,
            final(self).base_domain == old(self).base_domain,
            final(self).max_depth == old(self).max_depth,
            final(self).current_depth == old(self).current_depth,
            final(self).timeout_ms == old(self).timeout_ms,
    {
        let ghost visited = strings_view(self.visited_urls@);
        let ghost pending = strings_view(self.pending_urls@);
        let ghost uv = strings_view(urls@);
        let mut i: usize = 0;
        while i < urls.len()
            invariant
                visited == strings_view(self.visited_urls@),
                self.visited_urls == old(self).visited_urls,
                self.base_domain == old(self).base_domain,
                self.max_depth == old(self).max_depth,
                self.current_depth == old(self).current_depth,
                self.timeout_ms == old(self).timeout_ms,
                pending == strings_view(old(self).pending_urls@),
                uv == strings_view(urls@),
                i <= urls@.len(),
                strings_view(self.pending_urls@) == offer_all(visited, pending, uv, i as int),
            decreases urls@.len() - i,
        {
            let url = &urls[i];
            assert(uv[i as int] == url@);
            if !contains_str(&self.visited_urls, url.as_str()) && !queue_contains(
                &self.pending_urls,
                url.as_str(),
            ) {
                let ghost q = strings_view(self.pending_urls@);
                self.pending_urls.push_back(url.clone());
                assert(strings_view(self.pending_urls@) =~= q.push(url@));
            }
            i = i + 1;
        }
    }

    /// Takes the next URL to fetch off the queue and marks it visited; `None`
    /// once the queue is empty or the depth bound is reached.
    pub fn next_url(&mut self) -> (r: Option<String>)
        requires
            old(self).wf(),
        ensures
            final(self).wf(),
            opt_str_view(r) == dequeue(
                strings_view(old(self).visited_urls@),
                strings_view(old(self).pending_urls@),
                old(self).current_depth as int,
                old(self).max_depth as int,
            ).0,
            strings_view(final(self).pending_urls@) == dequeue(
                strings_view(old(self).visited_urls@),
                strings_view(old(self).pending_urls@),
                old(self).current_depth as int,
                old(self).max_depth as int,
            ).1,
            final(self).current_depth as int == dequeue(
                strings_view(old(self).visited_urls@),
                strings_view(old(self).pending_urls@),
                old(self).current_depth as int,
                old(self).max_depth as int,
            ).2,
            strings_view(final(self).visited_urls@) == match r {
                Some(u) => strings_view(old(self).visited_urls@).push(u@),
                None => strings_view(old(self).visited_urls@),
            },
            r matches Some(u) ==> strings_view(final(self).visited_urls@).contains(u@),
            final(self).base_domain == old(self).base_domain,
            final(self).max_depth == old(self).max_depth,
            final(self).timeout_ms == old(self).timeout_ms,
    {
        let ghost visited = strings_view(self.visited_urls@);
        let ghost goal = dequeue(
            visited,
            strings_view(self.pending_urls@),
            self.current_depth as int,
            self.max_depth as int,
        );
        loop
            invariant
                goal == dequeue(
                    strings_view(old(self).visited_urls@),
                    strings_view(old(self).pending_urls@),
                    old(self).current_depth as int,
                    old(self).max_depth as int,
                ),
                self.wf(),
                visited == strings_view(self.visited_urls@),
                self.visited_urls == old(self).visited_urls,
                self.base_domain == old(self).base_domain,
                self.max_depth == old(self).max_depth,
                self.timeout_ms == old(self).timeout_ms,
                goal == dequeue(
                    visited,
                    strings_view(self.pending_urls@),
                    self.current_depth as int,
                    self.max_depth as int,
                ),
            decreases self.pending_urls@.len(),
        {
            let ghost q = strings_view(self.pending_urls@);
            let ghost d = self.current_depth as int;
            assert(goal == dequeue(visited, q, d, self.max_depth as int));
            match self.pending_urls.pop_front() {
                None => {
                    assert(q =~= strings_view(self.pending_urls@));
                    assert(goal == (None::<Seq<char>>, q, d));
                    return None;
                },
                Some(url) => {
                    assert(strings_view(self.pending_urls@) =~= q.drop_first());
                    assert(q[0] == url@);
                    if self.current_depth >= self.max_depth {
                        assert(goal == (None::<Seq<char>>, q.drop_first(), d));
                        return None;
                    }
                    self.current_depth = self.current_depth + 1;
                    if !contains_str(&self.visited_urls, url.as_str()) {
                        self.visited_urls.push(url.clone());
                        assert(strings_view(self.visited_urls@) =~= visited.push(url@));
                        assert(strings_view(self.visited_urls@).last() == url@);
                        return Some(url);
                    }
                }
            }
        }
    }

    /// Handles one dequeued URL once its fetch is over. With the fetched
    /// markup, its links are extracted and offered to the queue, and the page
    /// is returned; `None` where the fetch failed (`content` is `None`) or the
    /// URL does not parse, and the queue is then left as it was.
    pub fn process_page(&mut self, url: &str, content: Option<String>) -> (r: Option<Page>)
        ensures
            r is Some <==> (content is Some && parsed_url(url@) is Some),
            r matches Some(p) ==> {
                &&& p.url@ == url@
                &&& p.content@ == content.unwrap()@
                &&& strings_view(p.links@) == page_links(
                    content.unwrap()@,
                    url@,
                    old(self).base_domain@,
                )
                &&& strings_view(final(self).pending_urls@) == offer_all(
                    strings_view(old(self).visited_urls@),
                    strings_view(old(self).pending_urls@),
                    strings_view(p.links@),
                    p.links@.len() as int,
                )
            },
            r is None ==> final(self).pending_urls == old(self).pending_urls,
            final(self).visited_urls == old(self).visited_urls,
            final(self).base_domain == old(self).base_domain,
            final(self).max_depth == old(self).max_depth,
            final(self).current_depth == old(self).current_depth,
            final(self).timeout_ms == old(self).timeout_ms,
    {
        match content {
            Some(body) => match self.extract_links(body.as_str(), url) {
                Ok(links) => {
                    self.queue_new_urls(&links);
                    Some(Page::new(url.to_owned(), body, links))
                },
                Err(_) => None,
            },
            None => None,
        }
    }
}

proof fn lemma_scoped_targets_on_domain(ms: Seq<ElementParts>, base: Seq<char>, domain: Seq<char>, n: int)
    ensures
        forall|i: int|
            0 <= i < scoped_targets(ms, base, domain, n).len() ==> domain_of(
                #[trigger] scoped_targets(ms, base, domain, n)[i],
            ) == Some(domain),
    decreases n,
{
    if n > 0 {
        lemma_scoped_targets_on_domain(ms, base, domain, n - 1);
        let prev = scoped_targets(ms, base, domain, n - 1);
        let cur = scoped_targets(ms, base, domain, n);
        assert forall|i: int| 0 <= i < cur.len() implies domain_of(#[trigger] cur[i]) == Some(domain) by {
            if i < prev.len() {
                assert(cur[i] == prev[i]);
            }
        }
    }
}

proof fn lemma_offer_all_from(visited: Seq<Seq<char>>, pending: Seq<Seq<char>>, urls: Seq<Seq<char>>, n: int)
    requires
        n <= urls.len(),
    ensures
        forall|u: Seq<char>|
            #[trigger] offer_all(visited, pending, urls, n).contains(u) ==> pending.contains(u)
                || urls.contains(u),
    decreases n,
{
    if n > 0 {
        lemma_offer_all_from(visited, pending, urls, n - 1);
        let q = offer_all(visited, pending, urls, n - 1);
        assert forall|u: Seq<char>| #[trigger]
            offer_all(visited, pending, urls, n).contains(u) implies pending.contains(u)
            || urls.contains(u) by {
            if !q.contains(u) {
                let qq = q.push(urls[n - 1]);
                let k = choose|k: int| 0 <= k < qq.len() && #[trigger] qq[k] == u;
                assert(k == q.len());
                assert(urls[n - 1] == u);
            }
        }
    }
}

/// The frontier stays in scope: offering a page's links adds to the queue
/// only URLs that are among those links, and each link is the serialized
/// form of a target on the crawl's domain.
pub proof fn lemma_offered_links_in_scope(
    visited: Seq<Seq<char>>,
    pending: Seq<Seq<char>>,
    content: Seq<char>,
    base: Seq<char>,
    domain: Seq<char>,
)
    ensures
        ({
            let links = page_links(content, base, domain);
            forall|u: Seq<char>|
                #[trigger] offer_all(visited, pending, links, links.len() as int).contains(u)
                    ==> pending.contains(u) || links.contains(u)
        }),
        forall|i: int|
            0 <= i < page_targets(content, base, domain).len() ==> {
                &&& domain_of(#[trigger] page_targets(content, base, domain)[i]) == Some(domain)
                &&& page_links(content, base, domain)[i] == href_of(page_targets(content, base, domain)[i])
            },
        page_links(content, base, domain).len() == page_targets(content, base, domain).len(),
{
    let links = page_links(content, base, domain);
    lemma_offer_all_from(visited, pending, links, links.len() as int);
    match anchors(content) {
        Some(ms) => lemma_scoped_targets_on_domain(ms, base, domain, ms.len() as int),
        None => {},
    }
}

} // verus!
