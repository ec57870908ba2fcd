use site_crawler::crawler::{CrawlError, Crawler};
use site_crawler::page::Page;

fn strings(v: &[&str]) -> Vec<String> {
    v.iter().map(|s| s.to_string()).collect()
}

/// Runs the crawl over a fixed page graph: `None` stands for a fetch that failed.
fn crawl(crawler: &mut Crawler, fetch: &dyn Fn(&str) -> Option<String>) -> Vec<Page> {
    let mut pages = Vec::new();
    while let Some(url) = crawler.next_url() {
        if let Some(page) = crawler.process_page(&url, fetch(&url)) {
            pages.push(page);
        }
    }
    pages
}

#[test]
fn seed_that_does_not_parse_is_refused() {
    assert!(matches!(Crawler::new("not a url", 5, 1000), Err(CrawlError::ScopeParse)));
}

#[test]
fn new_crawler_queues_the_seed() {
    let c = Crawler::new("https://a.example/", 3, 1000).ok().unwrap();
    assert_eq!(c.base_domain, "a.example");
    assert_eq!(c.pending_urls.iter().cloned().collect::<Vec<_>>(), strings(&["https://a.example/"]));
    assert!(c.visited_urls.is_empty());
    assert_eq!(c.max_depth, 3);
    assert_eq!(c.timeout_ms, 1000);
}

#[test]
fn links_are_resolved_and_scoped() {
    let c = Crawler::new("https://a.example/", 3, 1000).ok().unwrap();
    let html = "<a href=\"/one\">1</a><a href=\"https://b.example/x\">b</a>\
                <a href=\"two\">2</a><a>none</a><a href=\"https://a.example/one\">again</a>";
    let links = c.extract_links(html, "https://a.example/dir/page").ok().unwrap();
    assert_eq!(
        links,
        strings(&["https://a.example/one", "https://a.example/dir/two", "https://a.example/one"])
    );
}

#[test]
fn links_need_a_base_that_parses() {
    let c = Crawler::new("https://a.example/", 3, 1000).ok().unwrap();
    assert!(matches!(c.extract_links("<a href=\"/x\">x</a>", "relative/base"), Err(CrawlError::UrlParse)));
}

#[test]
fn offering_skips_visited_and_queued() {
    let mut c = Crawler::new("https://a.example/", 10, 1000).ok().unwrap();
    assert_eq!(c.next_url(), Some("https://a.example/".to_string()));
    c.queue_new_urls(&strings(&[
        "https://a.example/",
        "https://a.example/p",
        "https://a.example/p",
        "https://a.example/q",
    ]));
    assert_eq!(
        c.pending_urls.iter().cloned().collect::<Vec<_>>(),
        strings(&["https://a.example/p", "https://a.example/q"])
    );
}

#[test]
fn depth_bounds_the_number_of_dequeues() {
    let mut c = Crawler::new("https://a.example/", 2, 1000).ok().unwrap();
    c.queue_new_urls(&strings(&["https://a.example/1", "https://a.example/2", "https://a.example/3"]));
    assert_eq!(c.next_url(), Some("https://a.example/".to_string()));
    assert_eq!(c.next_url(), Some("https://a.example/1".to_string()));
    assert_eq!(c.next_url(), None);
    assert_eq!(c.current_depth, 2);
}

#[test]
fn zero_depth_visits_nothing() {
    let mut c = Crawler::new("https://a.example/", 0, 1000).ok().unwrap();
    assert_eq!(c.next_url(), None);
    assert!(c.visited_urls.is_empty());
}

#[test]
fn crawl_stays_on_the_seed_domain() {
    let mut c = Crawler::new("https://a.example/", 3, 1000).ok().unwrap();
    let fetch = |url: &str| -> Option<String> {
        match url {
            "https://a.example/" => Some(
                "<a href=\"/p1\">1</a><a href=\"https://a.example/p2\">2</a>\
                 <a href=\"https://c.example/\">c</a>"
                    .to_string(),
            ),
            "https://a.example/p1" => Some("<a href=\"/\">home</a>".to_string()),
            "https://a.example/p2" => Some("<p>leaf</p>".to_string()),
            _ => Some(String::new()),
        }
    };
    let pages = crawl(&mut c, &fetch);
    let urls: Vec<String> = pages.iter().map(|p| p.url.clone()).collect();
    assert_eq!(urls, strings(&["https://a.example/", "https://a.example/p1", "https://a.example/p2"]));
    assert_eq!(
        c.visited_urls,
        strings(&["https://a.example/", "https://a.example/p1", "https://a.example/p2"])
    );
    assert!(!c.visited_urls.iter().any(|u| u.contains("c.example")));
}

#[test]
fn failed_fetch_does_not_stop_the_crawl() {
    let mut c = Crawler::new("https://a.example/", 5, 1000).ok().unwrap();
    let fetch = |url: &str| -> Option<String> {
        match url {
            "https://a.example/" => Some("<a href=\"/slow\">s</a><a href=\"/next\">n</a>".to_string()),
            "https://a.example/slow" => None,
            "https://a.example/next" => Some("<a href=\"/slow\">again</a>".to_string()),
            _ => Some(String::new()),
        }
    };
    let pages = crawl(&mut c, &fetch);
    let urls: Vec<String> = pages.iter().map(|p| p.url.clone()).collect();
    assert_eq!(urls, strings(&["https://a.example/", "https://a.example/next"]));
    assert_eq!(
        c.visited_urls,
        strings(&["https://a.example/", "https://a.example/slow", "https://a.example/next"])
    );
}

#[test]
fn visited_urls_hold_no_duplicates() {
    let mut c = Crawler::new("https://a.example/", 10, 1000).ok().unwrap();
    c.queue_new_urls(&strings(&["https://a.example/x"]));
    c.pending_urls.push_back("https://a.example/x".to_string());
    let mut seen = Vec::new();
    while let Some(u) = c.next_url() {
        assert!(c.visited_urls.contains(&u));
        seen.push(u);
    }
    assert_eq!(seen, strings(&["https://a.example/", "https://a.example/x"]));
    assert_eq!(c.visited_urls, seen);
    assert_eq!(c.current_depth, 3);
}

#[test]
fn page_with_unparsable_url_is_dropped() {
    let mut c = Crawler::new("https://a.example/", 5, 1000).ok().unwrap();
    assert!(c.process_page("::bad::", Some("<a href=\"/x\">x</a>".to_string())).is_none());
    assert_eq!(c.pending_urls.len(), 1);
}
