use cyberkit::web::{check_for_params, extract_links, CrawlState};

#[test]
fn test_url_with_params() {
    let url = "http://site.com/index.php?id=1&admin=false";
    assert_eq!(check_for_params(url), true);
}

#[test]
fn test_url_clean() {
    let url = "http://site.com/about";
    assert_eq!(check_for_params(url), false);
}

#[test]
fn links_are_resolved_filtered_and_deduplicated() {
    let body = "<html><body>\
        <a href=\"/about\">about</a>\
        <a href=\"/about#team\">team</a>\
        <a href=\"http://other.com/x\">other</a>\
        <a href=\"contact.html\">contact</a>\
        </body></html>";
    let links = extract_links("http://site.com/index.html", body);
    assert_eq!(
        links,
        vec![
            "http://site.com/about".to_string(),
            "http://site.com/contact.html".to_string(),
        ]
    );
}

#[test]
fn unparsable_base_yields_nothing() {
    let links = extract_links("not a url", "<a href=\"/about\">x</a>");
    assert!(links.is_empty());
}

#[test]
fn crawl_visits_each_page_once() {
    let mut crawl = CrawlState::new("http://site.com/".to_string());
    let (url, depth) = crawl.next_target().unwrap();
    assert_eq!(url, "http://site.com/");
    assert_eq!(depth, 0);
    crawl.record_page(
        depth,
        2,
        vec![
            "http://site.com/a".to_string(),
            "http://site.com/".to_string(), // already visited: not queued again
            "http://site.com/b".to_string(),
        ],
        false,
    );
    assert_eq!(crawl.pages_crawled, 1);
    assert_eq!(crawl.vulnerable_params, 0);
    let (a, d1) = crawl.next_target().unwrap();
    assert_eq!((a.as_str(), d1), ("http://site.com/a", 1));
    let (b, d2) = crawl.next_target().unwrap();
    assert_eq!((b.as_str(), d2), ("http://site.com/b", 1));
    assert!(crawl.next_target().is_none());
}

#[test]
fn crawl_respects_the_depth_bound() {
    let mut crawl = CrawlState::new("http://site.com/".to_string());
    let (_, depth) = crawl.next_target().unwrap();
    crawl.record_page(
        depth + 2,
        2,
        vec!["http://site.com/deep".to_string()],
        true,
    );
    assert_eq!(crawl.pages_crawled, 1);
    assert_eq!(crawl.vulnerable_params, 1);
    assert!(crawl.next_target().is_none());
}
