use site_crawler::crawler::CrawlError;
use site_crawler::storage::FileStorage;

#[test]
fn file_name_flattens_the_path() {
    let s = FileStorage::new("results");
    assert_eq!(s.base_dir, "results");
    assert_eq!(s.file_name("https://a.example/docs/intro").ok().unwrap(), "a.example__docs_intro.txt");
    assert_eq!(s.file_name("https://a.example/").ok().unwrap(), "a.example__.txt");
}

#[test]
fn file_name_without_host_is_unknown() {
    let s = FileStorage::new("out");
    assert_eq!(s.file_name("mailto:x@y.com").ok().unwrap(), "unknown_x@y.com.txt");
}

#[test]
fn file_name_needs_a_url() {
    let s = FileStorage::new("out");
    assert!(matches!(s.file_name("no url"), Err(CrawlError::UrlParse)));
}
