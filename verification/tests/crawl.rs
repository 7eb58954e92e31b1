use mariadb_kb_crawler::paths::url_to_path;
use mariadb_kb_crawler::redirect::redirected_path;
use std::collections::HashMap;
use mariadb_kb_crawler::crawler::{plan_archive_writes, CrawlLog, CrawlStep, StandardCrawler};
use mariadb_kb_crawler::recent_crawler::RecentCrawler;

#[test]
fn log_skips_completed_urls() {
    let mut log = CrawlLog::new();
    assert!(matches!(log.step(None), CrawlStep::Finish));
    assert!(matches!(log.step(Some("a".to_string())), CrawlStep::Visit(u) if u == "a"));
    log.complete("a".to_string());
    assert!(matches!(log.step(Some("a".to_string())), CrawlStep::Skip));
    assert!(matches!(log.step(Some("b".to_string())), CrawlStep::Visit(_)));
}

#[test]
fn standard_crawler_is_first_in_first_out() {
    let mut c = StandardCrawler::new(true, "root".to_string(), vec!["a".to_string(), "b".to_string()]);
    assert!(c.resume());
    assert_eq!(c.root(), "root");
    assert_eq!(c.next_url().as_deref(), Some("a"));
    assert!(c.take_links(br#"<a href="/kb/en/x/">x</a> <a href="/kb/en/y.png">"#));
    assert!(c.take_links(&[0xff, 0xfe]));
    assert_eq!(c.next_url().as_deref(), Some("b"));
    assert_eq!(c.next_url().as_deref(), Some("https://mariadb.com/kb/en/x"));
    assert_eq!(c.next_url(), None);
}

#[test]
fn recent_crawler_is_last_in_first_out() {
    let mut c = RecentCrawler::new("root".to_string(), vec!["a".to_string(), "b".to_string()]);
    assert_eq!(c.root(), "root");
    assert_eq!(c.next_url().as_deref(), Some("b"));
    assert_eq!(c.next_url().as_deref(), Some("a"));
    assert_eq!(c.next_url(), None);
}

#[test]
fn archive_writes() {
    let w = plan_archive_writes("root", "https://mariadb.com/kb/en/a", "https://mariadb.com/kb/en/b");
    let (p, t) = w.redirect.unwrap();
    assert_eq!(p, "root/en/a/index.html");
    assert_eq!(t, "Redirect https://mariadb.com/kb/en/b");
    assert_eq!(w.content_path, "root/en/b/index.html");
    let w = plan_archive_writes("root", "https://mariadb.com/kb/en/a", "https://mariadb.com/kb/en/a");
    assert!(w.redirect.is_none());
    assert_eq!(w.content_path, "root/en/a/index.html");
}

#[test]
fn fetched_page_reads_back_from_the_archive() {
    let content = b"<html>page</html>".to_vec();
    for (url, directed) in [
        ("https://mariadb.com/kb/en/a", "https://mariadb.com/kb/en/b"),
        ("https://mariadb.com/kb/en/a", "https://mariadb.com/kb/en/a"),
        ("https://mariadb.com/kb/en/a/", "https://mariadb.com/kb/en/a"),
    ] {
        let mut files: HashMap<String, Vec<u8>> = HashMap::new();
        let w = plan_archive_writes("root", url, directed);
        if let Some((p, t)) = &w.redirect {
            files.insert(p.clone(), t.as_bytes().to_vec());
        }
        files.insert(w.content_path.clone(), content.clone());
        let first = &files[&url_to_path("root", url)];
        let read = match redirected_path("root", first) {
            Some(target) => files[&target].clone(),
            None => first.clone(),
        };
        assert_eq!(read, content, "{url} {directed}");
    }
}
