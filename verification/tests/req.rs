use mariadb_kb_crawler::req::retries_after;
use mariadb_kb_crawler::req::{file_extension_of, kb_urls_from_csv, kb_urls_from_records, scrape_result, KbUrlsError, ScrapeError};

#[test]
fn content_type_subtypes() {
    assert_eq!(file_extension_of("text/html; charset=utf-8"), Some("html"));
    assert_eq!(file_extension_of("image/png"), Some("png"));
    assert_eq!(file_extension_of("text"), None);
    assert_eq!(file_extension_of("a/b/c;x/y"), Some("b/c"));
}

#[test]
fn scrape_results() {
    let r = scrape_result("https://mariadb.com/kb/en/select/", Some("text/html; charset=utf-8"), vec![1, 2]).unwrap();
    assert_eq!(r.directed_url, "https://mariadb.com/kb/en/select");
    assert_eq!(r.file_extension.as_deref(), Some("html"));
    assert_eq!(r.content, vec![1, 2]);
    let r = scrape_result("https://mariadb.com/kb/en/select", None, vec![]).unwrap();
    assert_eq!(r.file_extension, None);
    assert_eq!(scrape_result("https://example.com/", None, vec![]).unwrap_err(), ScrapeError::InvalidRedirect);
    assert_eq!(
        scrape_result("https://mariadb.com/kb/en/remove/", None, vec![]).unwrap_err(),
        ScrapeError::InvalidRedirect
    );
}

#[test]
fn kb_urls_from_csv_text() {
    assert_eq!(
        kb_urls_from_csv("URL,Title\n/kb/en/select/,Select\n\"en/insert#x\",Insert\n").unwrap(),
        vec!["https://mariadb.com/kb/en/select".to_string(), "https://mariadb.com/kb/en/insert".to_string()]
    );
    assert_eq!(kb_urls_from_csv("URL,B\nx\n"), Err(KbUrlsError::Csv));
    assert_eq!(kb_urls_from_csv("URL\n").unwrap(), Vec::<String>::new());
}

#[test]
fn kb_urls_from_read_records() {
    let rows = vec![vec!["en/a/".to_string(), "x".to_string()], vec!["/kb/en/b?q".to_string()]];
    assert_eq!(
        kb_urls_from_records(rows.clone(), false).unwrap(),
        vec!["https://mariadb.com/kb/en/a".to_string(), "https://mariadb.com/kb/en/b".to_string()]
    );
    assert_eq!(kb_urls_from_records(rows, true), Err(KbUrlsError::Csv));
    assert_eq!(kb_urls_from_records(vec![vec![], vec!["a".to_string()]], true), Err(KbUrlsError::EmptyRecord));
}

#[test]
fn only_failed_connections_are_retried() {
    assert!(retries_after(true, false));
    assert!(retries_after(false, true));
    assert!(!retries_after(false, false));
}
