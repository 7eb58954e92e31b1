use mariadb_kb_crawler::scrape::{filter_urls, format_url, scrape_raw_urls, scrape_urls, trim_url, valid_url};

fn kb(suffix: &str) -> String {
    format!("https://mariadb.com/kb/{suffix}")
}

#[test]
fn test_trim() {
    assert_eq!(trim_url(&kb("en")), "en");
    assert_eq!(trim_url(&kb("en/")), "en");
    assert_eq!(trim_url(&kb("en/select")), "en/select");
}

#[test]
fn test_valid() {
    let urls = ["en/select", "en", ""];
    for url in urls.map(format_url) {
        assert!(valid_url(&url), "{url}");
    }
}

#[test]
fn test_invalid() {
    let full_urls = ["mariadb.com/kb/en/select", "https://test/kb/en/select"]
        .into_iter()
        .map(str::to_owned);
    let url_suffixes = ["en/remove/", "en/remove/meh"].into_iter().map(format_url);
    for url in full_urls.chain(url_suffixes) {
        assert!(!valid_url(&url), "{url}");
    }
}

#[test]
fn trim_url_strips_scheme_host_and_slashes() {
    assert_eq!(trim_url("https:///mariadb.com//kb//en/a//"), "en/a");
    assert_eq!(trim_url("https://https://x"), "x");
    assert_eq!(trim_url("///"), "");
    assert_eq!(trim_url("kbkben"), "en");
}

#[test]
fn format_url_cuts_fragment_then_query() {
    assert_eq!(format_url("en/select/#top"), "https://mariadb.com/kb/en/select");
    assert_eq!(format_url("/kb/en/select?x=1#y"), "https://mariadb.com/kb/en/select");
    assert_eq!(format_url("en?a#b"), "https://mariadb.com/kb/en");
    assert_eq!(format_url(""), "https://mariadb.com/kb/");
}

#[test]
fn valid_url_rejects_dots_and_ignored_tails() {
    assert!(!valid_url("https://mariadb.com/kb/en/style.css"));
    assert!(!valid_url("https://mariadb.com/kb/en/+history"));
    assert!(!valid_url("https://mariadb.com/kb/en/post/x"));
    assert!(valid_url("https://mariadb.com/kb/en/posts"));
    assert!(valid_url("https://mariadb.com/kb"));
}

#[test]
fn filter_urls_keeps_order_and_drops_invalid() {
    let urls = vec![
        "en/b#x".to_string(),
        "en/a.png".to_string(),
        "/kb/en/a/".to_string(),
        "en/add/".to_string(),
    ];
    assert_eq!(
        filter_urls(urls),
        vec!["https://mariadb.com/kb/en/b".to_string(), "https://mariadb.com/kb/en/a".to_string()]
    );
}

#[test]
fn scrape_urls_reads_links_from_html() {
    let html = r#"<a href="/kb/en/select/">x</a> <a href="https://mariadb.com/kb/en/insert#top">y</a>
        <img src="/kb/static/logo.png"> <a href="kb/en/remove/">z</a> <a href="https://other.org/kb/en/x">w</a>"#;
    assert_eq!(
        scrape_raw_urls(html).unwrap(),
        vec!["en/select/", "en/insert#top", "static/logo.png", "en/remove/"]
    );
    assert_eq!(
        scrape_urls(html).unwrap(),
        vec!["https://mariadb.com/kb/en/select".to_string(), "https://mariadb.com/kb/en/insert".to_string()]
    );
}

#[test]
fn format_url_is_idempotent_on_examples() {
    for raw in ["en/select/#top", "/kb/en/a?b#c", "https://mariadb.com/kb/en/x/", "", "kb/kb/y"] {
        let once = format_url(raw);
        assert_eq!(format_url(&once), once, "{raw}");
    }
}

#[test]
fn filtered_urls_are_valid_and_canonical() {
    let urls = vec!["en/a/#x".to_string(), "en/b.css".to_string(), "/kb/en/c?d".to_string()];
    for url in filter_urls(urls) {
        assert!(valid_url(&url), "{url}");
        assert_eq!(format_url(&url), url);
    }
}

#[test]
fn trim_url_of_any_tail_behind_the_address() {
    for p in ["https://mariadb.com/kb/", "mariadb.com/kb/", "/kb/", "kb/"] {
        for s in ["en/select/", "//x//", "", "kb/kb", "https://y", "/"] {
            let trimmed = trim_url(&format!("{p}{s}")).to_string();
            assert_eq!(trimmed, s.trim_matches('/'), "{p}{s}");
            assert!(!trimmed.starts_with('/') && !trimmed.ends_with('/'));
        }
    }
}
