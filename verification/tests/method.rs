use mariadb_kb_crawler::method::{parse_scrape_method, scrape_method_named, ScrapeMethod};

#[test]
fn method_names() {
    assert_eq!(parse_scrape_method("Recent"), Some(ScrapeMethod::RecentChanges));
    assert_eq!(parse_scrape_method(""), Some(ScrapeMethod::Standard));
    assert_eq!(parse_scrape_method("STANDARD"), Some(ScrapeMethod::Standard));
    assert_eq!(parse_scrape_method("PDF_LANGS"), Some(ScrapeMethod::PdfLangs));
    assert_eq!(parse_scrape_method("pdf"), Some(ScrapeMethod::Pdf));
    assert_eq!(parse_scrape_method("foo"), None);
    assert_eq!(scrape_method_named("RECENT"), None);
}

#[test]
fn complete_scrapes() {
    assert!(ScrapeMethod::Standard.is_complete_scrape());
    assert!(ScrapeMethod::RecentChanges.is_complete_scrape());
    assert!(!ScrapeMethod::Pdf.is_complete_scrape());
    assert!(!ScrapeMethod::PdfLangs.is_complete_scrape());
    assert_eq!(ScrapeMethod::default(), ScrapeMethod::Standard);
}
