use mariadb_kb_crawler::last_updated::last_updated_text;
use mariadb_kb_crawler::dates::KbDate;
use mariadb_kb_crawler::last_updated::{last_updated_from_contents, FailedToReadLastUpdated};
use mariadb_kb_crawler::recent_crawler::{
    canonical_articles, changes_page_url, decimal_text, check_change_log, pair_article_dates, read_recent_articles, scrape_recent_article_urls,
    scrape_recent_article_urls_raw, select_recent_articles, ChangeLogError,
};

fn date(year: i32, month: u32, day: u32, hour: u32, minute: u32) -> KbDate {
    KbDate { year, month, day, hour, minute }
}

const PAGE: &str = r#"<ul>
<li class="history_item" value="12">Article <a href="/kb/en/select/">SELECT</a> <span class="datetime" title=" 2023-03-01 10:30 ">x</span></li>
<li class="history_item" value="13">Article <a href="https://mariadb.com/kb/en/old.png">old</a> <span class="datetime" title="2023-02-01 08:00">y</span></li>
<li class="history_item" value="14">Article <a href="kb/en/insert#top">INSERT</a> <span class="datetime" title="2023-01-15 00:05">z</span></li>
</ul>"#;

#[test]
fn change_log_articles() {
    let raw = scrape_recent_article_urls_raw(PAGE);
    assert_eq!(raw.len(), 3);
    assert_eq!(raw[0].url, "en/select/");
    assert_eq!(raw[0].date, date(2023, 3, 1, 10, 30));
    assert_eq!(raw[2].date, date(2023, 1, 15, 0, 5));
    let kept = scrape_recent_article_urls(PAGE);
    assert_eq!(kept.len(), 2);
    assert_eq!(kept[0].url, "https://mariadb.com/kb/en/select");
    assert_eq!(kept[1].url, "https://mariadb.com/kb/en/insert");
    assert_eq!(kept[1].date, date(2023, 1, 15, 0, 5));
}

#[test]
fn unreadable_change_date() {
    let page = r#"<li class="history_item" value="1">Article <a href="/kb/en/a/">a</a><span class="datetime" title="yesterday">"#;
    match check_change_log(page) {
        Err(ChangeLogError::UnreadableDate(d)) => assert_eq!(d, "yesterday"),
        other => panic!("{other:?}"),
    }
    assert!(matches!(read_recent_articles(page), Err(ChangeLogError::UnreadableDate(_))));
    assert!(check_change_log(PAGE).is_ok());
    let read = read_recent_articles(PAGE).unwrap();
    assert_eq!(read.len(), 2);
    assert_eq!(canonical_articles(scrape_recent_article_urls_raw(PAGE)).len(), 2);
}

#[test]
fn pairing_stops_at_the_first_unreadable_date() {
    let urls = vec!["a".to_string(), "b".to_string(), "c".to_string()];
    let dates = vec![" 2023-01-02 03:04".to_string(), " bad ".to_string(), "worse".to_string()];
    assert_eq!(pair_article_dates(&urls, &dates).unwrap_err(), " bad ");
    let dates = vec!["2023-01-02 03:04".to_string(), "2023-01-01 00:00".to_string()];
    let paired = pair_article_dates(&urls, &dates).unwrap();
    assert_eq!(paired.len(), 2);
    assert_eq!(paired[1].url, "b");
    assert_eq!(paired[1].date, date(2023, 1, 1, 0, 0));
    let only = vec!["2023-01-02 03:04".to_string(), "unread past the entries".to_string()];
    assert_eq!(pair_article_dates(&urls[..1].to_vec(), &only).unwrap().len(), 1);
}

#[test]
fn selection_by_date() {
    let kept = scrape_recent_article_urls(PAGE);
    let (urls, more) = select_recent_articles(&kept, date(2023, 2, 1, 0, 0));
    assert_eq!(urls, vec!["https://mariadb.com/kb/en/select".to_string()]);
    assert!(!more);
    let (urls, more) = select_recent_articles(&kept, date(2023, 1, 15, 0, 5));
    assert_eq!(urls.len(), 2);
    assert!(more);
}

#[test]
fn last_updated_is_a_day_earlier() {
    assert_eq!(last_updated_from_contents(Some("2023-03-01 10:30")), Ok(date(2023, 2, 28, 10, 30)));
    assert_eq!(last_updated_from_contents(Some("2024-03-01 00:00")), Ok(date(2024, 2, 29, 0, 0)));
    assert_eq!(last_updated_from_contents(None), Err(FailedToReadLastUpdated::FileNotFound));
    assert_eq!(last_updated_from_contents(Some("garbage")), Err(FailedToReadLastUpdated::InvalidFormat));
    assert_eq!(last_updated_from_contents(Some("2023-03-01 10:30\n")), Err(FailedToReadLastUpdated::InvalidFormat));
}

#[test]
fn failure_messages() {
    assert_eq!(
        FailedToReadLastUpdated::FileNotFound.message(),
        "Could not find 'last_updated.txt' in the mariadb_kb_archive.\n Run the standard scrape to update."
    );
    assert_eq!(FailedToReadLastUpdated::InvalidFormat.message(), "Invalid date format in 'last_updated.txt'.");
}

#[test]
fn written_update_time_reads_back_a_day_earlier() {
    let now = date(2024, 3, 1, 7, 5);
    let text = last_updated_text(now).unwrap();
    assert_eq!(text, "2024-03-01 07:05");
    assert_eq!(last_updated_from_contents(Some(&text)), Ok(date(2024, 2, 29, 7, 5)));
    assert_eq!(last_updated_text(date(2023, 2, 30, 0, 0)), None);
}

#[test]
fn change_log_page_addresses() {
    assert_eq!(changes_page_url(1), "https://mariadb.com/kb/+changes/?p=1");
    assert_eq!(changes_page_url(120), "https://mariadb.com/kb/+changes/?p=120");
    for n in [0u64, 7, 10, 99, 100, 12345, u64::MAX] {
        assert_eq!(decimal_text(n), format!("{n}"));
    }
}

#[test]
fn written_update_time_reads_back_for_any_year() {
    for now in [date(10000, 1, 2, 3, 4), date(-1, 12, 31, 23, 59), date(0, 1, 1, 0, 0), date(999, 5, 6, 7, 8)] {
        let text = last_updated_text(now).unwrap();
        let back = last_updated_from_contents(Some(&text)).unwrap();
        assert_eq!((back.hour, back.minute), (now.hour, now.minute), "{text}");
        assert_eq!(last_updated_text(back).map(|t| t != text), Some(true));
    }
    assert_eq!(last_updated_text(date(10000, 1, 2, 3, 4)).unwrap(), "+10000-01-02 03:04");
    assert_eq!(last_updated_from_contents(Some("+10000-01-02 03:04")), Ok(date(10000, 1, 1, 3, 4)));
    assert_eq!(last_updated_from_contents(Some("-0001-12-31 23:59")), Ok(date(-1, 12, 30, 23, 59)));
}
