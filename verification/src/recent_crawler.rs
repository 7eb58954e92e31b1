//! The crawl that fetches again only the articles changed since the last
//! complete scrape.
use vstd::prelude::*;
use crate::bindings::{regex_captures, regex_group_captures};
use crate::dates::{at_or_after, chrono_parsed, date_of, is_at_or_after, parse_date_time, KbDate};
use crate::paths::{path_to_url, spec_path_to_url};
use crate::scrape::{all_present, format_url, present_captures, spec_format_url, spec_valid_url, valid_url};
use crate::text::{trim_whitespace, trim_ws};

verus! {

/// An article of the change log and when it changed.
#[derive(Debug)]
pub struct RecentArticle {
    /// The article's URL (as captured, or in canonical form once filtered).
    pub url: String,
    /// When the article changed.
    pub date: KbDate,
}

/// An article as a pair of plain values.
pub open spec fn article_view(a: RecentArticle) -> (Seq<char>, KbDate) {
    (a.url@, a.date)
}

/// A list of articles as pairs of plain values.
pub open spec fn articles_view(v: Seq<RecentArticle>) -> Seq<(Seq<char>, KbDate)> {
    v.map_values(|a: RecentArticle| article_view(a))
}

/// The pattern of an article entry of the change log; group 1 is the part after `kb/`.
pub open spec fn recent_url_pattern() -> Seq<char> {
    r#"<li class="history_item" value="\d+">Article <a href="(?:(?:https://)?mariadb.com)?/?kb/([^"]*)">"#@
}

/// The pattern of a change's date in the change log; group 1 is the date.
pub open spec fn recent_date_pattern() -> Seq<char> {
    r#"<span class="datetime" title="([^"]+)">"#@
}

/// The format of a change's date.
pub open spec fn change_date_format() -> Seq<char> {
    "%Y-%m-%d %H:%M"@
}

/// Whether a change's date text can be read: trimmed, in the change-log format.
pub open spec fn date_readable(text: Seq<char>) -> bool {
    chrono_parsed(trim_ws(text), change_date_format()) is Some
}

/// The date a readable date text stands for.
pub open spec fn read_date(text: Seq<char>) -> KbDate {
    date_of(chrono_parsed(trim_ws(text), change_date_format()).unwrap())
}

/// The first of the first `n` date texts that cannot be read, if any.
pub open spec fn first_unreadable_date(dates: Seq<Seq<char>>, n: nat) -> Option<Seq<char>>
    decreases n,
{
    if n == 0 {
        None
    } else {
        match first_unreadable_date(dates, (n - 1) as nat) {
            Some(b) => Some(b),
            None => if date_readable(dates[n - 1]) {
                None
            } else {
                Some(dates[n - 1])
            },
        }
    }
}

/// Once one of the first `k` dates cannot be read, it is the first unreadable
/// one of any longer prefix too.
proof fn lemma_first_unreadable_stays(dates: Seq<Seq<char>>, k: nat, m: nat)
    requires
        k <= m,
        first_unreadable_date(dates, k) is Some,
    ensures
        first_unreadable_date(dates, m) == first_unreadable_date(dates, k),
    decreases m - k,
{
    if k < m {
        lemma_first_unreadable_stays(dates, k, (m - 1) as nat);
    }
}

/// The smaller of two lengths.
pub open spec fn min_len(a: nat, b: nat) -> nat {
    if a < b {
        a
    } else {
        b
    }
}

/// The `i`-th entry paired with the `i`-th date, as far as both lists go, each
/// date read from its trimmed text; where one of those dates cannot be read,
/// the first such date's text instead.
pub open spec fn spec_pair_dates(urls: Seq<Seq<char>>, dates: Seq<Seq<char>>) -> Result<
    Seq<(Seq<char>, KbDate)>,
    Seq<char>,
> {
    let n = min_len(urls.len(), dates.len());
    match first_unreadable_date(dates, n) {
        Some(bad) => Err(bad),
        None => Ok(Seq::new(n, |i: int| (urls[i], read_date(dates[i])))),
    }
}

/// Why a change-log page cannot be read.
#[derive(Debug)]
pub enum ChangeLogError {
    /// A pattern does not compile, or a match lacks its group.
    Pattern,
    /// The text of the first change date that cannot be read.
    UnreadableDate(String),
}

/// The articles of a change-log page with their dates, as captured: `Err(None)`
/// where a pattern cannot be used, `Err(Some(d))` where `d` is the first date
/// that cannot be read.
pub open spec fn spec_recent_raw(html: Seq<char>) -> Result<Seq<(Seq<char>, KbDate)>, Option<Seq<char>>> {
    match (
        regex_group_captures(recent_url_pattern(), html, 1),
        regex_group_captures(recent_date_pattern(), html, 1),
    ) {
        (Some(u), Some(d)) => match (all_present(u), all_present(d)) {
            (Some(urls), Some(dates)) => match spec_pair_dates(urls, dates) {
                Ok(s) => Ok(s),
                Err(bad) => Err(Some(bad)),
            },
            _ => Err(None),
        },
        _ => Err(None),
    }
}

/// A list of articles or the reason it could not be read, as plain values.
pub open spec fn recent_result_view(r: Result<Vec<RecentArticle>, ChangeLogError>) -> Result<
    Seq<(Seq<char>, KbDate)>,
    Option<Seq<char>>,
> {
    match r {
        Ok(v) => Ok(articles_view(v@)),
        Err(ChangeLogError::Pattern) => Err(None),
        Err(ChangeLogError::UnreadableDate(d)) => Err(Some(d@)),
    }
}

/// A pairing of entries with dates, or the unreadable date, as plain values.
pub open spec fn pairing_view(r: Result<Vec<RecentArticle>, String>) -> Result<Seq<(Seq<char>, KbDate)>, Seq<char>> {
    match r {
        Ok(v) => Ok(articles_view(v@)),
        Err(d) => Err(d@),
    }
}

/// The articles in canonical form, keeping those the crawler follows.
pub open spec fn spec_recent_filter(s: Seq<(Seq<char>, KbDate)>) -> Seq<(Seq<char>, KbDate)>
    decreases s.len(),
{
    if s.len() == 0 {
        Seq::empty()
    } else {
        let rest = spec_recent_filter(s.drop_last());
        let f = spec_format_url(s.last().0);
        if spec_valid_url(f) {
            rest.push((f, s.last().1))
        } else {
            rest
        }
    }
}

/// The URLs, in order, of the articles changed at or after `since`.
pub open spec fn spec_new_urls(s: Seq<(Seq<char>, KbDate)>, since: KbDate) -> Seq<Seq<char>>
    decreases s.len(),
{
    if s.len() == 0 {
        Seq::empty()
    } else {
        let rest = spec_new_urls(s.drop_last(), since);
        if at_or_after(s.last().1, since) {
            rest.push(s.last().0)
        } else {
            rest
        }
    }
}

/// The entries of a change-log page paired in order with its dates, as far as
/// both lists go, each date read from its trimmed text.  Where one of those
/// dates cannot be read, the text of the first such date (the crawler stops
/// there, naming it).
pub fn pair_article_dates(urls: &Vec<String>, dates: &Vec<String>) -> (r: Result<Vec<RecentArticle>, String>)
    ensures
        pairing_view(r) == spec_pair_dates(urls.deep_view(), dates.deep_view()),
{
    let n = if urls.len() < dates.len() {
        urls.len()
    } else {
        dates.len()
    };
    let ghost us = urls.deep_view();
    let ghost ds = dates.deep_view();
    let mut out: Vec<RecentArticle> = Vec::new();
    let mut i: usize = 0;
    while i < n
        invariant
            n == min_len(urls.len() as nat, dates.len() as nat),
            n <= urls.len(),
            n <= dates.len(),
            us == urls.deep_view(),
            ds == dates.deep_view(),
            i <= n,
            out.len() == i,
            first_unreadable_date(ds, i as nat) is None,
            forall|j: int| 0 <= j < i ==> article_view(#[trigger] out@[j]) == (us[j], read_date(ds[j])),
        decreases n - i,
    {
        let text = trim_whitespace(dates[i].as_str());
        match parse_date_time(text, "%Y-%m-%d %H:%M") {
            Some(d) => {
                out.push(RecentArticle { url: urls[i].clone(), date: d });
            },
            None => {
                proof {
                    reveal_strlit("%Y-%m-%d %H:%M");
                    assert(first_unreadable_date(ds, (i + 1) as nat) == Some(ds[i as int]));
                    lemma_first_unreadable_stays(ds, (i + 1) as nat, n as nat);
                }
                return Err(dates[i].clone());
            },
        }
        i = i + 1;
    }
    assert(articles_view(out@) =~= Seq::new(n as nat, |j: int| (us[j], read_date(ds[j]))));
    Ok(out)
}

/// The articles of a change-log page with their dates, read as far as it
/// goes: an error where a pattern cannot be used, or naming the first date
/// paired with an entry that cannot be read.
fn read_change_log(html: &str) -> (r: Result<Vec<RecentArticle>, ChangeLogError>)
    ensures
        recent_result_view(r) == spec_recent_raw(html@),
{
    let url_caps = match regex_captures(
        r#"<li class="history_item" value="\d+">Article <a href="(?:(?:https://)?mariadb.com)?/?kb/([^"]*)">"#,
        html,
        1,
    ) {
        Some(c) => c,
        None => return Err(ChangeLogError::Pattern),
    };
    let date_caps = match regex_captures(r#"<span class="datetime" title="([^"]+)">"#, html, 1) {
        Some(c) => c,
        None => return Err(ChangeLogError::Pattern),
    };
    let urls = match present_captures(url_caps) {
        Some(u) => u,
        None => return Err(ChangeLogError::Pattern),
    };
    let dates = match present_captures(date_caps) {
        Some(d) => d,
        None => return Err(ChangeLogError::Pattern),
    };
    match pair_article_dates(&urls, &dates) {
        Ok(v) => Ok(v),
        Err(bad) => Err(ChangeLogError::UnreadableDate(bad)),
    }
}

/// The articles in canonical form, keeping those the crawler follows.
pub fn canonical_articles(raw: Vec<RecentArticle>) -> (r: Vec<RecentArticle>)
    ensures
        articles_view(r@) == spec_recent_filter(articles_view(raw@)),
{
    let mut out: Vec<RecentArticle> = Vec::new();
    let mut i: usize = 0;
    while i < raw.len()
        invariant
            i <= raw.len(),
            articles_view(out@) == spec_recent_filter(articles_view(raw@).take(i as int)),
        decreases raw.len() - i,
    {
        let f = format_url(raw[i].url.as_str());
        let ghost before = articles_view(out@);
        let keep = valid_url(f.as_str());
        let date = raw[i].date;
        if keep {
            out.push(RecentArticle { url: f, date });
        }
        proof {
            let taken = articles_view(raw@).take(i + 1);
            assert(taken.drop_last() =~= articles_view(raw@).take(i as int));
            assert(taken.last() == article_view(raw@[i as int]));
            if keep {
                assert(articles_view(out@) =~= before.push((f@, date)));
            } else {
                assert(articles_view(out@) =~= before);
            }
        }
        i = i + 1;
    }
    assert(articles_view(raw@).take(raw.len() as int) =~= articles_view(raw@));
    out
}

/// Whether a change-log page can be read: both patterns can be used, every
/// match holds its group, and each date paired with an entry reads as a date.
pub open spec fn change_log_readable(html: Seq<char>) -> bool {
    spec_recent_raw(html) is Ok
}

/// The articles of a readable change-log page with their dates.
pub open spec fn spec_change_log(html: Seq<char>) -> Seq<(Seq<char>, KbDate)> {
    match spec_recent_raw(html) {
        Ok(s) => s,
        Err(_) => Seq::empty(),
    }
}

/// The articles of a change-log page with their dates: the entries and the
/// dates are paired in order, as far as both go, each date read from its
/// trimmed text.  Only for a page whose paired dates all read as dates.
pub fn scrape_recent_article_urls_raw(html: &str) -> (r: Vec<RecentArticle>)
    requires
        change_log_readable(html@),
    ensures
        articles_view(r@) == spec_change_log(html@),
{
    match read_change_log(html) {
        Ok(v) => v,
        Err(_) => Vec::new(),
    }
}

/// The articles of a readable change-log page in canonical form, keeping those
/// the crawler follows.
pub fn scrape_recent_article_urls(html: &str) -> (r: Vec<RecentArticle>)
    requires
        change_log_readable(html@),
    ensures
        articles_view(r@) == spec_recent_filter(spec_change_log(html@)),
{
    canonical_articles(scrape_recent_article_urls_raw(html))
}

/// Tests whether a change-log page can be read: `Ok` where it can; otherwise
/// why not, naming the first paired date that cannot be read.
pub fn check_change_log(html: &str) -> (r: Result<(), ChangeLogError>)
    ensures
        match spec_recent_raw(html@) {
            Ok(_) => r is Ok,
            Err(None) => r matches Err(ChangeLogError::Pattern),
            Err(Some(d)) => r matches Err(ChangeLogError::UnreadableDate(x)) && x@ == d,
        },
{
    match read_change_log(html) {
        Ok(_) => Ok(()),
        Err(e) => Err(e),
    }
}

/// The articles of a change-log page in canonical form, after testing that the
/// page can be read; the reason where it cannot.
pub fn read_recent_articles(html: &str) -> (r: Result<Vec<RecentArticle>, ChangeLogError>)
    ensures
        recent_result_view(r) == match spec_recent_raw(html@) {
            Ok(s) => Ok(spec_recent_filter(s)),
            Err(e) => Err(e),
        },
{
    match check_change_log(html) {
        Ok(()) => Ok(scrape_recent_article_urls(html)),
        Err(e) => Err(e),
    }
}

/// The decimal digit for a number below ten.
pub open spec fn digit_char(d: nat) -> char {
    if d == 0 {
        '0'
    } else if d == 1 {
        '1'
    } else if d == 2 {
        '2'
    } else if d == 3 {
        '3'
    } else if d == 4 {
        '4'
    } else if d == 5 {
        '5'
    } else if d == 6 {
        '6'
    } else if d == 7 {
        '7'
    } else if d == 8 {
        '8'
    } else {
        '9'
    }
}

/// A number written in decimal, without leading zeros.
pub open spec fn decimal(n: nat) -> Seq<char>
    decreases n,
{
    if n < 10 {
        seq![digit_char(n)]
    } else {
        decimal(n / 10).push(digit_char(n % 10))
    }
}

/// The decimal digit for a number below ten.
fn digit_text(d: u64) -> (r: &'static str)
    requires
        d < 10,
    ensures
        r@ == seq![digit_char(d as nat)],
{
    match d {
        0 => {
            proof {
                reveal_strlit("0");
            }
            "0"
        },
        1 => {
            proof {
                reveal_strlit("1");
            }
            "1"
        },
        2 => {
            proof {
                reveal_strlit("2");
            }
            "2"
        },
        3 => {
            proof {
                reveal_strlit("3");
            }
            "3"
        },
        4 => {
            proof {
                reveal_strlit("4");
            }
            "4"
        },
        5 => {
            proof {
                reveal_strlit("5");
            }
            "5"
        },
        6 => {
            proof {
                reveal_strlit("6");
            }
            "6"
        },
        7 => {
            proof {
                reveal_strlit("7");
            }
            "7"
        },
        8 => {
            proof {
                reveal_strlit("8");
            }
            "8"
        },
        _ => {
            proof {
                reveal_strlit("9");
            }
            "9"
        },
    }
}

/// A number written in decimal (as `format!` writes it).
pub fn decimal_text(n: u64) -> (r: String)
    ensures
        r@ == decimal(n as nat),
    decreases n,
{
    let last = digit_text(n % 10);
    if n < 10 {
        last.to_owned()
    } else {
        let mut r = decimal_text(n / 10);
        r.append(last);
        assert(r@ =~= decimal((n / 10) as nat).push(digit_char((n % 10) as nat)));
        r
    }
}

/// The address of page `page` of the knowledge base's change log.
pub open spec fn spec_changes_page_url(page: nat) -> Seq<char> {
    "https://mariadb.com/kb/+changes/?p="@ + decimal(page)
}

/// The address of page `page` of the knowledge base's change log.
pub fn changes_page_url(page: u64) -> (r: String)
    ensures
        r@ == spec_changes_page_url(page as nat),
{
    let mut r = "https://mariadb.com/kb/+changes/?p=".to_owned();
    let n = decimal_text(page);
    r.append(n.as_str());
    r
}

/// Of one change-log page, the URLs of the articles changed at or after
/// `since`, and whether the next page must be read too: it must where every
/// article on this page was new.
pub fn select_recent_articles(articles: &Vec<RecentArticle>, since: KbDate) -> (r: (Vec<String>, bool))
    ensures
        r.0.deep_view() == spec_new_urls(articles_view(articles@), since),
        r.1 == (spec_new_urls(articles_view(articles@), since).len() == articles@.len()),
{
    let mut out: Vec<String> = Vec::new();
    let mut i: usize = 0;
    while i < articles.len()
        invariant
            i <= articles.len(),
            out.deep_view() == spec_new_urls(articles_view(articles@).take(i as int), since),
        decreases articles.len() - i,
    {
        let ghost before = out.deep_view();
        let keep = is_at_or_after(articles[i].date, since);
        if keep {
            out.push(articles[i].url.clone());
        }
        proof {
            let taken = articles_view(articles@).take(i + 1);
            assert(taken.drop_last() =~= articles_view(articles@).take(i as int));
            assert(taken.last() == article_view(articles@[i as int]));
            if keep {
                assert(out.deep_view() =~= before.push(articles@[i as int].url@));
            } else {
                assert(out.deep_view() =~= before);
            }
        }
        i = i + 1;
    }
    assert(articles_view(articles@).take(articles.len() as int) =~= articles_view(articles@));
    let more = out.len() == articles.len();
    (out, more)
}

/// Every changed article the crawler follows is kept, with its date: for
/// each article whose canonical URL is valid, that URL and date are among the
/// filtered articles.
pub proof fn lemma_followed_articles_are_kept(s: Seq<(Seq<char>, KbDate)>)
    ensures
        forall|i: int|
            0 <= i < s.len() && spec_valid_url(spec_format_url((#[trigger] s[i]).0)) ==> spec_recent_filter(
                s,
            ).contains((spec_format_url(s[i].0), s[i].1)),
    decreases s.len(),
{
    if s.len() > 0 {
        let prev = s.drop_last();
        lemma_followed_articles_are_kept(prev);
        let rest = spec_recent_filter(prev);
        let all = spec_recent_filter(s);
        assert forall|i: int|
            0 <= i < s.len() && spec_valid_url(spec_format_url((#[trigger] s[i]).0)) implies all.contains(
                (spec_format_url(s[i].0), s[i].1),
            ) by {
            if i < s.len() - 1 {
                assert(prev[i] == s[i]);
                let w = choose|k: int| 0 <= k < rest.len() && #[trigger] rest[k] == (spec_format_url(prev[i].0), prev[i].1);
                assert(all[w] == rest[w]);
            } else {
                assert(all.last() == (spec_format_url(s.last().0), s.last().1));
            }
        }
    }
}

/// The selection keeps every new article: the URL of every article changed
/// at or after `since` is selected (and, by `lemma_new_urls_are_new`, no other
/// URL is), and all articles are selected exactly when every one of them is
/// new (the case in which the next change-log page is read).
pub proof fn lemma_new_urls_exactly(s: Seq<(Seq<char>, KbDate)>, since: KbDate)
    ensures
        forall|i: int|
            0 <= i < s.len() && at_or_after((#[trigger] s[i]).1, since) ==> spec_new_urls(s, since).contains(s[i].0),
        spec_new_urls(s, since).len() <= s.len(),
        spec_new_urls(s, since).len() == s.len() <==> forall|i: int| 0 <= i < s.len() ==> at_or_after(
            (#[trigger] s[i]).1,
            since,
        ),
    decreases s.len(),
{
    if s.len() > 0 {
        let prev = s.drop_last();
        lemma_new_urls_exactly(prev, since);
        let rest = spec_new_urls(prev, since);
        let all = spec_new_urls(s, since);
        let n = s.len() - 1;
        assert forall|i: int| 0 <= i < s.len() && at_or_after((#[trigger] s[i]).1, since) implies all.contains(
            s[i].0,
        ) by {
            if i < n {
                assert(prev[i] == s[i]);
                let w = choose|k: int| 0 <= k < rest.len() && #[trigger] rest[k] == prev[i].0;
                assert(all[w] == rest[w]);
            } else {
                assert(all.last() == s.last().0);
            }
        }
        if all.len() == s.len() {
            assert(at_or_after(s.last().1, since));
            assert(rest.len() == prev.len());
            assert forall|i: int| 0 <= i < s.len() implies at_or_after((#[trigger] s[i]).1, since) by {
                if i < n {
                    assert(prev[i] == s[i]);
                }
            }
        }
        if forall|i: int| 0 <= i < s.len() ==> at_or_after((#[trigger] s[i]).1, since) {
            assert forall|i: int| 0 <= i < prev.len() implies at_or_after((#[trigger] prev[i]).1, since) by {
                assert(prev[i] == s[i]);
            }
            assert(at_or_after(s[n].1, since));
        }
    }
}

/// Every selected URL is that of an article changed at or after `since`.
pub proof fn lemma_new_urls_are_new(s: Seq<(Seq<char>, KbDate)>, since: KbDate, u: Seq<char>)
    requires
        spec_new_urls(s, since).contains(u),
    ensures
        exists|i: int| 0 <= i < s.len() && at_or_after((#[trigger] s[i]).1, since) && u == s[i].0,
    decreases s.len(),
{
    let prev = s.drop_last();
    let rest = spec_new_urls(prev, since);
    let n = s.len() - 1;
    if rest.contains(u) {
        lemma_new_urls_are_new(prev, since, u);
        let i = choose|i: int| 0 <= i < prev.len() && at_or_after((#[trigger] prev[i]).1, since) && u == prev[i].0;
        assert(prev[i] == s[i]);
    } else {
        assert(s[n] == s.last());
    }
}

/// A recently changed article and the files stored below its place in the archive.
#[derive(Debug)]
pub struct RecentVisit {
    /// The article's URL.
    pub url: String,
    /// The files found below the article's place in the archive.
    pub subpaths: Vec<String>,
}

/// The URLs to fetch again for a list of changed articles: for each article,
/// the URLs of the files stored below it, then the article itself.
pub open spec fn spec_recent_queue(root: Seq<char>, visits: Seq<(Seq<char>, Seq<Seq<char>>)>) -> Seq<Seq<char>>
    decreases visits.len(),
{
    if visits.len() == 0 {
        Seq::empty()
    } else {
        let last = visits.last();
        spec_recent_queue(root, visits.drop_last()) + last.1.map_values(|p: Seq<char>| spec_path_to_url(p, root))
            + seq![last.0]
    }
}

/// Where the URLs of visit `k` start in a queue built from `visits`: each
/// earlier visit takes one place per stored file and one for its own URL.
pub open spec fn visit_offset(visits: Seq<(Seq<char>, Seq<Seq<char>>)>, k: int) -> int
    decreases k,
{
    if k <= 0 {
        0
    } else {
        visit_offset(visits, k - 1) + visits[k - 1].1.len() + 1
    }
}

/// Offsets only grow along the visits.
proof fn lemma_visit_offset_grows(visits: Seq<(Seq<char>, Seq<Seq<char>>)>, k: int, m: int)
    requires
        0 <= k <= m,
    ensures
        visit_offset(visits, k) <= visit_offset(visits, m),
    decreases m - k,
{
    if k < m {
        lemma_visit_offset_grows(visits, k, m - 1);
    }
}

/// The offsets of the first visits do not depend on the later ones.
proof fn lemma_visit_offset_prefix(visits: Seq<(Seq<char>, Seq<Seq<char>>)>, n: int, k: int)
    requires
        0 <= k <= n <= visits.len(),
    ensures
        visit_offset(visits.take(n), k) == visit_offset(visits, k),
    decreases k,
{
    if k > 0 {
        lemma_visit_offset_prefix(visits, n, k - 1);
        assert(visits.take(n)[k - 1] == visits[k - 1]);
    }
}

/// The queue of the recent crawl, laid out: for each changed article in turn,
/// the URL of every file stored below it (by `path_to_url`), then the article's
/// own URL.  Its length is the number of stored files plus the number of
/// articles, so no stored file is left out.
pub proof fn lemma_recent_queue_layout(root: Seq<char>, visits: Seq<(Seq<char>, Seq<Seq<char>>)>)
    ensures
        spec_recent_queue(root, visits).len() == visit_offset(visits, visits.len() as int),
        forall|k: int, j: int|
            0 <= k < visits.len() && 0 <= j < visits[k].1.len() ==> spec_recent_queue(root, visits)[visit_offset(
                visits,
                k,
            ) + j] == spec_path_to_url(#[trigger] visits[k].1[j], root),
        forall|k: int|
            0 <= k < visits.len() ==> spec_recent_queue(root, visits)[visit_offset(visits, k) + (
            #[trigger] visits[k]).1.len()] == visits[k].0,
    decreases visits.len(),
{
    if visits.len() > 0 {
        let n = visits.len() as int;
        let prev = visits.drop_last();
        assert(prev =~= visits.take(n - 1));
        lemma_recent_queue_layout(root, prev);
        let q0 = spec_recent_queue(root, prev);
        let last = visits.last();
        let mapped = last.1.map_values(|p: Seq<char>| spec_path_to_url(p, root));
        let q = spec_recent_queue(root, visits);
        assert(q == q0 + mapped + seq![last.0]);
        lemma_visit_offset_prefix(visits, n - 1, n - 1);
        assert(q0.len() == visit_offset(visits, n - 1));
        assert forall|k: int, j: int|
            0 <= k < visits.len() && 0 <= j < visits[k].1.len() implies q[visit_offset(visits, k) + j]
            == spec_path_to_url(#[trigger] visits[k].1[j], root) by {
            lemma_queue_entry(root, visits, k, j);
        }
        assert forall|k: int| 0 <= k < visits.len() implies q[visit_offset(visits, k) + (
        #[trigger] visits[k]).1.len()] == visits[k].0 by {
            lemma_queue_entry(root, visits, k, visits[k].1.len() as int);
        }
    }
}

/// One entry of the queue's layout, from the layout of the queue without the
/// last visit: entry `j` of visit `k` is the URL of its `j`-th stored file, or,
/// just after them, the visit's own URL.
#[verifier::spinoff_prover]
proof fn lemma_queue_entry(root: Seq<char>, visits: Seq<(Seq<char>, Seq<Seq<char>>)>, k: int, j: int)
    requires
        0 <= k < visits.len(),
        0 <= j <= visits[k].1.len(),
        ({
            let prev = visits.drop_last();
            &&& spec_recent_queue(root, prev).len() == visit_offset(prev, prev.len() as int)
            &&& forall|k2: int, j2: int|
                0 <= k2 < prev.len() && 0 <= j2 < prev[k2].1.len() ==> spec_recent_queue(root, prev)[visit_offset(
                    prev,
                    k2,
                ) + j2] == spec_path_to_url(#[trigger] prev[k2].1[j2], root)
            &&& forall|k2: int|
                0 <= k2 < prev.len() ==> spec_recent_queue(root, prev)[visit_offset(prev, k2) + (
                #[trigger] prev[k2]).1.len()] == prev[k2].0
        }),
    ensures
        j < visits[k].1.len() ==> spec_recent_queue(root, visits)[visit_offset(visits, k) + j] == spec_path_to_url(
            visits[k].1[j],
            root,
        ),
        j == visits[k].1.len() ==> spec_recent_queue(root, visits)[visit_offset(visits, k) + j] == visits[k].0,
{
    let n = visits.len() as int;
    let prev = visits.drop_last();
    assert(prev =~= visits.take(n - 1));
    let q0 = spec_recent_queue(root, prev);
    let last = visits.last();
    let mapped = last.1.map_values(|p: Seq<char>| spec_path_to_url(p, root));
    let q = spec_recent_queue(root, visits);
    assert(q == q0 + mapped + seq![last.0]);
    lemma_visit_offset_prefix(visits, n - 1, n - 1);
    if k < n - 1 {
        lemma_visit_offset_prefix(visits, n - 1, k);
        lemma_visit_offset_grows(visits, k + 1, n - 1);
        assert(prev[k] == visits[k]);
        lemma_visit_offset_grows(visits, 0, k);
        let x = visit_offset(visits, k) + j;
        assert(0 <= x < q0.len());
        assert((q0 + mapped)[x] == q0[x]);
        assert(q[x] == q0[x]);
        if j < visits[k].1.len() {
            assert(q0[visit_offset(prev, k) + j] == spec_path_to_url(prev[k].1[j], root));
        } else {
            assert(q0[visit_offset(prev, k) + prev[k].1.len()] == prev[k].0);
        }
    } else {
        assert(visit_offset(visits, k) == q0.len());
        if j < visits[k].1.len() {
            assert(q[q0.len() + j] == mapped[j]);
        } else {
            assert(q[(q0.len() + mapped.len()) as int] == last.0);
        }
    }
}

/// A list of visits as plain values.
pub open spec fn visits_view(v: Seq<RecentVisit>) -> Seq<(Seq<char>, Seq<Seq<char>>)> {
    v.map_values(|x: RecentVisit| (x.url@, x.subpaths.deep_view()))
}

/// The URLs to fetch again, given each changed article with the files stored
/// below it in the archive at `root`.
pub fn recent_queue(root: &str, visits: &Vec<RecentVisit>) -> (r: Vec<String>)
    ensures
        r.deep_view() == spec_recent_queue(root@, visits_view(visits@)),
{
    let mut out: Vec<String> = Vec::new();
    let mut i: usize = 0;
    while i < visits.len()
        invariant
            i <= visits.len(),
            out.deep_view() == spec_recent_queue(root@, visits_view(visits@).take(i as int)),
        decreases visits.len() - i,
    {
        let ghost start = out.deep_view();
        let ghost subs = visits@[i as int].subpaths.deep_view();
        let mut j: usize = 0;
        while j < visits[i].subpaths.len()
            invariant
                i < visits.len(),
                j <= visits@[i as int].subpaths.len(),
                subs == visits@[i as int].subpaths.deep_view(),
                out.deep_view() == start + subs.take(j as int).map_values(|p: Seq<char>| spec_path_to_url(p, root@)),
            decreases visits@[i as int].subpaths.len() - j,
        {
            let u = path_to_url(visits[i].subpaths[j].as_str(), root);
            let ghost before = out.deep_view();
            out.push(u);
            assert(subs.take(j + 1).map_values(|p: Seq<char>| spec_path_to_url(p, root@)) =~= subs.take(
                j as int,
            ).map_values(|p: Seq<char>| spec_path_to_url(p, root@)).push(spec_path_to_url(subs[j as int], root@)));
            assert(out.deep_view() =~= before.push(u@));
            j = j + 1;
        }
        let ghost mid = out.deep_view();
        out.push(visits[i].url.clone());
        proof {
            let taken = visits_view(visits@).take(i + 1);
            assert(taken.drop_last() =~= visits_view(visits@).take(i as int));
            assert(taken.last() == (visits@[i as int].url@, subs));
            assert(subs.take(subs.len() as int) =~= subs);
            assert(out.deep_view() =~= mid.push(visits@[i as int].url@));
        }
        i = i + 1;
    }
    assert(visits_view(visits@).take(visits.len() as int) =~= visits_view(visits@));
    out
}

/// The crawl over recently changed articles: a stack of URLs to fetch, and the
/// archive's root.
pub struct RecentCrawler {
    queue: Vec<String>,
    root: String,
}

impl RecentCrawler {
    /// The URLs still to fetch; the last is fetched first.
    pub closed spec fn queue(&self) -> Seq<Seq<char>> {
        self.queue.deep_view()
    }

    /// The archive's root.
    pub closed spec fn root_path(&self) -> Seq<char> {
        self.root@
    }

    /// A crawl over `queue` that stores pages under `root`.
    pub fn new(root: String, queue: Vec<String>) -> (r: Self)
        ensures
            r.queue() == queue.deep_view(),
            r.root_path() == root@,
    {
        RecentCrawler { queue, root }
    }

    /// The archive's root.
    pub fn root(&self) -> (r: &str)
        ensures
            r@ == self.root_path(),
    {
        self.root.as_str()
    }

    /// The next URL to fetch: the last one queued.
    pub fn next_url(&mut self) -> (r: Option<String>)
        ensures
            final(self).root_path() == old(self).root_path(),
            old(self).queue().len() == 0 ==> r is None && final(self).queue() == old(self).queue(),
            old(self).queue().len() > 0 ==> (r matches Some(u) && u@ == old(self).queue().last()
                && final(self).queue() == old(self).queue().drop_last()),
    {
        let r = self.queue.pop();
        proof {
            if old(self).queue.len() > 0 {
                assert(self.queue.deep_view() =~= old(self).queue.deep_view().drop_last());
            }
        }
        r
    }
}

} // verus!
