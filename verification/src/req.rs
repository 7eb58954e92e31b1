//! What the crawler keeps of a fetched page, and the list of URLs it starts from.
use vstd::prelude::*;
use crate::bindings::{csv_records, read_csv_records};
use crate::scrape::{format_url, spec_format_url, spec_valid_url, valid_url};
use crate::text::{before_char, chars_of, cut_at_char, drop_char_back, find_char, has_char, trim_end_char};

verus! {

/// A fetched page.
#[derive(Debug)]
pub struct ScrapeResult {
    /// The page's bytes.
    pub content: Vec<u8>,
    /// The subtype of its content type (`html` for `text/html`), where known.
    pub file_extension: Option<String>,
    /// The URL the request ended at, after redirects, without trailing slashes.
    pub directed_url: String,
}

/// Why a fetched page is not kept.
#[derive(Debug, Clone, Copy, PartialEq, Eq, Structural)]
pub enum ScrapeError {
    /// The request was redirected to a URL the crawler does not follow.
    InvalidRedirect,
}

/// The subtype of a `Content-Type` value: in its part before the first `';'`,
/// what follows the first `'/'`; none where there is no `'/'`.
pub open spec fn spec_file_extension(content_type: Seq<char>) -> Option<Seq<char>> {
    let t = before_char(content_type, ';');
    if has_char(t, '/') {
        Some(t.skip(before_char(t, '/').len() as int + 1))
    } else {
        None
    }
}

/// The subtype of a `Content-Type` value.
pub fn file_extension_of(content_type: &str) -> (r: Option<&str>)
    ensures
        match spec_file_extension(content_type@) {
            Some(e) => r matches Some(x) && x@ == e,
            None => r is None,
        },
{
    let v = chars_of(content_type);
    let k = cut_at_char(&v, v.len(), ';');
    assert(v@.take(v.len() as int) =~= content_type@);
    let ghost t = v@.take(k as int);
    match find_char(&v, k, '/') {
        None => {
            assert(!has_char(t, '/'));
            None
        },
        Some(s) => {
            let c = cut_at_char(&v, k, '/');
            assert(c == s) by {
                crate::text::lemma_before_char(t, '/', s as int);
                assert(v@.take(c as int).len() == c);
            }
            assert(t[s as int] == '/');
            assert(t.skip(s + 1) =~= content_type@.subrange(s + 1, k as int));
            Some(content_type.substring_char(s + 1, k))
        },
    }
}

/// The URL a request ended at, without trailing slashes, where the crawler follows it.
pub open spec fn spec_directed_url(final_url: Seq<char>) -> Option<Seq<char>> {
    let d = trim_end_char(final_url, '/');
    if spec_valid_url(trim_end_char(d, '/')) {
        Some(d)
    } else {
        None
    }
}

/// The URL a request ended at, without trailing slashes, where the crawler follows it.
pub fn directed_url_of(final_url: &str) -> (r: Option<&str>)
    ensures
        match spec_directed_url(final_url@) {
            Some(d) => r matches Some(x) && x@ == d,
            None => r is None,
        },
{
    let v = chars_of(final_url);
    assert(v@.subrange(0, v.len() as int) =~= final_url@);
    let e = drop_char_back(&v, 0, v.len(), '/');
    let directed = final_url.substring_char(0, e);
    let dv = chars_of(directed);
    assert(dv@.subrange(0, dv.len() as int) =~= directed@);
    let e2 = drop_char_back(&dv, 0, dv.len(), '/');
    let again = directed.substring_char(0, e2);
    if valid_url(again) {
        Some(directed)
    } else {
        None
    }
}

/// What the crawler keeps of a response that ended at `final_url`, with the
/// given `Content-Type` value and body; an error where the request was
/// redirected to a URL the crawler does not follow.
pub fn scrape_result(final_url: &str, content_type: Option<&str>, content: Vec<u8>) -> (r: Result<
    ScrapeResult,
    ScrapeError,
>)
    ensures
        match spec_directed_url(final_url@) {
            None => r == Err::<ScrapeResult, ScrapeError>(ScrapeError::InvalidRedirect),
            Some(d) => r matches Ok(res) && res.directed_url@ == d && res.content@ == content@
                && match content_type {
                None => res.file_extension is None,
                Some(ct) => match spec_file_extension(ct@) {
                    Some(e) => res.file_extension matches Some(x) && x@ == e,
                    None => res.file_extension is None,
                },
            },
        },
{
    let directed = match directed_url_of(final_url) {
        Some(d) => d,
        None => return Err(ScrapeError::InvalidRedirect),
    };
    let file_extension = match content_type {
        Some(ct) => match file_extension_of(ct) {
            Some(x) => Some(x.to_owned()),
            None => None,
        },
        None => None,
    };
    Ok(ScrapeResult { content, file_extension, directed_url: directed.to_owned() })
}

/// Whether a request that could not be sent is tried again after a pause: it
/// is where the connection failed or the request could not be built or sent;
/// any other failure ends the attempt.
pub fn retries_after(is_connect: bool, is_request: bool) -> (r: bool)
    ensures
        r == (is_connect || is_request),
{
    is_connect || is_request
}

/// Why the list of starting URLs could not be read.
#[derive(Debug, Clone, Copy, PartialEq, Eq, Structural)]
pub enum KbUrlsError {
    /// A record of the CSV text cannot be read.
    Csv,
    /// A record has no field.
    EmptyRecord,
}

/// The canonical URLs in the first column of the CSV records, in order.
pub open spec fn spec_first_column_urls(rows: Seq<Seq<Seq<char>>>) -> Option<Seq<Seq<char>>>
    decreases rows.len(),
{
    if rows.len() == 0 {
        Some(Seq::empty())
    } else {
        match spec_first_column_urls(rows.drop_last()) {
            Some(rest) => if rows.last().len() > 0 {
                Some(rest.push(spec_format_url(rows.last()[0])))
            } else {
                None
            },
            None => None,
        }
    }
}

/// The URLs listed in a `kb_urls.csv` text: the first field of each record, in
/// canonical form.  A record without fields, or one that cannot be read, fails
/// the whole list.
pub open spec fn spec_kb_urls(text: Seq<char>) -> Result<Seq<Seq<char>>, KbUrlsError> {
    let (rows, failed) = csv_records(text);
    match spec_first_column_urls(rows) {
        None => Err(KbUrlsError::EmptyRecord),
        Some(urls) => if failed {
            Err(KbUrlsError::Csv)
        } else {
            Ok(urls)
        },
    }
}

/// A missing field in a prefix of the records fails the whole list.
proof fn lemma_first_column_prefix(rows: Seq<Seq<Seq<char>>>, k: int)
    requires
        0 <= k <= rows.len(),
        spec_first_column_urls(rows.take(k)) is None,
    ensures
        spec_first_column_urls(rows) is None,
    decreases rows.len() - k,
{
    if k < rows.len() {
        assert(rows.take(k + 1).drop_last() =~= rows.take(k));
        lemma_first_column_prefix(rows, k + 1);
    } else {
        assert(rows.take(k) =~= rows);
    }
}

/// The URLs in the first column of CSV records read in order, in canonical
/// form; `failed` tells whether the reading stopped at a record it could not
/// read.  A record without fields fails the list first.
pub fn kb_urls_from_records(rows: Vec<Vec<String>>, failed: bool) -> (r: Result<Vec<String>, KbUrlsError>)
    ensures
        match spec_first_column_urls(rows.deep_view()) {
            None => r == Err::<Vec<String>, KbUrlsError>(KbUrlsError::EmptyRecord),
            Some(urls) => if failed {
                r == Err::<Vec<String>, KbUrlsError>(KbUrlsError::Csv)
            } else {
                r matches Ok(v) && v.deep_view() == urls
            },
        },
{
    let ghost rs = rows.deep_view();
    let mut urls: Vec<String> = Vec::new();
    let mut i: usize = 0;
    while i < rows.len()
        invariant
            i <= rows.len(),
            rs == rows.deep_view(),
            spec_first_column_urls(rs.take(i as int)) == Some(urls.deep_view()),
        decreases rows.len() - i,
    {
        let ghost taken = rs.take(i + 1);
        assert(taken.drop_last() =~= rs.take(i as int));
        if rows[i].len() == 0 {
            proof {
                lemma_first_column_prefix(rs, i + 1);
            }
            return Err(KbUrlsError::EmptyRecord);
        }
        let ghost before = urls.deep_view();
        urls.push(format_url(rows[i][0].as_str()));
        assert(urls.deep_view() =~= before.push(spec_format_url(rs[i as int][0])));
        i = i + 1;
    }
    assert(rs.take(rows.len() as int) =~= rs);
    if failed {
        return Err(KbUrlsError::Csv);
    }
    Ok(urls)
}

/// The URLs listed in a `kb_urls.csv` text.
pub fn kb_urls_from_csv(text: &str) -> (r: Result<Vec<String>, KbUrlsError>)
    ensures
        match spec_kb_urls(text@) {
            Ok(urls) => r matches Ok(v) && v.deep_view() == urls,
            Err(e) => r == Err::<Vec<String>, KbUrlsError>(e),
        },
{
    let (rows, failed) = read_csv_records(text);
    kb_urls_from_records(rows, failed)
}

} // verus!
