//! Calls into outside code (the regex engine of `lazy-regex`, the `csv` reader,
//! and std text functions that vstd does not cover), and the names of what they return.
use vstd::prelude::*;

verus! {

/// What `Regex::new(pattern)` followed by `captures_iter(haystack)` yields:
/// `None` where the pattern does not compile; otherwise, for each successive
/// non-overlapping match, the text of capture group `group` (`None` where the
/// group did not take part in that match).
pub uninterp spec fn regex_group_captures(
    pattern: Seq<char>,
    haystack: Seq<char>,
    group: nat,
) -> Option<Seq<Option<Seq<char>>>>;

/// Runs `lazy_regex::Regex::new` (the `regex` crate's `Regex`) on `pattern`
/// and walks `captures_iter(haystack)`, taking group `group` of each match
/// through `Captures::get`.  The contract only names the result: it is
/// `regex_group_captures` of the arguments, a function of them alone.
#[verifier::external_body]
pub(crate) fn regex_captures(pattern: &str, haystack: &str, group: usize) -> (r: Option<Vec<Option<String>>>)
    ensures
        r.deep_view() == regex_group_captures(pattern@, haystack@, group as nat),
{
    match lazy_regex::Regex::new(pattern) {
        Ok(re) => Some(
            re.captures_iter(haystack).map(|c| c.get(group).map(|m| m.as_str().to_string())).collect(),
        ),
        Err(_) => None,
    }
}

/// `std::str::from_utf8`: the text the bytes encode, where they are valid UTF-8.
/// The contract restates UTF-8 (vstd's `valid_utf8` and `decode_utf8`), which is
/// what the function is documented to check and decode.
#[verifier::external_body]
pub(crate) fn utf8_text(bytes: &[u8]) -> (r: Option<&str>)
    ensures
        r is Some <==> vstd::utf8::valid_utf8(bytes@),
        r matches Some(s) ==> s@ == vstd::utf8::decode_utf8(bytes@),
{
    std::str::from_utf8(bytes).ok()
}

/// What `str::to_lowercase` returns for a text: its Unicode lowercase mapping.
pub uninterp spec fn lowercase(s: Seq<char>) -> Seq<char>;

/// `str::to_lowercase`.  Unicode case mapping is not restated: the contract
/// names the result, which depends on the text alone.
#[verifier::external_body]
pub(crate) fn to_lowercase(s: &str) -> (r: String)
    ensures
        r@ == lowercase(s@),
{
    s.to_lowercase()
}

/// What `csv::Reader::from_reader` over the text's bytes yields through
/// `records()`: the fields of each record after the header row, up to the
/// first record that cannot be read, and whether such a record ended the walk.
pub uninterp spec fn csv_records(text: Seq<char>) -> (Seq<Seq<Seq<char>>>, bool);

/// Reads `text` with the `csv` crate's default reader (a header row, commas,
/// double quotes), field by field through `StringRecord::iter`.  The contract
/// names the result only.
#[verifier::external_body]
pub(crate) fn read_csv_records(text: &str) -> (r: (Vec<Vec<String>>, bool))
    ensures
        (r.0.deep_view(), r.1) == csv_records(text@),
{
    let mut reader = csv::Reader::from_reader(text.as_bytes());
    let mut rows: Vec<Vec<String>> = Vec::new();
    for record in reader.records() {
        match record {
            Ok(rec) => rows.push(rec.iter().map(|f| f.to_string()).collect()),
            Err(_) => return (rows, true),
        }
    }
    (rows, false)
}

} // verus!
