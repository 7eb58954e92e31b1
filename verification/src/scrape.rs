//! Which knowledge-base URLs the crawler follows, and how it writes them.
use vstd::prelude::*;
use crate::bindings::{regex_captures, regex_group_captures};
use crate::text::{
    lemma_before_absent_char, lemma_before_char_prefix, lemma_strip_prefixes_suffix,
    lemma_subrange_lacks_char, lemma_trim_end_char_prefix, lemma_trim_start_char_suffix,
    before_char, chars_of, contains_chars, contains_seq, cut_at_char, drop_char_back, ends_with,
    ends_with_chars, has_char, has_char_in, matches_at, skip_char, skip_prefixes, starts_with,
    strip_prefixes, trim_char, trim_end_char, trim_start_char,
};

verus! {

/// The address every knowledge-base URL is written under.
pub open spec fn kb_base() -> Seq<char> {
    "https://mariadb.com/kb"@
}

/// `url` without its leading scheme, host and `kb` part, and without slashes
/// at either end: `str::trim_start_matches` with `"https://"`, `'/'`,
/// `"mariadb.com"`, `'/'`, `"kb"` in turn, then `str::trim_matches('/')`.
pub open spec fn spec_trim_url(url: Seq<char>) -> Seq<char> {
    trim_char(
        strip_prefixes(
            trim_start_char(
                strip_prefixes(trim_start_char(strip_prefixes(url, "https://"@), '/'), "mariadb.com"@),
                '/',
            ),
            "kb"@,
        ),
        '/',
    )
}

/// The canonical form of a link: its part before the first `'#'`, then before
/// the first `'?'`, trimmed by `spec_trim_url`, under `https://mariadb.com/kb/`.
pub open spec fn spec_format_url(url: Seq<char>) -> Seq<char> {
    "https://mariadb.com/kb/"@ + spec_trim_url(before_char(before_char(url, '#'), '?'))
}

/// Path segments whose pages the crawler never follows.
pub open spec fn ignored_url_segments() -> Seq<Seq<char>> {
    seq![
        "/+change_order/"@,
        "/add/"@,
        "/ask/"@,
        "/remove/"@,
        "/+history/"@,
        "/+translate/"@,
        "/+flag/"@,
        "/post/"@,
        "/+r/"@,
    ]
}

/// `url` holds an ignored segment, or ends with one less its trailing slash.
pub open spec fn hits_ignored_segment(url: Seq<char>) -> bool {
    exists|i: int|
        0 <= i < ignored_url_segments().len() && {
            let seg = #[trigger] ignored_url_segments()[i];
            contains_seq(url, seg) || ends_with(url, trim_end_char(seg, '/'))
        }
}

/// A URL the crawler follows: no ignored segment, under the knowledge base,
/// and no `'.'` after the knowledge-base prefix (stripped as often as it repeats).
pub open spec fn spec_valid_url(url: Seq<char>) -> bool {
    &&& !hits_ignored_segment(url)
    &&& starts_with(url, kb_base())
    &&& !has_char(strip_prefixes(url, kb_base()), '.')
}

/// The canonical forms of `urls`, in order, of which those that are valid are kept.
pub open spec fn spec_filter_urls(urls: Seq<Seq<char>>) -> Seq<Seq<char>>
    decreases urls.len(),
{
    if urls.len() == 0 {
        Seq::empty()
    } else {
        let rest = spec_filter_urls(urls.drop_last());
        let f = spec_format_url(urls.last());
        if spec_valid_url(f) {
            rest.push(f)
        } else {
            rest
        }
    }
}

/// The pattern of a knowledge-base link in an HTML attribute; group 1 is the
/// part after `kb/`.
pub open spec fn kb_link_pattern() -> Seq<char> {
    r#"="(?:(?:https://)?mariadb.com)?/?kb/([^" ]*)""#@
}

/// The texts of a regex's captures, where every capture holds the group.
pub open spec fn all_present(caps: Seq<Option<Seq<char>>>) -> Option<Seq<Seq<char>>>
    decreases caps.len(),
{
    if caps.len() == 0 {
        Some(Seq::empty())
    } else {
        match (all_present(caps.drop_last()), caps.last()) {
            (Some(rest), Some(last)) => Some(rest.push(last)),
            _ => None,
        }
    }
}

/// What the link pattern captures in `html`, where every match holds group 1.
pub open spec fn spec_raw_urls(html: Seq<char>) -> Option<Seq<Seq<char>>> {
    match regex_group_captures(kb_link_pattern(), html, 1) {
        Some(caps) => all_present(caps),
        None => None,
    }
}

/// `url` with its leading scheme, host and `kb` part and its outer slashes removed.
pub fn trim_url(url: &str) -> (r: &str)
    ensures
        r@ == spec_trim_url(url@),
{
    proof {
        reveal_strlit("https://");
        reveal_strlit("mariadb.com");
        reveal_strlit("kb");
    }
    let v = chars_of(url);
    let n = v.len();
    let https = chars_of("https://");
    let host = chars_of("mariadb.com");
    let kb = chars_of("kb");
    assert(v@.subrange(0, n as int) =~= url@);
    let a = skip_prefixes(&v, 0, n, &https);
    let b = skip_char(&v, a, n, '/');
    let c = skip_prefixes(&v, b, n, &host);
    let d = skip_char(&v, c, n, '/');
    let e = skip_prefixes(&v, d, n, &kb);
    let f = skip_char(&v, e, n, '/');
    let g = drop_char_back(&v, f, n, '/');
    assert(v@.subrange(f as int, g as int) == url@.subrange(f as int, g as int));
    url.substring_char(f, g)
}

/// The canonical URL of a link: cut at the first `'#'` and then the first
/// `'?'`, trimmed, under `https://mariadb.com/kb/`.
pub fn format_url(url: &str) -> (r: String)
    ensures
        r@ == spec_format_url(url@),
{
    let v = chars_of(url);
    let k1 = cut_at_char(&v, v.len(), '#');
    let k2 = cut_at_char(&v, k1, '?');
    assert(v@.take(v.len() as int) =~= url@);
    assert(v@.take(k1 as int).take(k2 as int) =~= v@.take(k2 as int));
    let suffix = url.substring_char(0, k2);
    assert(suffix@ =~= v@.take(k2 as int));
    let mut r = "https://mariadb.com/kb/".to_owned();
    r.append(trim_url(suffix));
    r
}

/// The ignored segment at position `i`.
fn ignored_url_segment(i: usize) -> (s: &'static str)
    requires
        i < ignored_url_segments().len(),
    ensures
        s@ == ignored_url_segments()[i as int],
{
    match i {
        0 => "/+change_order/",
        1 => "/add/",
        2 => "/ask/",
        3 => "/remove/",
        4 => "/+history/",
        5 => "/+translate/",
        6 => "/+flag/",
        7 => "/post/",
        _ => "/+r/",
    }
}

/// Whether the crawler follows `url`.
pub fn valid_url(url: &str) -> (r: bool)
    ensures
        r == spec_valid_url(url@),
{
    let v = chars_of(url);
    let count: usize = 9;
    let mut i: usize = 0;
    while i < count
        invariant
            count == ignored_url_segments().len(),
            i <= count,
            v@ == url@,
            forall|j: int|
                0 <= j < i ==> {
                    let seg = #[trigger] ignored_url_segments()[j];
                    !contains_seq(url@, seg) && !ends_with(url@, trim_end_char(seg, '/'))
                },
        decreases count - i,
    {
        let seg = chars_of(ignored_url_segment(i));
        let k = drop_char_back(&seg, 0, seg.len(), '/');
        let mut bare: Vec<char> = Vec::new();
        let mut j: usize = 0;
        while j < k
            invariant
                k <= seg.len(),
                j <= k,
                bare@ == seg@.take(j as int),
            decreases k - j,
        {
            bare.push(seg[j]);
            j = j + 1;
            assert(bare@ =~= seg@.take(j as int));
        }
        assert(seg@.subrange(0, seg.len() as int) =~= seg@);
        assert(seg@.subrange(0, k as int) =~= bare@);
        if contains_chars(&v, &seg) || ends_with_chars(&v, &bare) {
            assert(hits_ignored_segment(url@)) by {
                assert(ignored_url_segments()[i as int] == seg@);
            }
            return false;
        }
        i = i + 1;
    }
    let base = chars_of("https://mariadb.com/kb");
    proof {
        reveal_strlit("https://mariadb.com/kb");
    }
    if !matches_at(&v, 0, v.len(), &base) {
        assert(v@.subrange(0, v.len() as int) =~= v@);
        return false;
    }
    assert(v@.subrange(0, v.len() as int) =~= v@);
    let s = skip_prefixes(&v, 0, v.len(), &base);
    !has_char_in(&v, s, v.len(), '.')
}

/// The canonical forms of `urls`, in order, keeping those the crawler follows.
pub fn filter_urls(urls: Vec<String>) -> (r: Vec<String>)
    ensures
        r.deep_view() == spec_filter_urls(urls.deep_view()),
{
    let mut out: Vec<String> = Vec::new();
    let mut i: usize = 0;
    while i < urls.len()
        invariant
            i <= urls.len(),
            out.deep_view() == spec_filter_urls(urls.deep_view().take(i as int)),
        decreases urls.len() - i,
    {
        let f = format_url(urls[i].as_str());
        let ghost before = out.deep_view();
        let keep = valid_url(f.as_str());
        if keep {
            out.push(f);
        }
        proof {
            let taken = urls.deep_view().take(i + 1);
            assert(taken.drop_last() =~= urls.deep_view().take(i as int));
            assert(taken.last() == urls@[i as int]@);
            if keep {
                assert(out.deep_view() =~= before.push(f@));
            } else {
                assert(out.deep_view() =~= before);
            }
        }
        i = i + 1;
    }
    assert(urls.deep_view().take(urls.len() as int) =~= urls.deep_view());
    out
}

/// The texts of `caps`, or `None` where one capture lacks the group.
pub fn present_captures(caps: Vec<Option<String>>) -> (r: Option<Vec<String>>)
    ensures
        r.deep_view() == all_present(caps.deep_view()),
{
    let mut out: Vec<String> = Vec::new();
    let mut i: usize = 0;
    while i < caps.len()
        invariant
            i <= caps.len(),
            all_present(caps.deep_view().take(i as int)) == Some(out.deep_view()),
        decreases caps.len() - i,
    {
        let ghost before = out.deep_view();
        let taken = Ghost(caps.deep_view().take(i + 1));
        proof {
            assert(taken@.drop_last() =~= caps.deep_view().take(i as int));
        }
        match &caps[i] {
            Some(s) => {
                out.push(s.clone());
                proof {
                    assert(out.deep_view() =~= before.push(s@));
                }
            },
            None => {
                proof {
                    assert(all_present(taken@) is None);
                    lemma_all_present_prefix(caps.deep_view(), i as int + 1);
                }
                return None;
            },
        }
        i = i + 1;
    }
    assert(caps.deep_view().take(caps.len() as int) =~= caps.deep_view());
    Some(out)
}

/// A missing group in a prefix of the captures leaves the whole without texts.
proof fn lemma_all_present_prefix(caps: Seq<Option<Seq<char>>>, k: int)
    requires
        0 <= k <= caps.len(),
        all_present(caps.take(k)) is None,
    ensures
        all_present(caps) is None,
    decreases caps.len() - k,
{
    if k < caps.len() {
        assert(caps.take(k + 1).drop_last() =~= caps.take(k));
        lemma_all_present_prefix(caps, k + 1);
    } else {
        assert(caps.take(k) =~= caps);
    }
}

/// The part after `kb/` of every knowledge-base link in `html`, in order;
/// `None` where the pattern cannot be used.
pub fn scrape_raw_urls(html: &str) -> (r: Option<Vec<String>>)
    ensures
        r.deep_view() == spec_raw_urls(html@),
{
    match regex_captures(r#"="(?:(?:https://)?mariadb.com)?/?kb/([^" ]*)""#, html, 1) {
        Some(caps) => present_captures(caps),
        None => None,
    }
}

/// The canonical URLs of the knowledge-base links in `html` that the crawler follows.
pub fn scrape_urls(html: &str) -> (r: Option<Vec<String>>)
    ensures
        r.deep_view() == (match spec_raw_urls(html@) {
            Some(raw) => Some(spec_filter_urls(raw)),
            None => None,
        }),
{
    match scrape_raw_urls(html) {
        Some(raw) => Some(filter_urls(raw)),
        None => None,
    }
}

/// `spec_trim_url` keeps a contiguous part of its input, with no `'/'` at either end.
pub proof fn lemma_trim_url_shape(url: Seq<char>) -> (ab: (int, int))
    ensures
        0 <= ab.0 <= ab.1 <= url.len(),
        spec_trim_url(url) == url.subrange(ab.0, ab.1),
        spec_trim_url(url).len() == 0 || (spec_trim_url(url)[0] != '/' && spec_trim_url(url).last() != '/'),
{
    let s1 = strip_prefixes(url, "https://"@);
    let k1 = lemma_strip_prefixes_suffix(url, "https://"@);
    let s2 = trim_start_char(s1, '/');
    let k2 = lemma_trim_start_char_suffix(s1, '/');
    let s3 = strip_prefixes(s2, "mariadb.com"@);
    let k3 = lemma_strip_prefixes_suffix(s2, "mariadb.com"@);
    let s4 = trim_start_char(s3, '/');
    let k4 = lemma_trim_start_char_suffix(s3, '/');
    let s5 = strip_prefixes(s4, "kb"@);
    let k5 = lemma_strip_prefixes_suffix(s4, "kb"@);
    let s6 = trim_start_char(s5, '/');
    let k6 = lemma_trim_start_char_suffix(s5, '/');
    let s7 = trim_end_char(s6, '/');
    let k7 = lemma_trim_end_char_prefix(s6, '/');
    let a = k1 + k2 + k3 + k4 + k5 + k6;
    assert(s6 =~= url.skip(a));
    assert(s7 =~= url.subrange(a, a + k7));
    if s7.len() > 0 {
        assert(s7[0] == s6[0]);
    }
    (a, a + k7)
}

/// The part of a URL that its canonical form keeps: cut at `'#'` and `'?'`
/// and trimmed.  It holds neither character nor a slash at either end.
pub proof fn lemma_canonical_tail(url: Seq<char>)
    ensures
        ({
            let t = spec_trim_url(before_char(before_char(url, '#'), '?'));
            &&& !has_char(t, '#')
            &&& !has_char(t, '?')
            &&& t.len() == 0 || (t[0] != '/' && t.last() != '/')
            &&& spec_format_url(url) == "https://mariadb.com/kb/"@ + t
        }),
{
    let c1 = before_char(url, '#');
    let j1 = lemma_before_char_prefix(url, '#');
    let c2 = before_char(c1, '?');
    let j2 = lemma_before_char_prefix(c1, '?');
    lemma_subrange_lacks_char(c1, 0, j2, '#');
    assert(c1.subrange(0, j2) =~= c2);
    let (a, b) = lemma_trim_url_shape(c2);
    lemma_subrange_lacks_char(c2, a, b, '#');
    lemma_subrange_lacks_char(c2, a, b, '?');
}

/// A tail without `'#'`, `'?'` or a leading slash, under the knowledge-base
/// address, is trimmed back to itself without its trailing slashes.
pub proof fn lemma_trim_kb_tail(t: Seq<char>)
    requires
        !has_char(t, '#'),
        !has_char(t, '?'),
        t.len() == 0 || t[0] != '/',
    ensures
        !has_char("https://mariadb.com/kb/"@ + t, '#'),
        !has_char("https://mariadb.com/kb/"@ + t, '?'),
        before_char(before_char("https://mariadb.com/kb/"@ + t, '#'), '?') == "https://mariadb.com/kb/"@ + t,
        spec_trim_url("https://mariadb.com/kb/"@ + t) == trim_end_char(t, '/'),
{
    reveal_strlit("https://mariadb.com/kb/");
    reveal_strlit("https://");
    reveal_strlit("mariadb.com");
    reveal_strlit("kb");
    let base = "https://mariadb.com/kb/"@;
    let y = base + t;
    assert(!has_char(y, '#')) by {
        assert forall|i: int| 0 <= i < y.len() implies y[i] != '#' by {
            if i >= base.len() {
                assert(y[i] == t[i - base.len()]);
            }
        }
    }
    lemma_before_absent_char(y, '#');
    assert(!has_char(y, '?')) by {
        assert forall|i: int| 0 <= i < y.len() implies y[i] != '?' by {
            if i >= base.len() {
                assert(y[i] == t[i - base.len()]);
            }
        }
    }
    lemma_before_absent_char(y, '?');
    let h = "https://"@;
    let m = "mariadb.com"@;
    let kb = "kb"@;
    let r4 = kb + seq!['/'] + t;
    let r3 = seq!['/'] + r4;
    let r1 = m + r3;
    assert(y =~= h + r1);
    assert(y.take(h.len() as int) =~= h);
    assert(starts_with(y, h));
    assert(y.skip(h.len() as int) =~= r1);
    assert(strip_prefixes(y, h) == strip_prefixes(r1, h));
    assert(!starts_with(r1, h));
    assert(strip_prefixes(r1, h) == r1);
    assert(trim_start_char(r1, '/') == r1);
    assert(r1.take(m.len() as int) =~= m);
    assert(starts_with(r1, m));
    assert(r1.skip(m.len() as int) =~= r3);
    assert(strip_prefixes(r1, m) == strip_prefixes(r3, m));
    assert(!starts_with(r3, m));
    assert(strip_prefixes(r3, m) == r3);
    assert(r3.drop_first() =~= r4);
    assert(trim_start_char(r3, '/') == trim_start_char(r4, '/'));
    assert(trim_start_char(r4, '/') == r4);
    let r5 = seq!['/'] + t;
    assert(r4.take(kb.len() as int) =~= kb);
    assert(starts_with(r4, kb));
    assert(r4.skip(kb.len() as int) =~= r5);
    assert(strip_prefixes(r4, kb) == strip_prefixes(r5, kb));
    assert(!starts_with(r5, kb));
    assert(strip_prefixes(r5, kb) == r5);
    assert(r5.drop_first() =~= t);
    assert(trim_start_char(r5, '/') == trim_start_char(t, '/'));
    assert(trim_start_char(t, '/') == t);
}

/// A tail without `'#'`, `'?'` or outer slashes, under the knowledge-base
/// address, is cut and trimmed back to itself.
pub proof fn lemma_trim_canonical(t: Seq<char>)
    requires
        !has_char(t, '#'),
        !has_char(t, '?'),
        t.len() == 0 || (t[0] != '/' && t.last() != '/'),
    ensures
        !has_char("https://mariadb.com/kb/"@ + t, '#'),
        !has_char("https://mariadb.com/kb/"@ + t, '?'),
        before_char(before_char("https://mariadb.com/kb/"@ + t, '#'), '?') == "https://mariadb.com/kb/"@ + t,
        spec_trim_url("https://mariadb.com/kb/"@ + t) == t,
{
    lemma_trim_kb_tail(t);
    assert(trim_end_char(t, '/') == t);
}

/// The canonical form of a URL is its own canonical form: `format_url` is idempotent.
pub proof fn lemma_format_url_idempotent(url: Seq<char>)
    ensures
        spec_format_url(spec_format_url(url)) == spec_format_url(url),
{
    lemma_canonical_tail(url);
    lemma_trim_canonical(spec_trim_url(before_char(before_char(url, '#'), '?')));
}

/// Every URL that `filter_urls` keeps is one the crawler follows, in canonical form.
pub proof fn lemma_filtered_urls_are_valid(urls: Seq<Seq<char>>)
    ensures
        forall|i: int|
            0 <= i < spec_filter_urls(urls).len() ==> spec_valid_url(#[trigger] spec_filter_urls(urls)[i])
                && spec_format_url(spec_filter_urls(urls)[i]) == spec_filter_urls(urls)[i],
    decreases urls.len(),
{
    if urls.len() > 0 {
        lemma_filtered_urls_are_valid(urls.drop_last());
        lemma_format_url_idempotent(urls.last());
        let rest = spec_filter_urls(urls.drop_last());
        let all = spec_filter_urls(urls);
        assert forall|i: int| 0 <= i < all.len() implies spec_valid_url(#[trigger] all[i])
            && spec_format_url(all[i]) == all[i] by {
            if i < rest.len() {
                assert(all[i] == rest[i]);
            }
        }
    }
}

/// Every link the crawler follows is kept: the canonical form of each URL
/// that is valid in that form is among the filtered URLs.
pub proof fn lemma_valid_urls_are_kept(urls: Seq<Seq<char>>)
    ensures
        forall|i: int|
            0 <= i < urls.len() && spec_valid_url(spec_format_url(#[trigger] urls[i])) ==> spec_filter_urls(
                urls,
            ).contains(spec_format_url(urls[i])),
    decreases urls.len(),
{
    if urls.len() > 0 {
        let prev = urls.drop_last();
        lemma_valid_urls_are_kept(prev);
        let rest = spec_filter_urls(prev);
        let all = spec_filter_urls(urls);
        assert forall|i: int|
            0 <= i < urls.len() && spec_valid_url(spec_format_url(#[trigger] urls[i])) implies all.contains(
                spec_format_url(urls[i]),
            ) by {
            if i < urls.len() - 1 {
                assert(prev[i] == urls[i]);
                let w = choose|k: int| 0 <= k < rest.len() && #[trigger] rest[k] == spec_format_url(prev[i]);
                assert(all[w] == rest[w]);
            } else {
                assert(all.last() == spec_format_url(urls.last()));
            }
        }
    }
}

/// A text whose first character differs from a pattern's does not start with it.
proof fn lemma_first_char_differs(s: Seq<char>, p: Seq<char>)
    requires
        s.len() > 0,
        p.len() > 0,
        s[0] != p[0],
    ensures
        !starts_with(s, p),
{
    if starts_with(s, p) {
        assert(s.take(p.len() as int)[0] == s[0]);
    }
}

/// The steps of `trim_url` after the host, on `kb/` followed by any text.
proof fn lemma_trim_from_kb(s: Seq<char>)
    ensures
        trim_char(strip_prefixes(trim_start_char("kb/"@ + s, '/'), "kb"@), '/') == trim_char(s, '/'),
{
    reveal_strlit("kb/");
    reveal_strlit("kb");
    let k = "kb/"@ + s;
    let kb = "kb"@;
    let r5 = seq!['/'] + s;
    assert(trim_start_char(k, '/') == k);
    assert(k.take(kb.len() as int) =~= kb);
    assert(k.skip(kb.len() as int) =~= r5);
    assert(strip_prefixes(k, kb) == strip_prefixes(r5, kb));
    lemma_first_char_differs(r5, kb);
    assert(strip_prefixes(r5, kb) == r5);
    assert(r5.drop_first() =~= s);
    assert(trim_start_char(r5, '/') == trim_start_char(s, '/'));
}

/// The steps of `trim_url` after the scheme, on `mariadb.com/kb/` followed by any text.
proof fn lemma_trim_from_host(s: Seq<char>)
    ensures
        trim_char(
            strip_prefixes(
                trim_start_char(strip_prefixes(trim_start_char("mariadb.com/kb/"@ + s, '/'), "mariadb.com"@), '/'),
                "kb"@,
            ),
            '/',
        ) == trim_char(s, '/'),
{
    reveal_strlit("mariadb.com/kb/");
    reveal_strlit("mariadb.com");
    reveal_strlit("kb/");
    let m = "mariadb.com"@;
    let k = "kb/"@ + s;
    let r3 = seq!['/'] + k;
    let y = "mariadb.com/kb/"@ + s;
    assert(y =~= m + r3);
    assert(trim_start_char(y, '/') == y);
    assert(y.take(m.len() as int) =~= m);
    assert(y.skip(m.len() as int) =~= r3);
    assert(strip_prefixes(y, m) == strip_prefixes(r3, m));
    lemma_first_char_differs(r3, m);
    assert(strip_prefixes(r3, m) == r3);
    assert(r3.drop_first() =~= k);
    assert(trim_start_char(r3, '/') == trim_start_char(k, '/'));
    assert(k[0] == 'k');
    assert(trim_start_char(k, '/') == k);
    lemma_trim_from_kb(s);
}

/// `trim_url` of any text behind the knowledge base's address, written in
/// full, without the scheme, from `/kb/` or from `kb/`, is that text without
/// its outer slashes: a part of the input with no `'/'` at either end.
pub proof fn lemma_trim_url_of_kb_address(s: Seq<char>)
    ensures
        spec_trim_url("https://mariadb.com/kb/"@ + s) == trim_char(s, '/'),
        spec_trim_url("mariadb.com/kb/"@ + s) == trim_char(s, '/'),
        spec_trim_url("/kb/"@ + s) == trim_char(s, '/'),
        spec_trim_url("kb/"@ + s) == trim_char(s, '/'),
        trim_char(s, '/').len() == 0 || (trim_char(s, '/')[0] != '/' && trim_char(s, '/').last() != '/'),
{
    reveal_strlit("https://mariadb.com/kb/");
    reveal_strlit("mariadb.com/kb/");
    reveal_strlit("/kb/");
    reveal_strlit("kb/");
    reveal_strlit("https://");
    reveal_strlit("mariadb.com");
    reveal_strlit("kb");
    let h = "https://"@;
    let m = "mariadb.com"@;
    let kb = "kb"@;
    // full address
    let y = "mariadb.com/kb/"@ + s;
    let full = "https://mariadb.com/kb/"@ + s;
    assert(full =~= h + y);
    assert(full.take(h.len() as int) =~= h);
    assert(full.skip(h.len() as int) =~= y);
    assert(strip_prefixes(full, h) == strip_prefixes(y, h));
    lemma_first_char_differs(y, h);
    assert(strip_prefixes(y, h) == y);
    lemma_trim_from_host(s);
    // from `kb/`
    let k = "kb/"@ + s;
    lemma_first_char_differs(k, h);
    assert(strip_prefixes(k, h) == k);
    assert(trim_start_char(k, '/') == k);
    lemma_first_char_differs(k, m);
    assert(strip_prefixes(k, m) == k);
    lemma_trim_from_kb(s);
    // from `/kb/`
    let sk = "/kb/"@ + s;
    assert(sk =~= seq!['/'] + k);
    lemma_first_char_differs(sk, h);
    assert(strip_prefixes(sk, h) == sk);
    assert(sk.drop_first() =~= k);
    assert(trim_start_char(sk, '/') == trim_start_char(k, '/'));
    // the result's shape
    let (a, b) = lemma_trim_url_shape(k);
}

/// A segment `/name/` less its trailing slash is `/name`.
proof fn lemma_trim_segment(seg: Seq<char>, bare: Seq<char>)
    requires
        bare.len() > 0,
        bare.last() != '/',
        seg == bare.push('/'),
    ensures
        trim_end_char(seg, '/') == bare,
{
    assert(seg.drop_last() =~= bare);
    assert(seg.last() == '/');
    assert(trim_end_char(bare, '/') == bare);
}

/// The URLs the crawler follows, said in full: those under
/// `https://mariadb.com/kb` with no `'.'` after that prefix, that hold none of
/// the page kinds `/+change_order/`, `/add/`, `/ask/`, `/remove/`,
/// `/+history/`, `/+translate/`, `/+flag/`, `/post/`, `/+r/` anywhere and do
/// not end in one of them less its trailing slash (`.../add`).  The slash
/// before the name stays: an article such as `.../en/date_add` is followed.
pub proof fn lemma_valid_url_exactly(url: Seq<char>)
    ensures
        spec_valid_url(url) <==> {
            &&& starts_with(url, "https://mariadb.com/kb"@)
            &&& !has_char(strip_prefixes(url, "https://mariadb.com/kb"@), '.')
            &&& !contains_seq(url, "/+change_order/"@)
            &&& !ends_with(url, "/+change_order"@)
            &&& !contains_seq(url, "/add/"@)
            &&& !ends_with(url, "/add"@)
            &&& !contains_seq(url, "/ask/"@)
            &&& !ends_with(url, "/ask"@)
            &&& !contains_seq(url, "/remove/"@)
            &&& !ends_with(url, "/remove"@)
            &&& !contains_seq(url, "/+history/"@)
            &&& !ends_with(url, "/+history"@)
            &&& !contains_seq(url, "/+translate/"@)
            &&& !ends_with(url, "/+translate"@)
            &&& !contains_seq(url, "/+flag/"@)
            &&& !ends_with(url, "/+flag"@)
            &&& !contains_seq(url, "/post/"@)
            &&& !ends_with(url, "/post"@)
            &&& !contains_seq(url, "/+r/"@)
            &&& !ends_with(url, "/+r"@)
        },
{
    reveal_strlit("/+change_order/");
    reveal_strlit("/+change_order");
    assert("/+change_order/"@ =~= "/+change_order"@.push('/'));
    lemma_trim_segment("/+change_order/"@, "/+change_order"@);
    assert(ignored_url_segments()[0] == "/+change_order/"@);
    reveal_strlit("/add/");
    reveal_strlit("/add");
    assert("/add/"@ =~= "/add"@.push('/'));
    lemma_trim_segment("/add/"@, "/add"@);
    assert(ignored_url_segments()[1] == "/add/"@);
    reveal_strlit("/ask/");
    reveal_strlit("/ask");
    assert("/ask/"@ =~= "/ask"@.push('/'));
    lemma_trim_segment("/ask/"@, "/ask"@);
    assert(ignored_url_segments()[2] == "/ask/"@);
    reveal_strlit("/remove/");
    reveal_strlit("/remove");
    assert("/remove/"@ =~= "/remove"@.push('/'));
    lemma_trim_segment("/remove/"@, "/remove"@);
    assert(ignored_url_segments()[3] == "/remove/"@);
    reveal_strlit("/+history/");
    reveal_strlit("/+history");
    assert("/+history/"@ =~= "/+history"@.push('/'));
    lemma_trim_segment("/+history/"@, "/+history"@);
    assert(ignored_url_segments()[4] == "/+history/"@);
    reveal_strlit("/+translate/");
    reveal_strlit("/+translate");
    assert("/+translate/"@ =~= "/+translate"@.push('/'));
    lemma_trim_segment("/+translate/"@, "/+translate"@);
    assert(ignored_url_segments()[5] == "/+translate/"@);
    reveal_strlit("/+flag/");
    reveal_strlit("/+flag");
    assert("/+flag/"@ =~= "/+flag"@.push('/'));
    lemma_trim_segment("/+flag/"@, "/+flag"@);
    assert(ignored_url_segments()[6] == "/+flag/"@);
    reveal_strlit("/post/");
    reveal_strlit("/post");
    assert("/post/"@ =~= "/post"@.push('/'));
    lemma_trim_segment("/post/"@, "/post"@);
    assert(ignored_url_segments()[7] == "/post/"@);
    reveal_strlit("/+r/");
    reveal_strlit("/+r");
    assert("/+r/"@ =~= "/+r"@.push('/'));
    lemma_trim_segment("/+r/"@, "/+r"@);
    assert(ignored_url_segments()[8] == "/+r/"@);
    assert(ignored_url_segments().len() == 9);
    let any = contains_seq(url, "/+change_order/"@) || ends_with(url, "/+change_order"@) || contains_seq(url, "/add/"@) || ends_with(url, "/add"@) || contains_seq(url, "/ask/"@) || ends_with(url, "/ask"@) || contains_seq(url, "/remove/"@) || ends_with(url, "/remove"@) || contains_seq(url, "/+history/"@) || ends_with(url, "/+history"@) || contains_seq(url, "/+translate/"@) || ends_with(url, "/+translate"@) || contains_seq(url, "/+flag/"@) || ends_with(url, "/+flag"@) || contains_seq(url, "/post/"@) || ends_with(url, "/post"@) || contains_seq(url, "/+r/"@) || ends_with(url, "/+r"@);
    assert forall|i: int|
        0 <= i < 9 && ({
            let seg = #[trigger] ignored_url_segments()[i];
            contains_seq(url, seg) || ends_with(url, trim_end_char(seg, '/'))
        }) implies any by {
        if i == 0 {
                assert(ignored_url_segments()[i] == "/+change_order/"@);
            } else if i == 1 {
                assert(ignored_url_segments()[i] == "/add/"@);
            } else if i == 2 {
                assert(ignored_url_segments()[i] == "/ask/"@);
            } else if i == 3 {
                assert(ignored_url_segments()[i] == "/remove/"@);
            } else if i == 4 {
                assert(ignored_url_segments()[i] == "/+history/"@);
            } else if i == 5 {
                assert(ignored_url_segments()[i] == "/+translate/"@);
            } else if i == 6 {
                assert(ignored_url_segments()[i] == "/+flag/"@);
            } else if i == 7 {
                assert(ignored_url_segments()[i] == "/post/"@);
            } else {
                assert(ignored_url_segments()[i] == "/+r/"@);
            }
    }
    assert(hits_ignored_segment(url) == any);
}

} // verus!
