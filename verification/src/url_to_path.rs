//! Which file of the archive the server answers a knowledge-base URL with.
use vstd::prelude::*;
use crate::paths::{before_fragment_or_query, spec_url_suffix, spec_url_to_path};
use crate::scrape::{lemma_canonical_tail, lemma_trim_canonical, lemma_trim_kb_tail, spec_format_url, spec_trim_url};
use crate::text::{lemma_before_absent_char, starts_with};
use crate::fs_path::{
    has_extension, joined_path, lemma_collapse_append, lemma_collapse_slash_run, lemma_file_name_trailing_slashes,
    lemma_normal_trailing_slashes, path_has_extension, path_join, same_path,
};
use crate::text::{
    before_char, chars_of, cut_at_char, find_char, has_char, lemma_trim_end_char_prefix, strip_prefixes,
    strip_prefixes_str, trim_end_char, trim_start_char, skip_char,
};

verus! {

/// The part of `url` before its first `'?'`, or where it has none, before its first `'#'`.
pub open spec fn before_query_or_fragment(url: Seq<char>) -> Seq<char> {
    if has_char(url, '?') {
        before_char(url, '?')
    } else {
        before_char(url, '#')
    }
}

/// The archive-relative part of a requested URL: cut, then stripped of
/// leading `"https://"`, `'/'`, `"mariadb.com/"` and `"kb/"` in turn.
pub open spec fn spec_request_suffix(url: Seq<char>) -> Seq<char> {
    strip_prefixes(
        strip_prefixes(
            trim_start_char(strip_prefixes(before_query_or_fragment(url), "https://"@), '/'),
            "mariadb.com/"@,
        ),
        "kb/"@,
    )
}

/// The file the server reads for `url`: its suffix, with `index.html` joined on
/// where the suffix's file name has no extension.
pub open spec fn spec_url_to_index_path(url: Seq<char>) -> Seq<char> {
    let p = spec_request_suffix(url);
    if path_has_extension(p) {
        p
    } else {
        joined_path(p, "index.html"@)
    }
}

/// The archive-relative part of a requested URL.
pub fn get_url_suffix(url: &str) -> (r: &str)
    ensures
        r@ == spec_request_suffix(url@),
{
    let v = chars_of(url);
    let query = find_char(&v, v.len(), '?');
    let k = match query {
        Some(_) => cut_at_char(&v, v.len(), '?'),
        None => cut_at_char(&v, v.len(), '#'),
    };
    proof {
        assert(v@.take(v.len() as int) =~= url@);
        match query {
            Some(h) => {
                assert(url@[h as int] == '?');
            },
            None => {},
        }
    }
    let cut = url.substring_char(0, k);
    assert(cut@ =~= v@.take(k as int));
    let a = strip_prefixes_str(cut, "https://");
    let av = chars_of(a);
    assert(av@.subrange(0, av.len() as int) =~= a@);
    let b = skip_char(&av, 0, av.len(), '/');
    let bs = a.substring_char(b, av.len());
    let c = strip_prefixes_str(bs, "mariadb.com/");
    strip_prefixes_str(c, "kb/")
}

/// The path below the archive root that names `url`.
pub fn url_to_path(url: &str) -> (r: String)
    ensures
        r@ == spec_request_suffix(url@),
{
    get_url_suffix(url).to_owned()
}

/// The file below the archive root that the server reads for `url`.
pub fn url_to_index_path(url: &str) -> (r: String)
    ensures
        r@ == spec_url_to_index_path(url@),
{
    let path = url_to_path(url);
    if has_extension(path.as_str()) {
        return path;
    }
    path_join(path.as_str(), "index.html")
}

/// The server answers the canonical URL of a page with the very file the
/// crawler stored that page in, under the same root.  This holds for every
/// URL but those whose canonical path below `kb/` itself starts with `kb/`
/// (the server strips that prefix once more).
pub proof fn lemma_server_serves_crawled_page(root: Seq<char>, url: Seq<char>)
    requires
        !starts_with(spec_trim_url(before_char(before_char(url, '#'), '?')), "kb/"@),
    ensures
        spec_url_to_path(root, spec_format_url(url)) == joined_path(root, spec_url_to_index_path(spec_format_url(url))),
{
    let t = spec_trim_url(before_char(before_char(url, '#'), '?'));
    lemma_canonical_tail(url);
    lemma_trim_canonical(t);
    let f = spec_format_url(url);
    lemma_before_absent_char(f, '#');
    lemma_before_absent_char(f, '?');
    assert(before_fragment_or_query(f) == f);
    assert(spec_url_suffix(f) == t);
    lemma_request_suffix_of_kb_url(t);
}

/// The server's suffix of a URL under the knowledge-base address is the tail
/// itself, where the tail does not start with `kb/` and holds no `'?'` or `'#'`.
proof fn lemma_request_suffix_of_kb_url(s: Seq<char>)
    requires
        !has_char(s, '#'),
        !has_char(s, '?'),
        !starts_with(s, "kb/"@),
        !has_char("https://mariadb.com/kb/"@ + s, '?'),
        !has_char("https://mariadb.com/kb/"@ + s, '#'),
    ensures
        spec_request_suffix("https://mariadb.com/kb/"@ + s) == s,
{
    reveal_strlit("https://mariadb.com/kb/");
    reveal_strlit("https://");
    reveal_strlit("mariadb.com/");
    reveal_strlit("kb/");
    let f = "https://mariadb.com/kb/"@ + s;
    lemma_before_absent_char(f, '#');
    assert(before_query_or_fragment(f) == f);
    let h = "https://"@;
    let m = "mariadb.com/"@;
    let kb = "kb/"@;
    let r2 = kb + s;
    let r1 = m + r2;
    assert(f =~= h + r1);
    assert(f.take(h.len() as int) =~= h);
    assert(f.skip(h.len() as int) =~= r1);
    assert(strip_prefixes(f, h) == strip_prefixes(r1, h));
    assert(!starts_with(r1, h));
    assert(strip_prefixes(r1, h) == r1);
    assert(trim_start_char(r1, '/') == r1);
    assert(r1.take(m.len() as int) =~= m);
    assert(r1.skip(m.len() as int) =~= r2);
    assert(strip_prefixes(r1, m) == strip_prefixes(r2, m));
    assert(!starts_with(r2, m));
    assert(strip_prefixes(r2, m) == r2);
    assert(r2.take(kb.len() as int) =~= kb);
    assert(r2.skip(kb.len() as int) =~= s);
    assert(strip_prefixes(r2, kb) == strip_prefixes(s, kb));
    assert(strip_prefixes(s, kb) == s);
}

/// For every knowledge-base URL `https://mariadb.com/kb/` + `s`, canonical or
/// not, the file the server reads under `root` is the path the crawler stored
/// the page at: the two texts differ at most in repeated and trailing slashes,
/// which `std::path` does not count.  `s` holds no `'?'` or `'#'` and starts
/// with neither `'/'` nor `kb/` (the server strips that prefix once more).
pub proof fn lemma_server_finds_crawled_file(root: Seq<char>, s: Seq<char>)
    requires
        !has_char(s, '#'),
        !has_char(s, '?'),
        s.len() == 0 || s[0] != '/',
        !starts_with(s, "kb/"@),
    ensures
        same_path(
            spec_url_to_path(root, "https://mariadb.com/kb/"@ + s),
            joined_path(root, spec_url_to_index_path("https://mariadb.com/kb/"@ + s)),
        ),
{
    reveal_strlit("index.html");
    let u = "https://mariadb.com/kb/"@ + s;
    lemma_trim_kb_tail(s);
    lemma_before_absent_char(u, '?');
    assert(before_fragment_or_query(u) == u);
    let t = trim_end_char(s, '/');
    assert(spec_url_suffix(u) == t);
    lemma_request_suffix_of_kb_url(s);
    assert(spec_request_suffix(u) == s);
    lemma_file_name_trailing_slashes(s);
    assert(path_has_extension(s) == path_has_extension(t));
    let ix = "index.html"@;
    let r = if root.len() == 0 || root.last() == '/' {
        root
    } else {
        root + seq!['/']
    };
    if s.len() > 0 {
        let k = lemma_trim_end_char_prefix(s, '/');
        if k == 0 {
            assert(s.take(0).len() == 0);
            assert(trim_end_char(s, '/') == trim_end_char(s.drop_last(), '/'));
        }
        lemma_trim_end_nonempty(s);
        assert(t.len() > 0);
        assert(t[0] == s[0]);
        assert(t.last() != '/');
        if path_has_extension(t) {
            assert(joined_path(root, t) == r + t);
            assert(joined_path(root, s) == r + s);
            lemma_normal_trailing_slashes(r, s);
        } else if s.last() != '/' {
            assert(t == s);
        } else {
            let a = t + seq!['/'] + ix;
            let b = s + ix;
            assert(joined_path(t, ix) == a);
            assert(joined_path(s, ix) == b);
            assert(a[0] == s[0]);
            assert(b[0] == s[0]);
            assert(joined_path(root, a) == r + a);
            assert(joined_path(root, b) == r + b);
            lemma_collapse_slash_run(r, s);
            lemma_collapse_append(r + s, r + t + seq!['/'], ix);
            assert(r + b =~= (r + s) + ix);
            assert(r + a =~= (r + t + seq!['/']) + ix);
        }
    }
}

/// A text that does not start with `'/'` keeps a non-empty part when its
/// trailing slashes are removed.
proof fn lemma_trim_end_nonempty(s: Seq<char>)
    requires
        s.len() > 0,
        s[0] != '/',
    ensures
        trim_end_char(s, '/').len() > 0,
        trim_end_char(s, '/')[0] == s[0],
    decreases s.len(),
{
    if s.last() == '/' {
        lemma_trim_end_nonempty(s.drop_last());
    }
}

} // verus!
