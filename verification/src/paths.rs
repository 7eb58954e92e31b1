//! Where the crawler stores each knowledge-base page in the archive, and which
//! URL a stored file stands for.
use vstd::prelude::*;
use crate::fs_path::{has_extension, joined_path, path_has_extension, path_join};
use crate::scrape::{lemma_trim_kb_tail, lemma_trim_url_shape, spec_format_url, spec_trim_url, trim_url};
use crate::text::{
    before_char, chars_of, cut_at_char, ends_with, find_char, has_char, replace_char, replace_char_str,
    starts_with, trim_end_char, strip_prefixes, strip_prefixes_str, strip_suffixes, strip_suffixes_str,
};

verus! {

/// The part of `url` before its first `'#'`, or where it has none, before its first `'?'`.
pub open spec fn before_fragment_or_query(url: Seq<char>) -> Seq<char> {
    if has_char(url, '#') {
        before_char(url, '#')
    } else {
        before_char(url, '?')
    }
}

/// The archive-relative part of a URL.
pub open spec fn spec_url_suffix(url: Seq<char>) -> Seq<char> {
    spec_trim_url(before_fragment_or_query(url))
}

/// A URL's path below the archive root: its suffix, with `index.html` joined on
/// where the suffix's file name has no extension.
pub open spec fn spec_page_path(suffix: Seq<char>) -> Seq<char> {
    if path_has_extension(suffix) {
        suffix
    } else {
        joined_path(suffix, "index.html"@)
    }
}

/// The file the page at `url` is stored in, under `root`.
pub open spec fn spec_url_to_path(root: Seq<char>, url: Seq<char>) -> Seq<char> {
    joined_path(root, spec_page_path(spec_url_suffix(url)))
}

/// The URL of the page stored at `path` in the archive at `archive_path`.
pub open spec fn spec_path_to_url(path: Seq<char>, archive_path: Seq<char>) -> Seq<char> {
    "https://mariadb.com/kb"@ + replace_char(
        strip_suffixes(strip_prefixes(path, archive_path), "index.html"@),
        '\\',
        "/"@,
    )
}

/// The part of `url` that names its place in the archive: cut at the first
/// `'#'` (or, if there is none, the first `'?'`) and trimmed by `trim_url`.
pub fn get_url_suffix(url: &str) -> (r: &str)
    ensures
        r@ == spec_url_suffix(url@),
{
    let v = chars_of(url);
    let hash = find_char(&v, v.len(), '#');
    let k = match hash {
        Some(_) => cut_at_char(&v, v.len(), '#'),
        None => cut_at_char(&v, v.len(), '?'),
    };
    proof {
        assert(v@.take(v.len() as int) =~= url@);
        match hash {
            Some(h) => {
                assert(url@[h as int] == '#');
            },
            None => {},
        }
    }
    let cut = url.substring_char(0, k);
    assert(cut@ =~= v@.take(k as int));
    trim_url(cut)
}

/// The path below the archive root of a page whose suffix is `suffix`.
pub fn page_path(suffix: &str) -> (r: String)
    ensures
        r@ == spec_page_path(suffix@),
{
    if has_extension(suffix) {
        suffix.to_owned()
    } else {
        path_join(suffix, "index.html")
    }
}

/// The file under `root` that the page at `url` is stored in.
pub fn url_to_path(root: &str, url: &str) -> (r: String)
    ensures
        r@ == spec_url_to_path(root@, url@),
{
    let p = page_path(get_url_suffix(url));
    path_join(root, p.as_str())
}

/// The URL of the page stored at `path`, where `archive_path` is the archive's
/// root: the root and every trailing `index.html` removed, backslashes turned
/// into slashes, under `https://mariadb.com/kb`.
pub fn path_to_url(path: &str, archive_path: &str) -> (r: String)
    ensures
        r@ == spec_path_to_url(path@, archive_path@),
{
    let inner = strip_suffixes_str(strip_prefixes_str(path, archive_path), "index.html");
    let tail = replace_char_str(inner, '\\', "/");
    let mut r = "https://mariadb.com/kb".to_owned();
    r.append(tail.as_str());
    r
}

/// Replacing a character that does not occur leaves a text as it is.
proof fn lemma_replace_absent_char(s: Seq<char>, from: char, to: Seq<char>)
    requires
        !has_char(s, from),
    ensures
        replace_char(s, from, to) == s,
    decreases s.len(),
{
    if s.len() > 0 {
        assert(!has_char(s.drop_last(), from)) by {
            assert forall|i: int| 0 <= i < s.drop_last().len() implies s.drop_last()[i] != from by {
                assert(s.drop_last()[i] == s[i]);
            }
        }
        lemma_replace_absent_char(s.drop_last(), from, to);
        assert(s.drop_last() + seq![s.last()] =~= s);
    }
}

/// The file the crawler stores a page in stands, by `path_to_url`, for the
/// page's URL in canonical form with a trailing slash.  This holds for Unix
/// paths under a root that is non-empty, ends in neither a slash nor a backslash and
/// does not recur at the start of the path below it, and for a page whose
/// suffix is non-empty, holds no backslash and has no file extension (it is
/// stored as `index.html` in its own directory).
pub proof fn lemma_stored_page_names_its_url(root: Seq<char>, url: Seq<char>)
    requires
        root.len() > 0,
        root.last() != '/',
        root.last() != '\\',
        spec_url_suffix(url).len() > 0,
        !has_char(spec_url_suffix(url), '\\'),
        !path_has_extension(spec_url_suffix(url)),
        !starts_with(seq!['/'] + spec_url_suffix(url) + "/index.html"@, root),
    ensures
        spec_path_to_url(spec_url_to_path(root, url), root) == "https://mariadb.com/kb/"@ + spec_url_suffix(url)
            + seq!['/'],
        !has_char(spec_url_suffix(url), '#') && !has_char(spec_url_suffix(url), '?') ==> spec_format_url(
            spec_path_to_url(spec_url_to_path(root, url), root),
        ) == "https://mariadb.com/kb/"@ + spec_url_suffix(url),
{
    reveal_strlit("index.html");
    reveal_strlit("/index.html");
    reveal_strlit("https://mariadb.com/kb");
    reveal_strlit("https://mariadb.com/kb/");
    let s = spec_url_suffix(url);
    let (a, b) = lemma_trim_url_shape(before_fragment_or_query(url));
    let ix = "index.html"@;
    assert(s[0] != '/' && s.last() != '/');
    let page = s + seq!['/'] + ix;
    assert(spec_page_path(s) == page);
    assert(page[0] == s[0]);
    let q = seq!['/'] + page;
    let full = root + q;
    assert(spec_url_to_path(root, url) == full);
    assert(full.take(root.len() as int) =~= root);
    assert(full.skip(root.len() as int) =~= q);
    assert(strip_prefixes(full, root) == strip_prefixes(q, root));
    assert(q =~= seq!['/'] + s + "/index.html"@);
    assert(strip_prefixes(q, root) == q);
    let w = seq!['/'] + s + seq!['/'];
    assert(q =~= w + ix);
    assert(q.skip(q.len() - ix.len()) =~= ix);
    assert(q.take(q.len() - ix.len()) =~= w);
    assert(strip_suffixes(q, ix) == strip_suffixes(w, ix));
    if ends_with(w, ix) {
        assert(w.skip(w.len() - ix.len())[ix.len() - 1] == w.last());
    }
    assert(strip_suffixes(w, ix) == w);
    assert(!has_char(w, '\\')) by {
        assert forall|i: int| 0 <= i < w.len() implies w[i] != '\\' by {
            if 0 < i < w.len() - 1 {
                assert(w[i] == s[i - 1]);
            }
        }
    }
    lemma_replace_absent_char(w, '\\', "/"@);
    assert("https://mariadb.com/kb"@ + w =~= "https://mariadb.com/kb/"@ + s + seq!['/']);
    if !has_char(s, '#') && !has_char(s, '?') {
        let t = s + seq!['/'];
        assert(!has_char(t, '#') && !has_char(t, '?')) by {
            assert forall|i: int| 0 <= i < t.len() implies t[i] != '#' && t[i] != '?' by {
                if i < s.len() {
                    assert(t[i] == s[i]);
                }
            }
        }
        lemma_trim_kb_tail(t);
        assert(t.drop_last() =~= s);
        assert(trim_end_char(s, '/') == s);
        assert(trim_end_char(t, '/') == s);
        assert("https://mariadb.com/kb/"@ + s + seq!['/'] =~= "https://mariadb.com/kb/"@ + t);
    }
}

} // verus!
