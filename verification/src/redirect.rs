//! Redirect files: where the knowledge base redirected a URL, the archive keeps,
//! at the requested URL's place, a small text file naming the target.
use vstd::prelude::*;
use crate::bindings::utf8_text;
use crate::fs_path::{joined_path, path_join};
use crate::paths::{spec_url_to_path, url_to_path};
use crate::text::{chars_of, matches_at, starts_with, strip_prefixes, strip_prefixes_str};
use crate::url_to_path::{spec_url_to_index_path, url_to_index_path};

verus! {

broadcast use vstd::utf8::group_utf8_lib;

/// The text of the redirect file for a target URL.
pub open spec fn spec_create(url: Seq<char>) -> Seq<char> {
    "Redirect "@ + url
}

/// The target a stored file redirects to: where its bytes are UTF-8 text that
/// starts with `Redirect`, that text with every leading `"Redirect "` removed.
pub open spec fn spec_redirect_target(content: Seq<u8>) -> Option<Seq<char>> {
    if vstd::utf8::valid_utf8(content) && starts_with(vstd::utf8::decode_utf8(content), "Redirect"@) {
        Some(strip_prefixes(vstd::utf8::decode_utf8(content), "Redirect "@))
    } else {
        None
    }
}

/// The redirect file's text for `url`.
pub fn create(url: &str) -> (r: String)
    ensures
        r@ == spec_create(url@),
{
    let mut r = "Redirect ".to_owned();
    r.append(url);
    r
}

/// The URL a stored file redirects to, if it is a redirect file.
pub fn redirect_target(content: &[u8]) -> (r: Option<&str>)
    ensures
        match spec_redirect_target(content@) {
            Some(t) => r matches Some(s) && s@ == t,
            None => r is None,
        },
{
    match utf8_text(content) {
        None => None,
        Some(text) => {
            let v = chars_of(text);
            let word = chars_of("Redirect");
            assert(v@.subrange(0, v.len() as int) =~= v@);
            if matches_at(&v, 0, v.len(), &word) {
                Some(strip_prefixes_str(text, "Redirect "))
            } else {
                None
            }
        },
    }
}

/// The crawler's archive file that a stored redirect points to, under `root`.
pub fn redirected_path(root: &str, content: &[u8]) -> (r: Option<String>)
    ensures
        match spec_redirect_target(content@) {
            Some(t) => r matches Some(p) && p@ == spec_url_to_path(root@, t),
            None => r is None,
        },
{
    match redirect_target(content) {
        Some(t) => Some(url_to_path(root, t)),
        None => None,
    }
}

/// The server's file, under `base_path`, that a stored redirect points to.
pub fn redirected_index_path(base_path: &str, content: &[u8]) -> (r: Option<String>)
    ensures
        match spec_redirect_target(content@) {
            Some(t) => r matches Some(p) && p@ == joined_path(base_path@, spec_url_to_index_path(t)),
            None => r is None,
        },
{
    match redirect_target(content) {
        Some(t) => {
            let p = url_to_index_path(t);
            Some(path_join(base_path, p.as_str()))
        },
        None => None,
    }
}

/// A redirect file written for `url` (as the UTF-8 bytes of its text) reads back
/// as a redirect to `url`, for every `url` that does not itself start with
/// `"Redirect "`.
pub proof fn lemma_redirect_round_trip(url: Seq<char>)
    requires
        !starts_with(url, "Redirect "@),
    ensures
        spec_redirect_target(vstd::utf8::encode_utf8(spec_create(url))) == Some(url),
{
    reveal_strlit("Redirect ");
    reveal_strlit("Redirect");
    let text = spec_create(url);
    assert(vstd::utf8::decode_utf8(vstd::utf8::encode_utf8(text)) == text);
    assert(text.take(8) =~= "Redirect"@);
    assert(text.take(9) =~= "Redirect "@);
    assert(text.skip(9) =~= url);
    assert(vstd::utf8::valid_utf8(vstd::utf8::encode_utf8(text)));
    assert(starts_with(text, "Redirect"@));
    assert(starts_with(text, "Redirect "@));
    assert(strip_prefixes(url, "Redirect "@) == url);
    assert(strip_prefixes(text, "Redirect "@) == strip_prefixes(text.skip(9), "Redirect "@));
}

} // verus!
