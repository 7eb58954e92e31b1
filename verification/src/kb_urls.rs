//! The list of knowledge-base URLs kept beside the archive (`kb_urls.csv`), and
//! which archived English articles it lacks.
use vstd::prelude::*;
use vstd::hash_set::StringHashSet;
use crate::text::{has_char, has_char_in, chars_of, join_seqs, join_with, split_char, split_on_char, trim_whitespace, trim_ws};

verus! {

/// A row of `kb_urls.csv`: an article's URL and its other slugs, separated by `';'`.
#[derive(Debug)]
pub struct KbItem {
    pub url: String,
    pub slugs: String,
}

/// The URL of the English article at `path`.
pub open spec fn article_url(path: Seq<char>) -> Seq<char> {
    "https://mariadb.com/kb/en/"@ + path + "/"@
}

/// `u` is the URL of the row, or the article URL of one of its slugs.
pub open spec fn row_names(url: Seq<char>, slugs: Seq<char>, u: Seq<char>) -> bool {
    u == url || exists|j: int|
        0 <= j < split_char(slugs, ';').len() && u == article_url(#[trigger] split_char(slugs, ';')[j])
}

/// The URLs named by the first `n` rows.
pub open spec fn urls_of_rows(rows: Seq<KbItem>, n: int) -> Set<Seq<char>> {
    Set::new(|u: Seq<char>| exists|i: int| 0 <= i < n && row_names(#[trigger] rows[i].url@, rows[i].slugs@, u))
}

/// The English articles of `listing` (comma-separated paths, each trimmed)
/// whose URL `known` lacks, as URLs in order; a path holding `'+'` is passed over.
pub open spec fn spec_missing_urls(known: Set<Seq<char>>, paths: Seq<Seq<char>>) -> Seq<Seq<char>>
    decreases paths.len(),
{
    if paths.len() == 0 {
        Seq::empty()
    } else {
        let rest = spec_missing_urls(known, paths.drop_last());
        let p = trim_ws(paths.last());
        if !known.contains(article_url(p)) && !has_char(p, '+') {
            rest.push(article_url(p))
        } else {
            rest
        }
    }
}

/// The URL of `path` as an English article.
fn article_url_of(path: &str) -> (r: String)
    ensures
        r@ == article_url(path@),
{
    let mut r = "https://mariadb.com/kb/en/".to_owned();
    r.append(path);
    r.append("/");
    r
}

/// Every URL that the rows name: each row's URL and the article URL of each of its slugs.
pub fn kb_slug_urls(rows: &Vec<KbItem>) -> (r: StringHashSet)
    ensures
        r@ == urls_of_rows(rows@, rows.len() as int),
{
    let mut urls = StringHashSet::new();
    let mut i: usize = 0;
    assert(urls@ =~= urls_of_rows(rows@, 0));
    while i < rows.len()
        invariant
            i <= rows.len(),
            urls@ == urls_of_rows(rows@, i as int),
        decreases rows.len() - i,
    {
        let row = &rows[i];
        urls.insert(row.url.clone());
        let slugs = split_on_char(row.slugs.as_str(), ';');
        let ghost pieces = split_char(row.slugs@, ';');
        let mut j: usize = 0;
        while j < slugs.len()
            invariant
                i < rows.len(),
                row == rows@[i as int],
                slugs.deep_view() == pieces,
                pieces == split_char(row.slugs@, ';'),
                j <= slugs.len(),
                urls@ == urls_of_rows(rows@, i as int).insert(row.url@).union(
                    Set::new(|u: Seq<char>| exists|k: int| 0 <= k < j && u == article_url(#[trigger] pieces[k])),
                ),
            decreases slugs.len() - j,
        {
            let ghost before = urls@;
            urls.insert(article_url_of(slugs[j].as_str()));
            assert(slugs@[j as int]@ == pieces[j as int]);
            assert(urls@ =~= urls_of_rows(rows@, i as int).insert(row.url@).union(
                Set::new(|u: Seq<char>| exists|k: int| 0 <= k < j + 1 && u == article_url(#[trigger] pieces[k])),
            ));
            j = j + 1;
        }
        assert(urls@ =~= urls_of_rows(rows@, i + 1)) by {
            assert forall|u: Seq<char>| urls_of_rows(rows@, i + 1).contains(u) implies urls@.contains(u) by {
                let w = choose|w: int| 0 <= w < i + 1 && row_names(#[trigger] rows@[w].url@, rows@[w].slugs@, u);
                if w < i {
                    assert(urls_of_rows(rows@, i as int).contains(u));
                } else if u != row.url@ {
                    let k = choose|k: int|
                        0 <= k < split_char(rows@[w].slugs@, ';').len() && u == article_url(
                            #[trigger] split_char(rows@[w].slugs@, ';')[k],
                        );
                    assert(u == article_url(pieces[k]));
                }
            }
            assert forall|u: Seq<char>| urls@.contains(u) implies urls_of_rows(rows@, i + 1).contains(u) by {
                if urls_of_rows(rows@, i as int).contains(u) {
                    let w = choose|w: int| 0 <= w < i && row_names(#[trigger] rows@[w].url@, rows@[w].slugs@, u);
                    assert(row_names(rows@[w].url@, rows@[w].slugs@, u));
                } else if u == row.url@ {
                    assert(row_names(rows@[i as int].url@, rows@[i as int].slugs@, u));
                } else {
                    let k = choose|k: int| 0 <= k < slugs.len() && u == article_url(#[trigger] pieces[k]);
                    assert(row_names(rows@[i as int].url@, rows@[i as int].slugs@, u));
                }
            }
        }
        i = i + 1;
    }
    urls
}

/// The English articles of `listing` (comma-separated archive paths) that
/// `known` lacks, as URLs, one per line.
pub fn missing_kb_urls(known: &StringHashSet, listing: &str) -> (r: String)
    ensures
        r@ == join_seqs(spec_missing_urls(known@, split_char(listing@, ',')), "\n"@),
{
    let paths = split_on_char(listing, ',');
    let mut missing: Vec<String> = Vec::new();
    let mut i: usize = 0;
    while i < paths.len()
        invariant
            i <= paths.len(),
            paths.deep_view() == split_char(listing@, ','),
            missing.deep_view() == spec_missing_urls(known@, paths.deep_view().take(i as int)),
        decreases paths.len() - i,
    {
        let ghost before = missing.deep_view();
        let path = trim_whitespace(paths[i].as_str());
        let url = article_url_of(path);
        let pv = chars_of(path);
        let keep = !known.contains(url.as_str()) && !has_char_in(&pv, 0, pv.len(), '+');
        assert(pv@.subrange(0, pv.len() as int) =~= path@);
        if keep {
            missing.push(url);
        }
        proof {
            let taken = paths.deep_view().take(i + 1);
            assert(taken.drop_last() =~= paths.deep_view().take(i as int));
            assert(taken.last() == paths@[i as int]@);
            if keep {
                assert(missing.deep_view() =~= before.push(article_url(path@)));
            } else {
                assert(missing.deep_view() =~= before);
            }
        }
        i = i + 1;
    }
    assert(paths.deep_view().take(paths.len() as int) =~= paths.deep_view());
    join_with(&missing, "\n")
}

/// No URL that the diff lists is among the known ones.
pub proof fn lemma_missing_urls_are_unknown(known: Set<Seq<char>>, paths: Seq<Seq<char>>)
    ensures
        forall|i: int|
            0 <= i < spec_missing_urls(known, paths).len() ==> !known.contains(
                #[trigger] spec_missing_urls(known, paths)[i],
            ),
    decreases paths.len(),
{
    if paths.len() > 0 {
        lemma_missing_urls_are_unknown(known, paths.drop_last());
        let rest = spec_missing_urls(known, paths.drop_last());
        let all = spec_missing_urls(known, paths);
        assert forall|i: int| 0 <= i < all.len() implies !known.contains(#[trigger] all[i]) by {
            if i < rest.len() {
                assert(all[i] == rest[i]);
            }
        }
    }
}

/// The diff is exactly the unknown English articles of the listing: every
/// listed path (trimmed, holding no `'+'`) whose URL
/// `https://mariadb.com/kb/en/<path>/` is not known is in the diff, and every
/// URL of the diff is such a path's URL.
pub proof fn lemma_missing_urls_exactly(known: Set<Seq<char>>, paths: Seq<Seq<char>>)
    ensures
        forall|i: int|
            0 <= i < paths.len() && !has_char(trim_ws(#[trigger] paths[i]), '+') && !known.contains(
                "https://mariadb.com/kb/en/"@ + trim_ws(paths[i]) + "/"@,
            ) ==> spec_missing_urls(known, paths).contains("https://mariadb.com/kb/en/"@ + trim_ws(paths[i]) + "/"@),
        forall|k: int|
            0 <= k < spec_missing_urls(known, paths).len() ==> exists|i: int|
                0 <= i < paths.len() && !has_char(trim_ws(#[trigger] paths[i]), '+') && #[trigger] spec_missing_urls(
                    known,
                    paths,
                )[k] == "https://mariadb.com/kb/en/"@ + trim_ws(paths[i]) + "/"@,
    decreases paths.len(),
{
    if paths.len() > 0 {
        let prev = paths.drop_last();
        lemma_missing_urls_exactly(known, prev);
        let rest = spec_missing_urls(known, prev);
        let all = spec_missing_urls(known, paths);
        let n = paths.len() - 1;
        assert forall|i: int|
            0 <= i < paths.len() && !has_char(trim_ws(#[trigger] paths[i]), '+') && !known.contains(
                "https://mariadb.com/kb/en/"@ + trim_ws(paths[i]) + "/"@,
            ) implies all.contains("https://mariadb.com/kb/en/"@ + trim_ws(paths[i]) + "/"@) by {
            if i < n {
                assert(prev[i] == paths[i]);
                let w = choose|k: int|
                    0 <= k < rest.len() && #[trigger] rest[k] == "https://mariadb.com/kb/en/"@ + trim_ws(prev[i]) + "/"@;
                assert(all[w] == rest[w]);
            } else {
                assert(all.last() == article_url(trim_ws(paths.last())));
            }
        }
        assert forall|k: int| 0 <= k < all.len() implies exists|i: int|
            0 <= i < paths.len() && !has_char(trim_ws(#[trigger] paths[i]), '+') && #[trigger] all[k]
                == "https://mariadb.com/kb/en/"@ + trim_ws(paths[i]) + "/"@ by {
            if k < rest.len() {
                assert(all[k] == rest[k]);
                let i = choose|i: int|
                    0 <= i < prev.len() && !has_char(trim_ws(#[trigger] prev[i]), '+') && rest[k]
                        == "https://mariadb.com/kb/en/"@ + trim_ws(prev[i]) + "/"@;
                assert(prev[i] == paths[i]);
            } else {
                assert(paths[n] == paths.last());
            }
        }
    }
}

} // verus!
