//! File-system paths as text, with the Unix rules of `std::path` that the
//! archive layout depends on: joining, and whether the file name has an
//! extension.  The archive's paths are always joined with `'/'` and a path is
//! absolute when it starts with one; on Windows, where `PathBuf::join` would
//! insert a backslash and drive prefixes make a path absolute, these rules are not
//! those of `std::path`, though Windows opens files by `'/'`-joined paths too.
use vstd::prelude::*;
use crate::text::{chars_of, trim_end_char};

verus! {

/// `PathBuf::join` on Unix: an absolute `p` replaces `base`; otherwise `p` is
/// appended, after a `'/'` unless `base` is empty or already ends with one.
pub open spec fn joined_path(base: Seq<char>, p: Seq<char>) -> Seq<char> {
    if p.len() > 0 && p[0] == '/' {
        p
    } else if base.len() == 0 || base.last() == '/' {
        base + p
    } else {
        base + seq!['/'] + p
    }
}

/// The position just after the last `'/'` of `p`, or 0.
pub open spec fn after_last_slash(p: Seq<char>) -> int
    decreases p.len(),
{
    if p.len() == 0 {
        0
    } else if p.last() == '/' {
        p.len() as int
    } else {
        after_last_slash(p.drop_last())
    }
}

/// `Path::file_name`: the last component of `p`, where empty and `.` components
/// are passed over (a `.` at the very start is the current directory, which has
/// no name), and a trailing `..` has no name either.
pub open spec fn file_name_of(p: Seq<char>) -> Option<Seq<char>>
    decreases p.len(),
{
    if p.len() == 0 {
        None
    } else {
        let k = after_last_slash(p);
        let seg = p.skip(k);
        if seg.len() == 0 || seg == seq!['.'] {
            if 0 < k <= p.len() {
                file_name_of(p.take(k - 1))
            } else {
                None
            }
        } else if seg == seq!['.', '.'] {
            None
        } else {
            Some(seg)
        }
    }
}

/// `Path::extension(p).is_some()`: the file name holds a `'.'` after its first character.
pub open spec fn path_has_extension(p: Seq<char>) -> bool {
    match file_name_of(p) {
        Some(name) => dot_after_start(name),
        None => false,
    }
}

/// `name` holds a `'.'` after its first character.
pub open spec fn dot_after_start(name: Seq<char>) -> bool {
    exists|j: int| 1 <= j < name.len() && name[j] == '.'
}

/// The position of the last `'.'` in `name`, or -1.
pub open spec fn last_dot(name: Seq<char>) -> int
    decreases name.len(),
{
    if name.len() == 0 {
        -1
    } else if name.last() == '.' {
        name.len() - 1
    } else {
        last_dot(name.drop_last())
    }
}

/// `Path::extension`: what follows the last `'.'` of the file name, where that
/// `'.'` is not its first character.
pub open spec fn path_extension(p: Seq<char>) -> Option<Seq<char>> {
    match file_name_of(p) {
        Some(name) => if last_dot(name) >= 1 {
            Some(name.skip(last_dot(name) + 1))
        } else {
            None
        },
        None => None,
    }
}

/// `p` with each run of `'/'` cut to a single one.
pub open spec fn collapse_slashes(p: Seq<char>) -> Seq<char>
    decreases p.len(),
{
    if p.len() == 0 {
        p
    } else {
        let c = collapse_slashes(p.drop_last());
        if p.last() == '/' && c.len() > 0 && c.last() == '/' {
            c
        } else {
            c.push(p.last())
        }
    }
}

/// `p` without repeated slashes and, unless it is the root alone, without a
/// trailing slash.
pub open spec fn slash_normal(p: Seq<char>) -> Seq<char> {
    let c = collapse_slashes(p);
    if c.len() > 1 && c.last() == '/' {
        c.drop_last()
    } else {
        c
    }
}

/// `a` and `b` differ at most in repeated and trailing slashes.  `std::path`
/// compares paths by their components, which such slashes do not change, so
/// two such texts are equal as `Path`s.
pub open spec fn same_path(a: Seq<char>, b: Seq<char>) -> bool {
    slash_normal(a) == slash_normal(b)
}

/// Collapsing keeps a text's last character, and a non-empty text stays non-empty.
pub proof fn lemma_collapse_last(p: Seq<char>)
    requires
        p.len() > 0,
    ensures
        collapse_slashes(p).len() > 0,
        collapse_slashes(p).last() == p.last(),
    decreases p.len(),
{
    if p.len() > 1 {
        lemma_collapse_last(p.drop_last());
    }
}

/// Texts that collapse alike still do after the same text is appended to both.
pub proof fn lemma_collapse_append(x1: Seq<char>, x2: Seq<char>, q: Seq<char>)
    requires
        collapse_slashes(x1) == collapse_slashes(x2),
    ensures
        collapse_slashes(x1 + q) == collapse_slashes(x2 + q),
    decreases q.len(),
{
    if q.len() == 0 {
        assert(x1 + q =~= x1);
        assert(x2 + q =~= x2);
    } else {
        lemma_collapse_append(x1, x2, q.drop_last());
        assert((x1 + q).drop_last() =~= x1 + q.drop_last());
        assert((x2 + q).drop_last() =~= x2 + q.drop_last());
    }
}

/// One more trailing slash does not change a non-empty path.
pub proof fn lemma_normal_extra_slash(y: Seq<char>)
    requires
        y.len() > 0,
    ensures
        slash_normal(y.push('/')) == slash_normal(y),
{
    lemma_collapse_last(y);
    assert(y.push('/').drop_last() =~= y);
}

/// Trailing slashes after a non-empty part do not change a path.
pub proof fn lemma_normal_trailing_slashes(r: Seq<char>, s: Seq<char>)
    requires
        trim_end_char(s, '/').len() > 0,
    ensures
        slash_normal(r + s) == slash_normal(r + trim_end_char(s, '/')),
    decreases s.len(),
{
    if s.len() > 0 && s.last() == '/' {
        let s1 = s.drop_last();
        lemma_normal_trailing_slashes(r, s1);
        assert(r + s =~= (r + s1).push('/'));
        lemma_normal_extra_slash(r + s1);
    }
}

/// A run of trailing slashes after a non-empty part collapses like a single one.
pub proof fn lemma_collapse_slash_run(r: Seq<char>, s: Seq<char>)
    requires
        s.len() > 0,
        s.last() == '/',
        trim_end_char(s, '/').len() > 0,
    ensures
        collapse_slashes(r + s) == collapse_slashes(r + trim_end_char(s, '/') + seq!['/']),
    decreases s.len(),
{
    let s1 = s.drop_last();
    assert(r + s =~= (r + s1).push('/'));
    assert((r + s).drop_last() =~= r + s1);
    if s1.last() == '/' {
        lemma_collapse_slash_run(r, s1);
        lemma_collapse_last(r + s1);
    } else {
        assert(r + s =~= r + s1 + seq!['/']);
    }
}

/// Trailing slashes do not change a path's file name.
pub proof fn lemma_file_name_trailing_slashes(s: Seq<char>)
    ensures
        file_name_of(s) == file_name_of(trim_end_char(s, '/')),
    decreases s.len(),
{
    if s.len() > 0 && s.last() == '/' {
        lemma_after_last_slash_bounds(s);
        assert(s.take(s.len() - 1) =~= s.drop_last());
        assert(s.skip(s.len() as int) =~= Seq::<char>::empty());
        lemma_file_name_trailing_slashes(s.drop_last());
    }
}

proof fn lemma_after_last_slash_bounds(p: Seq<char>)
    ensures
        0 <= after_last_slash(p) <= p.len(),
        forall|j: int| after_last_slash(p) <= j < p.len() ==> p[j] != '/',
        after_last_slash(p) > 0 ==> p[after_last_slash(p) - 1] == '/',
    decreases p.len(),
{
    if p.len() > 0 && p.last() != '/' {
        lemma_after_last_slash_bounds(p.drop_last());
        assert forall|j: int| after_last_slash(p) <= j < p.len() implies p[j] != '/' by {
            if j < p.len() - 1 {
                assert(p.drop_last()[j] == p[j]);
            }
        }
    }
}

/// `after_last_slash` of the window `[0, hi)` of `v`.
fn after_last_slash_in(v: &Vec<char>, hi: usize) -> (r: usize)
    requires
        hi <= v.len(),
    ensures
        r as int == after_last_slash(v@.take(hi as int)),
{
    let mut j = hi;
    while j > 0 && v[j - 1] != '/'
        invariant
            j <= hi <= v.len(),
            after_last_slash(v@.take(j as int)) == after_last_slash(v@.take(hi as int)),
        decreases j,
    {
        assert(v@.take(j as int).drop_last() =~= v@.take(j - 1));
        j = j - 1;
    }
    j
}

/// Where `Path::file_name` lies in the window `[0, hi)` of `v`.
fn file_name_range(v: &Vec<char>) -> (r: Option<(usize, usize)>)
    ensures
        match r {
            Some((a, b)) => a < b <= v.len() && file_name_of(v@) == Some(v@.subrange(a as int, b as int)),
            None => file_name_of(v@) is None,
        },
{
    let mut hi = v.len();
    assert(v@.take(hi as int) =~= v@);
    loop
        invariant
            hi <= v.len(),
            file_name_of(v@.take(hi as int)) == file_name_of(v@),
        decreases hi,
    {
        if hi == 0 {
            return None;
        }
        let k = after_last_slash_in(v, hi);
        let ghost p = v@.take(hi as int);
        proof {
            lemma_after_last_slash_bounds(p);
            assert(p.skip(k as int) =~= v@.subrange(k as int, hi as int));
        }
        let len = hi - k;
        if len == 0 || (len == 1 && v[k] == '.') {
            proof {
                if len == 1 {
                    assert(p.skip(k as int) =~= seq!['.']);
                }
            }
            if k == 0 {
                return None;
            }
            assert(p.take(k - 1) =~= v@.take(k - 1));
            hi = k - 1;
        } else if len == 2 && v[k] == '.' && v[k + 1] == '.' {
            assert(p.skip(k as int) =~= seq!['.', '.']);
            return None;
        } else {
            proof {
                let seg = p.skip(k as int);
                if len == 1 {
                    assert(seg[0] != '.');
                    assert(seg != seq!['.']);
                }
                if len == 2 {
                    assert(seg[0] != '.' || seg[1] != '.');
                    assert(seg != seq!['.', '.']);
                }
            }
            return Some((k, hi));
        }
    }
}

/// `PathBuf::from(base).join(p)`.
pub fn path_join(base: &str, p: &str) -> (r: String)
    ensures
        r@ == joined_path(base@, p@),
{
    let pv = chars_of(p);
    if pv.len() > 0 && pv[0] == '/' {
        return p.to_owned();
    }
    let bv = chars_of(base);
    let mut r = base.to_owned();
    if !(bv.len() == 0 || bv[bv.len() - 1] == '/') {
        r.append("/");
        proof {
            reveal_strlit("/");
        }
    }
    r.append(p);
    r
}

/// Whether `Path::new(p).extension()` is `Some`.
pub fn has_extension(p: &str) -> (r: bool)
    ensures
        r == path_has_extension(p@),
{
    let v = chars_of(p);
    match file_name_range(&v) {
        None => false,
        Some((a, b)) => {
            let ghost name = v@.subrange(a as int, b as int);
            let mut j = a + 1;
            while j < b
                invariant
                    a + 1 <= j,
                    a <= b <= v.len(),
                    name == v@.subrange(a as int, b as int),
                    v@ == p@,
                    file_name_of(v@) == Some(name),
                    forall|i: int| 1 <= i < j - a && i < name.len() ==> name[i] != '.',
                decreases b - j,
            {
                if v[j] == '.' {
                    assert(name[j - a] == '.');
                    assert(path_has_extension(p@)) by {
                        assert(file_name_of(p@) == Some(name));
                        let w = (j - a) as int;
                        assert(1 <= w < name.len() && name[w] == '.');
                        assert(dot_after_start(name));
                    }
                    return true;
                }
                j = j + 1;
            }
            false
        },
    }
}

/// `Path::new(p).extension()`, as text.
pub fn extension_of<'a>(p: &'a str) -> (r: Option<&'a str>)
    ensures
        match path_extension(p@) {
            Some(e) => r matches Some(x) && x@ == e,
            None => r is None,
        },
{
    let v = chars_of(p);
    match file_name_range(&v) {
        None => None,
        Some((a, b)) => {
            let ghost name = v@.subrange(a as int, b as int);
            let mut j = b;
            assert(name.take(b - a) =~= name);
            while j > a && v[j - 1] != '.'
                invariant
                    a <= j <= b <= v.len(),
                    name == v@.subrange(a as int, b as int),
                    last_dot(name.take(j - a)) == last_dot(name),
                decreases j - a,
            {
                assert(name.take(j - a).drop_last() =~= name.take(j - 1 - a));
                j = j - 1;
            }
            proof {
                assert(name.take(b - a) =~= name);
                if j > a {
                    assert(name.take(j - a).last() == '.');
                }
            }
            if j - a >= 2 {
                assert(name.skip(j - a) =~= v@.subrange(j as int, b as int));
                Some(p.substring_char(j, b))
            } else {
                None
            }
        },
    }
}

} // verus!
