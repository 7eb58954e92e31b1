//! Character-level string operations used by the URL and path rules.
//!
//! Strings are modelled by their view, a `Seq<char>`.  Each spec function here
//! says what one `str` method of std computes; the executable functions work on
//! a window `[lo, hi)` of a `Vec<char>` so that a chain of trims costs one pass.
use vstd::prelude::*;

verus! {

/// `p` is a prefix of `s`.
pub open spec fn starts_with(s: Seq<char>, p: Seq<char>) -> bool {
    p.len() <= s.len() && s.take(p.len() as int) == p
}

/// `p` is a suffix of `s`.
pub open spec fn ends_with(s: Seq<char>, p: Seq<char>) -> bool {
    p.len() <= s.len() && s.skip(s.len() - p.len()) == p
}

/// `p` occurs somewhere in `s`.
pub open spec fn contains_seq(s: Seq<char>, p: Seq<char>) -> bool {
    exists|i: int| 0 <= i <= s.len() - p.len() && #[trigger] s.subrange(i, i + p.len()) == p
}

/// `c` occurs in `s`.
pub open spec fn has_char(s: Seq<char>, c: char) -> bool {
    exists|i: int| 0 <= i < s.len() && s[i] == c
}

/// `s` with every leading copy of the non-empty pattern `p` removed
/// (`str::trim_start_matches` with a string pattern).
pub open spec fn strip_prefixes(s: Seq<char>, p: Seq<char>) -> Seq<char>
    decreases s.len(),
{
    if p.len() > 0 && starts_with(s, p) {
        strip_prefixes(s.skip(p.len() as int), p)
    } else {
        s
    }
}

/// `s` with every leading `c` removed (`str::trim_start_matches` with a char).
pub open spec fn trim_start_char(s: Seq<char>, c: char) -> Seq<char>
    decreases s.len(),
{
    if s.len() > 0 && s[0] == c {
        trim_start_char(s.drop_first(), c)
    } else {
        s
    }
}

/// `s` with every trailing `c` removed (`str::trim_end_matches` with a char).
pub open spec fn trim_end_char(s: Seq<char>, c: char) -> Seq<char>
    decreases s.len(),
{
    if s.len() > 0 && s.last() == c {
        trim_end_char(s.drop_last(), c)
    } else {
        s
    }
}

/// `s` with `c` removed from both ends (`str::trim_matches` with a char).
pub open spec fn trim_char(s: Seq<char>, c: char) -> Seq<char> {
    trim_end_char(trim_start_char(s, c), c)
}

/// The part of `s` before the first `c`, or all of `s` where there is none.
pub open spec fn before_char(s: Seq<char>, c: char) -> Seq<char>
    decreases s.len(),
{
    if s.len() == 0 {
        s
    } else if s[0] == c {
        Seq::empty()
    } else {
        seq![s[0]] + before_char(s.drop_first(), c)
    }
}

/// `before_char(s, c)` is the prefix of `s` up to the first `c`.
pub proof fn lemma_before_char(s: Seq<char>, c: char, k: int)
    requires
        0 <= k <= s.len(),
        forall|j: int| 0 <= j < k ==> s[j] != c,
        k == s.len() || s[k] == c,
    ensures
        before_char(s, c) == s.take(k),
    decreases s.len(),
{
    if s.len() == 0 {
        assert(s.take(k) =~= s);
    } else if s[0] == c {
        assert(s.take(k) =~= Seq::<char>::empty());
    } else {
        let t = s.drop_first();
        assert forall|j: int| 0 <= j < k - 1 implies t[j] != c by {
            assert(t[j] == s[j + 1]);
        }
        lemma_before_char(t, c, k - 1);
        assert(s.take(k) =~= seq![s[0]] + t.take(k - 1));
    }
}


/// `s` with every trailing copy of the non-empty pattern `p` removed
/// (`str::trim_end_matches` with a string pattern).
pub open spec fn strip_suffixes(s: Seq<char>, p: Seq<char>) -> Seq<char>
    decreases s.len(),
{
    if p.len() > 0 && ends_with(s, p) {
        strip_suffixes(s.take(s.len() - p.len()), p)
    } else {
        s
    }
}

/// `s` with each `from` replaced by `to` (`str::replace` with a char pattern).
pub open spec fn replace_char(s: Seq<char>, from: char, to: Seq<char>) -> Seq<char>
    decreases s.len(),
{
    if s.len() == 0 {
        s
    } else {
        replace_char(s.drop_last(), from, to) + (if s.last() == from {
            to
        } else {
            seq![s.last()]
        })
    }
}

/// The start of `strip_prefixes` on `s`, for any pattern (an empty one removes nothing).
pub fn strip_prefixes_str<'a>(s: &'a str, p: &str) -> (r: &'a str)
    ensures
        r@ == strip_prefixes(s@, p@),
{
    let v = chars_of(s);
    let pv = chars_of(p);
    if pv.len() == 0 {
        return s;
    }
    assert(v@.subrange(0, v.len() as int) =~= v@);
    let a = skip_prefixes(&v, 0, v.len(), &pv);
    s.substring_char(a, v.len())
}

/// The end of `strip_suffixes` applied to the window `[0, hi)` of `v`.
pub fn drop_suffixes(v: &Vec<char>, hi: usize, p: &Vec<char>) -> (r: usize)
    requires
        hi <= v.len(),
        p.len() > 0,
    ensures
        r <= hi,
        v@.take(r as int) == strip_suffixes(v@.take(hi as int), p@),
{
    let mut j = hi;
    loop
        invariant
            j <= hi <= v.len(),
            p.len() > 0,
            strip_suffixes(v@.take(j as int), p@) == strip_suffixes(v@.take(hi as int), p@),
        decreases j,
    {
        if p.len() > j {
            return j;
        }
        let m = matches_at(v, j - p.len(), j, p);
        let ghost w = v@.take(j as int);
        assert(v@.subrange(j - p.len(), j as int).take(p.len() as int) =~= w.skip(w.len() - p.len()));
        if !m {
            return j;
        }
        assert(w.take(w.len() - p.len()) =~= v@.take(j - p.len()));
        j = j - p.len();
    }
}

/// `s` with every trailing copy of `p` removed, for any pattern.
pub fn strip_suffixes_str<'a>(s: &'a str, p: &str) -> (r: &'a str)
    ensures
        r@ == strip_suffixes(s@, p@),
{
    let v = chars_of(s);
    let pv = chars_of(p);
    if pv.len() == 0 {
        return s;
    }
    assert(v@.take(v.len() as int) =~= v@);
    let b = drop_suffixes(&v, v.len(), &pv);
    s.substring_char(0, b)
}

/// `s` with each `from` replaced by `to`.
pub fn replace_char_str(s: &str, from: char, to: &str) -> (r: String)
    ensures
        r@ == replace_char(s@, from, to@),
{
    let v = chars_of(s);
    let mut r = "".to_owned();
    proof {
        reveal_strlit("");
    }
    let mut i: usize = 0;
    while i < v.len()
        invariant
            i <= v.len(),
            v@ == s@,
            r@ == replace_char(s@.take(i as int), from, to@),
        decreases v.len() - i,
    {
        let ghost before = r@;
        if v[i] == from {
            r.append(to);
        } else {
            r.append(s.substring_char(i, i + 1));
        }
        assert(s@.take(i + 1).drop_last() =~= s@.take(i as int));
        assert(s@.subrange(i as int, i + 1) =~= seq![s@[i as int]]);
        i = i + 1;
    }
    assert(s@.take(v.len() as int) =~= s@);
    r
}


/// Whether `a` and `b` hold the same characters.
pub fn str_eq(a: &str, b: &str) -> (r: bool)
    ensures
        r == (a@ == b@),
{
    let av = chars_of(a);
    let bv = chars_of(b);
    if av.len() != bv.len() {
        return false;
    }
    let mut i: usize = 0;
    while i < av.len()
        invariant
            av@ == a@,
            bv@ == b@,
            av.len() == bv.len(),
            i <= av.len(),
            forall|j: int| 0 <= j < i ==> av@[j] == bv@[j],
        decreases av.len() - i,
    {
        if av[i] != bv[i] {
            assert(av@[i as int] != bv@[i as int]);
            return false;
        }
        i = i + 1;
    }
    assert(av@ =~= bv@);
    true
}

/// Whether `c` has the Unicode `White_Space` property, which `char::is_whitespace`
/// tests: U+0009 to U+000D, U+0020, U+0085, U+00A0, U+1680, U+2000 to U+200A,
/// U+2028, U+2029, U+202F, U+205F and U+3000.
pub open spec fn is_white_space(c: char) -> bool {
    let n = c as u32;
    ||| 0x9 <= n <= 0xd
    ||| n == 0x20
    ||| n == 0x85
    ||| n == 0xa0
    ||| n == 0x1680
    ||| 0x2000 <= n <= 0x200a
    ||| n == 0x2028
    ||| n == 0x2029
    ||| n == 0x202f
    ||| n == 0x205f
    ||| n == 0x3000
}

/// Whether `c` is white space, as `char::is_whitespace` decides it.
pub fn char_is_whitespace(c: char) -> (r: bool)
    ensures
        r == is_white_space(c),
{
    let n = c as u32;
    (0x9 <= n && n <= 0xd) || n == 0x20 || n == 0x85 || n == 0xa0 || n == 0x1680 || (0x2000 <= n && n
        <= 0x200a) || n == 0x2028 || n == 0x2029 || n == 0x202f || n == 0x205f || n == 0x3000
}

/// `s` without leading white space.
pub open spec fn trim_start_ws(s: Seq<char>) -> Seq<char>
    decreases s.len(),
{
    if s.len() > 0 && is_white_space(s[0]) {
        trim_start_ws(s.drop_first())
    } else {
        s
    }
}

/// `s` without trailing white space.
pub open spec fn trim_end_ws(s: Seq<char>) -> Seq<char>
    decreases s.len(),
{
    if s.len() > 0 && is_white_space(s.last()) {
        trim_end_ws(s.drop_last())
    } else {
        s
    }
}

/// `str::trim`: `s` without white space at either end.
pub open spec fn trim_ws(s: Seq<char>) -> Seq<char> {
    trim_end_ws(trim_start_ws(s))
}

/// `str::split` with a char: the pieces of `s` between the occurrences of `c`.
pub open spec fn split_char(s: Seq<char>, c: char) -> Seq<Seq<char>>
    decreases s.len(),
{
    if s.len() == 0 {
        seq![Seq::empty()]
    } else {
        let rest = split_char(s.drop_last(), c);
        if s.last() == c {
            rest.push(Seq::empty())
        } else {
            rest.update(rest.len() - 1, rest.last().push(s.last()))
        }
    }
}

/// `split_char` always yields at least one piece.
pub proof fn lemma_split_char_len(s: Seq<char>, c: char)
    ensures
        split_char(s, c).len() >= 1,
    decreases s.len(),
{
    if s.len() > 0 {
        lemma_split_char_len(s.drop_last(), c);
    }
}

/// `s` without white space at either end.
pub fn trim_whitespace(s: &str) -> (r: &str)
    ensures
        r@ == trim_ws(s@),
{
    let v = chars_of(s);
    let mut i: usize = 0;
    assert(v@.subrange(0, v.len() as int) =~= v@);
    while i < v.len() && char_is_whitespace(v[i])
        invariant
            i <= v.len(),
            trim_start_ws(v@.subrange(i as int, v.len() as int)) == trim_start_ws(v@),
        decreases v.len() - i,
    {
        assert(v@.subrange(i as int, v.len() as int).drop_first() =~= v@.subrange(i + 1, v.len() as int));
        i = i + 1;
    }
    let mut j = v.len();
    while j > i && char_is_whitespace(v[j - 1])
        invariant
            i <= j <= v.len(),
            trim_end_ws(v@.subrange(i as int, j as int)) == trim_end_ws(v@.subrange(i as int, v.len() as int)),
        decreases j - i,
    {
        assert(v@.subrange(i as int, j as int).drop_last() =~= v@.subrange(i as int, j - 1));
        j = j - 1;
    }
    s.substring_char(i, j)
}

/// `s.split(c)` as owned pieces.
pub fn split_on_char(s: &str, c: char) -> (r: Vec<String>)
    ensures
        r.deep_view() == split_char(s@, c),
{
    let v = chars_of(s);
    let mut pieces: Vec<String> = Vec::new();
    let mut start: usize = 0;
    let mut i: usize = 0;
    assert(s@.take(0) =~= Seq::<char>::empty());
    assert(s@.subrange(0, 0) =~= Seq::<char>::empty());
    while i < v.len()
        invariant
            v@ == s@,
            start <= i <= v.len(),
            split_char(s@.take(i as int), c) == pieces.deep_view().push(s@.subrange(start as int, i as int)),
        decreases v.len() - i,
    {
        assert(s@.take(i + 1).drop_last() =~= s@.take(i as int));
        if v[i] == c {
            let piece = s.substring_char(start, i).to_owned();
            pieces.push(piece);
            start = i + 1;
            assert(s@.subrange(start as int, i + 1) =~= Seq::<char>::empty());
        } else {
            assert(s@.subrange(start as int, i + 1) =~= s@.subrange(start as int, i as int).push(s@[i as int]));
        }
        i = i + 1;
    }
    let last = s.substring_char(start, v.len()).to_owned();
    pieces.push(last);
    assert(s@.take(v.len() as int) =~= s@);
    pieces
}


/// `[String]::join`: the parts with `sep` between each two.
pub open spec fn join_seqs(parts: Seq<Seq<char>>, sep: Seq<char>) -> Seq<char>
    decreases parts.len(),
{
    if parts.len() == 0 {
        Seq::empty()
    } else if parts.len() == 1 {
        parts[0]
    } else {
        join_seqs(parts.drop_last(), sep) + sep + parts.last()
    }
}

/// The parts with `sep` between each two.
pub fn join_with(parts: &Vec<String>, sep: &str) -> (r: String)
    ensures
        r@ == join_seqs(parts.deep_view(), sep@),
{
    let mut r = "".to_owned();
    proof {
        reveal_strlit("");
    }
    let mut i: usize = 0;
    while i < parts.len()
        invariant
            i <= parts.len(),
            r@ == join_seqs(parts.deep_view().take(i as int), sep@),
        decreases parts.len() - i,
    {
        let ghost taken = parts.deep_view().take(i + 1);
        assert(taken.drop_last() =~= parts.deep_view().take(i as int));
        if i > 0 {
            r.append(sep);
        } else {
            assert(taken =~= seq![parts@[0]@]);
            assert(r@ =~= Seq::<char>::empty());
        }
        r.append(parts[i].as_str());
        proof {
            if i == 0 {
                assert(r@ =~= taken[0]);
            }
        }
        i = i + 1;
    }
    assert(parts.deep_view().take(parts.len() as int) =~= parts.deep_view());
    r
}


/// `strip_prefixes` leaves a suffix of `s`.
pub proof fn lemma_strip_prefixes_suffix(s: Seq<char>, p: Seq<char>) -> (k: int)
    ensures
        0 <= k <= s.len(),
        strip_prefixes(s, p) == s.skip(k),
    decreases s.len(),
{
    if p.len() > 0 && starts_with(s, p) {
        let j = lemma_strip_prefixes_suffix(s.skip(p.len() as int), p);
        assert(s.skip(p.len() as int).skip(j) =~= s.skip(p.len() + j));
        p.len() + j
    } else {
        assert(s.skip(0) =~= s);
        0
    }
}

/// `trim_start_char` leaves a suffix of `s` that does not start with `c`.
pub proof fn lemma_trim_start_char_suffix(s: Seq<char>, c: char) -> (k: int)
    ensures
        0 <= k <= s.len(),
        trim_start_char(s, c) == s.skip(k),
        trim_start_char(s, c).len() == 0 || trim_start_char(s, c)[0] != c,
    decreases s.len(),
{
    if s.len() > 0 && s[0] == c {
        let j = lemma_trim_start_char_suffix(s.drop_first(), c);
        assert(s.drop_first().skip(j) =~= s.skip(1 + j));
        1 + j
    } else {
        assert(s.skip(0) =~= s);
        0
    }
}

/// `trim_end_char` leaves a prefix of `s` that does not end with `c`.
pub proof fn lemma_trim_end_char_prefix(s: Seq<char>, c: char) -> (k: int)
    ensures
        0 <= k <= s.len(),
        trim_end_char(s, c) == s.take(k),
        trim_end_char(s, c).len() == 0 || trim_end_char(s, c).last() != c,
    decreases s.len(),
{
    if s.len() > 0 && s.last() == c {
        let j = lemma_trim_end_char_prefix(s.drop_last(), c);
        assert(s.drop_last().take(j) =~= s.take(j));
        j
    } else {
        assert(s.take(s.len() as int) =~= s);
        s.len() as int
    }
}

/// `before_char` leaves a prefix of `s` free of `c`.
pub proof fn lemma_before_char_prefix(s: Seq<char>, c: char) -> (k: int)
    ensures
        0 <= k <= s.len(),
        before_char(s, c) == s.take(k),
        !has_char(before_char(s, c), c),
    decreases s.len(),
{
    if s.len() == 0 {
        assert(s.take(0) =~= s);
        0
    } else if s[0] == c {
        assert(s.take(0) =~= Seq::<char>::empty());
        0
    } else {
        let j = lemma_before_char_prefix(s.drop_first(), c);
        let r = before_char(s, c);
        assert(r =~= seq![s[0]] + s.drop_first().take(j));
        assert(r =~= s.take(1 + j));
        assert forall|i: int| 0 <= i < r.len() implies r[i] != c by {
            if i > 0 {
                assert(r[i] == before_char(s.drop_first(), c)[i - 1]);
            }
        }
        1 + j
    }
}

/// Where `s` holds no `c`, `before_char` keeps all of it.
pub proof fn lemma_before_absent_char(s: Seq<char>, c: char)
    requires
        !has_char(s, c),
    ensures
        before_char(s, c) == s,
{
    lemma_before_char(s, c, s.len() as int);
    assert(s.take(s.len() as int) =~= s);
}

/// A part of `s` holds no character that `s` lacks.
pub proof fn lemma_subrange_lacks_char(s: Seq<char>, a: int, b: int, c: char)
    requires
        0 <= a <= b <= s.len(),
        !has_char(s, c),
    ensures
        !has_char(s.subrange(a, b), c),
{
    assert forall|i: int| 0 <= i < b - a implies s.subrange(a, b)[i] != c by {
        assert(s.subrange(a, b)[i] == s[a + i]);
    }
}

/// The characters of `s`, in order.
pub fn chars_of(s: &str) -> (v: Vec<char>)
    ensures
        v@ == s@,
{
    broadcast use vstd::string::group_string_axioms;
    let mut v: Vec<char> = Vec::new();
    for c in it: s.chars()
        invariant
            v@ == it.seq().take(it.index() as int),
            it.seq() == s@,
    {
        v.push(c);
        assert(v@ =~= it.seq().take(it.index() + 1));
    }
    assert(s@.take(s@.len() as int) =~= s@);
    v
}

/// Whether `p` occurs in `v` at position `i`, without passing `hi`.
pub fn matches_at(v: &Vec<char>, i: usize, hi: usize, p: &Vec<char>) -> (r: bool)
    requires
        i <= hi <= v.len(),
    ensures
        r == starts_with(v@.subrange(i as int, hi as int), p@),
{
    if p.len() > hi - i {
        return false;
    }
    let mut j: usize = 0;
    while j < p.len()
        invariant
            i + p.len() <= hi <= v.len(),
            j <= p.len(),
            forall|k: int| 0 <= k < j ==> v@[i + k] == p@[k],
        decreases p.len() - j,
    {
        if v[i + j] != p[j] {
            assert(v@.subrange(i as int, hi as int).take(p.len() as int)[j as int] != p@[j as int]);
            return false;
        }
        j = j + 1;
    }
    assert(v@.subrange(i as int, hi as int).take(p.len() as int) =~= p@);
    true
}

/// The start of `strip_prefixes` applied to the window `[lo, hi)` of `v`.
pub fn skip_prefixes(v: &Vec<char>, lo: usize, hi: usize, p: &Vec<char>) -> (r: usize)
    requires
        lo <= hi <= v.len(),
        p.len() > 0,
    ensures
        lo <= r <= hi,
        v@.subrange(r as int, hi as int) == strip_prefixes(v@.subrange(lo as int, hi as int), p@),
{
    let mut i = lo;
    while matches_at(v, i, hi, p)
        invariant
            lo <= i <= hi <= v.len(),
            p.len() > 0,
            strip_prefixes(v@.subrange(i as int, hi as int), p@)
                == strip_prefixes(v@.subrange(lo as int, hi as int), p@),
        decreases hi - i,
    {
        let ghost w = v@.subrange(i as int, hi as int);
        assert(w.skip(p.len() as int) =~= v@.subrange(i + p.len(), hi as int));
        i = i + p.len();
    }
    i
}

/// The start of `trim_start_char` applied to the window `[lo, hi)` of `v`.
pub fn skip_char(v: &Vec<char>, lo: usize, hi: usize, c: char) -> (r: usize)
    requires
        lo <= hi <= v.len(),
    ensures
        lo <= r <= hi,
        v@.subrange(r as int, hi as int) == trim_start_char(v@.subrange(lo as int, hi as int), c),
{
    let mut i = lo;
    while i < hi && v[i] == c
        invariant
            lo <= i <= hi <= v.len(),
            trim_start_char(v@.subrange(i as int, hi as int), c)
                == trim_start_char(v@.subrange(lo as int, hi as int), c),
        decreases hi - i,
    {
        assert(v@.subrange(i as int, hi as int).drop_first() =~= v@.subrange(i + 1, hi as int));
        i = i + 1;
    }
    i
}

/// The end of `trim_end_char` applied to the window `[lo, hi)` of `v`.
pub fn drop_char_back(v: &Vec<char>, lo: usize, hi: usize, c: char) -> (r: usize)
    requires
        lo <= hi <= v.len(),
    ensures
        lo <= r <= hi,
        v@.subrange(lo as int, r as int) == trim_end_char(v@.subrange(lo as int, hi as int), c),
{
    let mut j = hi;
    while j > lo && v[j - 1] == c
        invariant
            lo <= j <= hi <= v.len(),
            trim_end_char(v@.subrange(lo as int, j as int), c)
                == trim_end_char(v@.subrange(lo as int, hi as int), c),
        decreases j - lo,
    {
        assert(v@.subrange(lo as int, j as int).drop_last() =~= v@.subrange(lo as int, j - 1));
        j = j - 1;
    }
    j
}

/// The first position of `c` in the window `[0, hi)` of `v`, if any.
pub fn find_char(v: &Vec<char>, hi: usize, c: char) -> (r: Option<usize>)
    requires
        hi <= v.len(),
    ensures
        match r {
            Some(k) => k < hi && v@[k as int] == c && forall|j: int| 0 <= j < k ==> v@[j] != c,
            None => forall|j: int| 0 <= j < hi ==> v@[j] != c,
        },
{
    let mut i: usize = 0;
    while i < hi
        invariant
            i <= hi <= v.len(),
            forall|j: int| 0 <= j < i ==> v@[j] != c,
        decreases hi - i,
    {
        if v[i] == c {
            return Some(i);
        }
        i = i + 1;
    }
    None
}

/// The length of `before_char` applied to the window `[0, hi)` of `v`.
pub fn cut_at_char(v: &Vec<char>, hi: usize, c: char) -> (r: usize)
    requires
        hi <= v.len(),
    ensures
        r <= hi,
        v@.take(r as int) == before_char(v@.take(hi as int), c),
{
    let k = match find_char(v, hi, c) {
        Some(k) => k,
        None => hi,
    };
    proof {
        let w = v@.take(hi as int);
        lemma_before_char(w, c, k as int);
        assert(w.take(k as int) =~= v@.take(k as int));
    }
    k
}

/// Whether `p` occurs in `v`.
pub fn contains_chars(v: &Vec<char>, p: &Vec<char>) -> (r: bool)
    ensures
        r == contains_seq(v@, p@),
{
    if p.len() > v.len() {
        return false;
    }
    if p.len() == 0 {
        assert(v@.subrange(0, 0 + p.len()) =~= p@);
        return true;
    }
    let last = v.len() - p.len();
    let mut i: usize = 0;
    while i <= last
        invariant
            last + p.len() == v.len(),
            p.len() > 0,
            i <= last + 1,
            forall|j: int| 0 <= j < i ==> #[trigger] v@.subrange(j, j + p.len()) != p@,
        decreases last + 1 - i,
    {
        let m = matches_at(v, i, v.len(), p);
        assert(v@.subrange(i as int, v.len() as int).take(p.len() as int)
            =~= v@.subrange(i as int, i + p.len()));
        if m {
            return true;
        }
        i = i + 1;
    }
    false
}

/// Whether `v` ends with `p`.
pub fn ends_with_chars(v: &Vec<char>, p: &Vec<char>) -> (r: bool)
    ensures
        r == ends_with(v@, p@),
{
    if p.len() > v.len() {
        return false;
    }
    let m = matches_at(v, v.len() - p.len(), v.len(), p);
    assert(v@.subrange(v.len() - p.len(), v.len() as int).take(p.len() as int)
        =~= v@.skip(v.len() - p.len()));
    m
}

/// Whether `c` occurs in the window `[lo, hi)` of `v`.
pub fn has_char_in(v: &Vec<char>, lo: usize, hi: usize, c: char) -> (r: bool)
    requires
        lo <= hi <= v.len(),
    ensures
        r == has_char(v@.subrange(lo as int, hi as int), c),
{
    let mut i = lo;
    while i < hi
        invariant
            lo <= i <= hi <= v.len(),
            forall|j: int| lo <= j < i ==> v@[j] != c,
        decreases hi - i,
    {
        if v[i] == c {
            assert(v@.subrange(lo as int, hi as int)[i - lo] == c);
            return true;
        }
        i = i + 1;
    }
    assert forall|j: int| 0 <= j < hi - lo implies v@.subrange(lo as int, hi as int)[j] != c by {
        assert(v@.subrange(lo as int, hi as int)[j] == v@[lo + j]);
    }
    false
}

} // verus!
