//! Character-level helpers shared by the parsers.
use vstd::prelude::*;

verus! {

broadcast use vstd::string::group_string_axioms;

/// Unicode `White_Space`, the set that `char::is_whitespace`, `str::trim` and
/// `str::split_whitespace` go by.
pub open spec fn is_ws(c: char) -> bool {
    ||| ('\u{9}' <= c && c <= '\u{d}')
    ||| c == ' '
    ||| c == '\u{85}'
    ||| c == '\u{a0}'
    ||| c == '\u{1680}'
    ||| ('\u{2000}' <= c && c <= '\u{200a}')
    ||| c == '\u{2028}'
    ||| c == '\u{2029}'
    ||| c == '\u{202f}'
    ||| c == '\u{205f}'
    ||| c == '\u{3000}'
}

/// `s` without its leading white space.
pub open spec fn trim_start(s: Seq<char>) -> Seq<char>
    decreases s.len(),
{
    if s.len() > 0 && is_ws(s[0]) {
        trim_start(s.drop_first())
    } else {
        s
    }
}

/// `s` without its trailing white space.
pub open spec fn trim_end(s: Seq<char>) -> Seq<char>
    decreases s.len(),
{
    if s.len() > 0 && is_ws(s.last()) {
        trim_end(s.drop_last())
    } else {
        s
    }
}

/// `s` without leading and trailing white space.
pub open spec fn trim(s: Seq<char>) -> Seq<char> {
    trim_end(trim_start(s))
}

/// `s` without any leading `c`.
pub open spec fn trim_start_char(s: Seq<char>, c: char) -> Seq<char>
    decreases s.len(),
{
    if s.len() > 0 && s[0] == c {
        trim_start_char(s.drop_first(), c)
    } else {
        s
    }
}

/// `s` without any trailing `c`.
pub open spec fn trim_end_char(s: Seq<char>, c: char) -> Seq<char>
    decreases s.len(),
{
    if s.len() > 0 && s.last() == c {
        trim_end_char(s.drop_last(), c)
    } else {
        s
    }
}

/// `p` occurs in `s` at position `i`.
pub open spec fn occurs_at(s: Seq<char>, p: Seq<char>, i: int) -> bool {
    0 <= i && i + p.len() <= s.len() && s.subrange(i, i + p.len()) == p
}

/// The first position at or after `i` where `p` occurs in `s`.
pub open spec fn find_from(s: Seq<char>, p: Seq<char>, i: int) -> Option<int>
    decreases s.len() + 1 - i,
{
    if i < 0 || i > s.len() {
        None
    } else if occurs_at(s, p, i) {
        Some(i)
    } else {
        find_from(s, p, i + 1)
    }
}

/// The first position where `p` occurs in `s`.
pub open spec fn find_first(s: Seq<char>, p: Seq<char>) -> Option<int> {
    find_from(s, p, 0)
}

/// `p` occurs somewhere in `s`.
pub open spec fn contains_seq(s: Seq<char>, p: Seq<char>) -> bool {
    exists|i: int| occurs_at(s, p, i)
}

/// `s` begins with `p`.
pub open spec fn starts_with(s: Seq<char>, p: Seq<char>) -> bool {
    p.len() <= s.len() && s.subrange(0, p.len() as int) == p
}

/// `s` ends with `p`.
pub open spec fn ends_with(s: Seq<char>, p: Seq<char>) -> bool {
    p.len() <= s.len() && s.subrange(s.len() - p.len(), s.len() as int) == p
}

/// Whether `c` is white space.
pub fn is_whitespace(c: char) -> (b: bool)
    ensures
        b == is_ws(c),
{
    ('\u{9}' <= c && c <= '\u{d}') || c == ' ' || c == '\u{85}' || c == '\u{a0}' || c
        == '\u{1680}' || ('\u{2000}' <= c && c <= '\u{200a}') || c == '\u{2028}' || c
        == '\u{2029}' || c == '\u{202f}' || c == '\u{205f}' || c == '\u{3000}'
}

/// The characters of `s`, in order.
pub fn chars_of(s: &str) -> (v: Vec<char>)
    ensures
        v@ == s@,
{
    let mut v: Vec<char> = Vec::new();
    for c in it: s.chars()
        invariant
            v@ == it.seq().take(it.index() as int),
    {
        v.push(c);
    }
    v
}

/// A `String` made of the characters of `cs`, calling `FromIterator<&char>`
/// for `String` (std); the contract claims that the result holds exactly those
/// characters in that order.
#[verifier::external_body]
pub(crate) fn string_from_chars(cs: &[char]) -> (s: String)
    ensures
        s@ == cs@,
{
    cs.iter().collect()
}

/// The characters `v[lo..hi]`, copied.
pub fn copy_range(v: &[char], lo: usize, hi: usize) -> (r: Vec<char>)
    requires
        lo <= hi <= v@.len(),
    ensures
        r@ == v@.subrange(lo as int, hi as int),
{
    let mut r: Vec<char> = Vec::new();
    let mut i = lo;
    while i < hi
        invariant
            lo <= i <= hi <= v@.len(),
            r@ == v@.subrange(lo as int, i as int),
        decreases hi - i,
    {
        r.push(v[i]);
        i = i + 1;
    }
    r
}

/// Whether the characters `v` spell `lit`.
pub fn eq_lit(v: &[char], lit: &str) -> (b: bool)
    ensures
        b == (v@ == lit@),
{
    let n = lit.unicode_len();
    if v.len() != n {
        return false;
    }
    let mut i: usize = 0;
    while i < n
        invariant
            n == lit@.len() == v@.len(),
            i <= n,
            v@.subrange(0, i as int) == lit@.subrange(0, i as int),
        decreases n - i,
    {
        if v[i] != lit.get_char(i) {
            return false;
        }
        assert(v@.subrange(0, i + 1) == v@.subrange(0, i as int).push(v@[i as int]));
        assert(lit@.subrange(0, i + 1) == lit@.subrange(0, i as int).push(lit@[i as int]));
        i = i + 1;
    }
    assert(v@ == v@.subrange(0, n as int));
    assert(lit@ == lit@.subrange(0, n as int));
    true
}

/// Whether `lit` occurs in `v` at position `i`.
pub fn occurs_lit_at(v: &[char], lit: &str, i: usize) -> (b: bool)
    ensures
        b == occurs_at(v@, lit@, i as int),
{
    let n = lit.unicode_len();
    if i > v.len() || v.len() - i < n {
        return false;
    }
    let mut k: usize = 0;
    while k < n
        invariant
            n == lit@.len(),
            i + n <= v@.len(),
            v@.len() == v.len(),
            k <= n,
            v@.subrange(i as int, i + k) == lit@.subrange(0, k as int),
        decreases n - k,
    {
        if v[i + k] != lit.get_char(k) {
            assert(v@.subrange(i as int, i + n)[k as int] == v@[i + k]);
            return false;
        }
        assert(v@.subrange(i as int, i + k + 1) == v@.subrange(i as int, i + k).push(
            v@[i + k],
        ));
        assert(lit@.subrange(0, k + 1) == lit@.subrange(0, k as int).push(lit@[k as int]));
        k = k + 1;
    }
    assert(lit@ == lit@.subrange(0, n as int));
    true
}

/// Whether `v` begins with `lit`.
pub fn starts_with_lit(v: &[char], lit: &str) -> (b: bool)
    ensures
        b == starts_with(v@, lit@),
{
    occurs_lit_at(v, lit, 0)
}

/// Whether `v` ends with `lit`.
pub fn ends_with_lit(v: &[char], lit: &str) -> (b: bool)
    ensures
        b == ends_with(v@, lit@),
{
    let n = lit.unicode_len();
    if v.len() < n {
        return false;
    }
    occurs_lit_at(v, lit, v.len() - n)
}

/// Position of the first occurrence of `lit` in `v`, if any.
pub fn find_lit(v: &[char], lit: &str) -> (r: Option<usize>)
    ensures
        r matches Some(i) ==> find_first(v@, lit@) == Some(i as int),
        r is None ==> find_first(v@, lit@) is None,
        match r {
            Some(i) => occurs_at(v@, lit@, i as int) && forall|j: int|
                0 <= j < i ==> !occurs_at(v@, lit@, j),
            None => !contains_seq(v@, lit@),
        },
{
    let mut i: usize = 0;
    while i < v.len()
        invariant
            i <= v@.len(),
            forall|j: int| 0 <= j < i ==> !occurs_at(v@, lit@, j),
            find_first(v@, lit@) == find_from(v@, lit@, i as int),
        decreases v@.len() - i,
    {
        if occurs_lit_at(v, lit, i) {
            return Some(i);
        }
        i = i + 1;
    }
    if occurs_lit_at(v, lit, i) {
        return Some(i);
    }
    assert(find_from(v@, lit@, i + 1) is None);
    assert forall|j: int| !occurs_at(v@, lit@, j) by {
        if 0 <= j < i {
        } else if j >= i {
        }
    }
    None
}

/// Whether `lit` occurs in `v`.
pub fn contains_lit(v: &[char], lit: &str) -> (b: bool)
    ensures
        b == contains_seq(v@, lit@),
{
    find_lit(v, lit).is_some()
}

/// Number of leading white-space characters of `s`, as a step of `trim_start`.
pub proof fn lemma_trim_start_step(s: Seq<char>, i: int)
    requires
        0 <= i < s.len(),
        is_ws(s[i]),
    ensures
        trim_start(s.subrange(i, s.len() as int)) == trim_start(s.subrange(i + 1, s.len() as int)),
{
    assert(s.subrange(i, s.len() as int).drop_first() == s.subrange(i + 1, s.len() as int));
}

/// One step of `trim_end` from the back.
pub proof fn lemma_trim_end_step(s: Seq<char>, j: int)
    requires
        0 < j <= s.len(),
        is_ws(s[j - 1]),
    ensures
        trim_end(s.subrange(0, j)) == trim_end(s.subrange(0, j - 1)),
{
    assert(s.subrange(0, j).drop_last() == s.subrange(0, j - 1));
}

/// `v` without leading and trailing white space.
pub fn trim_chars(v: &[char]) -> (r: Vec<char>)
    ensures
        r@ == trim(v@),
{
    let n = v.len();
    let mut lo: usize = 0;
    assert(v@.subrange(0, n as int) == v@);
    while lo < n && is_whitespace(v[lo])
        invariant
            lo <= n == v@.len(),
            trim_start(v@) == trim_start(v@.subrange(lo as int, n as int)),
        decreases n - lo,
    {
        proof {
            lemma_trim_start_step(v@, lo as int);
        }
        lo = lo + 1;
    }
    let ghost t = v@.subrange(lo as int, n as int);
    assert(trim_start(v@) == t);
    let mut hi: usize = n;
    assert(t.subrange(0, (n - lo) as int) == t);
    while hi > lo && is_whitespace(v[hi - 1])
        invariant
            lo <= hi <= n == v@.len(),
            t == v@.subrange(lo as int, n as int),
            trim_end(t) == trim_end(t.subrange(0, (hi - lo) as int)),
        decreases hi - lo,
    {
        proof {
            lemma_trim_end_step(t, (hi - lo) as int);
        }
        hi = hi - 1;
    }
    assert(t.subrange(0, (hi - lo) as int) == v@.subrange(lo as int, hi as int));
    copy_range(v, lo, hi)
}

/// `v` without any leading `c`.
pub fn trim_start_matches_char(v: &[char], c: char) -> (r: Vec<char>)
    ensures
        r@ == trim_start_char(v@, c),
{
    let n = v.len();
    let mut lo: usize = 0;
    assert(v@.subrange(0, n as int) == v@);
    while lo < n && v[lo] == c
        invariant
            lo <= n == v@.len(),
            trim_start_char(v@, c) == trim_start_char(v@.subrange(lo as int, n as int), c),
        decreases n - lo,
    {
        assert(v@.subrange(lo as int, n as int).drop_first() == v@.subrange(lo + 1, n as int));
        lo = lo + 1;
    }
    copy_range(v, lo, n)
}

/// `v` without any trailing `c`.
pub fn trim_end_matches_char(v: &[char], c: char) -> (r: Vec<char>)
    ensures
        r@ == trim_end_char(v@, c),
{
    let n = v.len();
    let mut hi: usize = n;
    assert(v@.subrange(0, n as int) == v@);
    while hi > 0 && v[hi - 1] == c
        invariant
            hi <= n == v@.len(),
            trim_end_char(v@, c) == trim_end_char(v@.subrange(0, hi as int), c),
        decreases hi,
    {
        assert(v@.subrange(0, hi as int).drop_last() == v@.subrange(0, hi - 1));
        hi = hi - 1;
    }
    copy_range(v, 0, hi)
}

/// Unicode lower-case mapping of a string, as `str::to_lowercase` computes it.
pub uninterp spec fn lowercase(s: Seq<char>) -> Seq<char>;

/// Calls `str::to_lowercase` (std); the contract claims that the result is
/// the lower-case mapping named `lowercase` of the argument, a function of
/// the argument alone, and, as std documents for ASCII text, that ASCII
/// text is lower-cased letter by letter.
#[verifier::external_body]
pub(crate) fn to_lowercase(s: &[char]) -> (r: Vec<char>)
    ensures
        r@ == lowercase(s@),
        (forall|i: int| 0 <= i < s@.len() ==> (#[trigger] s@[i] as u32) < 128) ==> r@
            == crate::html::ascii_lower_seq(s@),
{
    let owned: String = s.iter().collect();
    owned.to_lowercase().chars().collect()
}

/// The last position at or before `i` where `p` occurs in `s`.
pub open spec fn find_last_from(s: Seq<char>, p: Seq<char>, i: int) -> Option<int>
    decreases i + 1,
{
    if i < 0 {
        None
    } else if occurs_at(s, p, i) {
        Some(i)
    } else {
        find_last_from(s, p, i - 1)
    }
}

/// The last position where `p` occurs in `s`.
pub open spec fn find_last(s: Seq<char>, p: Seq<char>) -> Option<int> {
    find_last_from(s, p, s.len() as int)
}

/// Position of the last occurrence of `lit` in `v`, if any.
pub fn rfind_lit(v: &[char], lit: &str) -> (r: Option<usize>)
    ensures
        r matches Some(i) ==> find_last(v@, lit@) == Some(i as int),
        r is None ==> find_last(v@, lit@) is None,
{
    let mut i: usize = v.len();
    loop
        invariant
            i <= v@.len(),
            find_last(v@, lit@) == find_last_from(v@, lit@, i as int),
        decreases i,
    {
        if occurs_lit_at(v, lit, i) {
            return Some(i);
        }
        if i == 0 {
            assert(find_last_from(v@, lit@, -1) is None);
            return None;
        }
        i = i - 1;
    }
}

/// The white-space separated words of `s` from position `i`, `cur` being
/// the part of a word already read.
pub open spec fn split_ws_from(s: Seq<char>, i: int, cur: Seq<char>) -> Seq<Seq<char>>
    decreases s.len() - i,
{
    if i < 0 || i >= s.len() {
        if cur.len() > 0 {
            seq![cur]
        } else {
            Seq::empty()
        }
    } else if is_ws(s[i]) {
        (if cur.len() > 0 {
            seq![cur]
        } else {
            Seq::empty()
        }) + split_ws_from(s, i + 1, Seq::empty())
    } else {
        split_ws_from(s, i + 1, cur.push(s[i]))
    }
}

/// The white-space separated words of `s`, as `str::split_whitespace` gives
/// them.
pub open spec fn split_ws(s: Seq<char>) -> Seq<Seq<char>> {
    split_ws_from(s, 0, Seq::empty())
}

/// The views of a list of character vectors.
pub open spec fn vecs_view(v: Seq<Vec<char>>) -> Seq<Seq<char>> {
    v.map_values(|x: Vec<char>| x@)
}

/// The white-space separated words of `v`.
pub fn split_whitespace(v: &[char]) -> (r: Vec<Vec<char>>)
    ensures
        vecs_view(r@) == split_ws(v@),
{
    let mut out: Vec<Vec<char>> = Vec::new();
    let mut cur: Vec<char> = Vec::new();
    let mut i: usize = 0;
    while i < v.len()
        invariant
            i <= v@.len(),
            vecs_view(out@) + split_ws_from(v@, i as int, cur@) == split_ws(v@),
        decreases v@.len() - i,
    {
        if is_whitespace(v[i]) {
            if cur.len() > 0 {
                let ghost o = vecs_view(out@);
                let ghost c = cur@;
                out.push(cur);
                assert(vecs_view(out@) == o.push(c));
                assert(seq![c] + split_ws_from(v@, i + 1, Seq::empty()) == seq![c].add(
                    split_ws_from(v@, i + 1, Seq::empty()),
                ));
                assert(o.push(c) + split_ws_from(v@, i + 1, Seq::empty()) == o + (seq![c]
                    + split_ws_from(v@, i + 1, Seq::empty())));
            } else {
                assert(Seq::<Seq<char>>::empty() + split_ws_from(v@, i + 1, Seq::empty())
                    == split_ws_from(v@, i + 1, Seq::empty()));
            }
            cur = Vec::new();
        } else {
            cur.push(v[i]);
        }
        i = i + 1;
    }
    if cur.len() > 0 {
        let ghost o = vecs_view(out@);
        let ghost c = cur@;
        out.push(cur);
        assert(vecs_view(out@) == o.push(c));
        assert(o.push(c) == o + seq![c]);
    } else {
        assert(vecs_view(out@) + Seq::<Seq<char>>::empty() == vecs_view(out@));
    }
    out
}


/// Trimming never lengthens.
pub proof fn lemma_trim_len(s: Seq<char>)
    ensures
        trim(s).len() <= s.len(),
        trim_start(s).len() <= s.len(),
{
    lemma_trim_start_len(s);
    lemma_trim_end_len(trim_start(s));
}

proof fn lemma_trim_start_len(s: Seq<char>)
    ensures
        trim_start(s).len() <= s.len(),
    decreases s.len(),
{
    if s.len() > 0 && is_ws(s[0]) {
        lemma_trim_start_len(s.drop_first());
    }
}

proof fn lemma_trim_end_len(s: Seq<char>)
    ensures
        trim_end(s).len() <= s.len(),
    decreases s.len(),
{
    if s.len() > 0 && is_ws(s.last()) {
        lemma_trim_end_len(s.drop_last());
    }
}

/// Where a search finds `p`, `p` occurs, inside `s`.
pub proof fn lemma_find_first_occurs(s: Seq<char>, p: Seq<char>)
    ensures
        find_first(s, p) matches Some(i) ==> occurs_at(s, p, i) && 0 <= i && i + p.len() <= s.len(),
{
    lemma_find_from_occurs(s, p, 0);
}

proof fn lemma_find_from_occurs(s: Seq<char>, p: Seq<char>, i: int)
    ensures
        find_from(s, p, i) matches Some(k) ==> occurs_at(s, p, k) && i <= k,
    decreases s.len() + 1 - i,
{
    if 0 <= i <= s.len() && !occurs_at(s, p, i) {
        lemma_find_from_occurs(s, p, i + 1);
    }
}

} // verus!
