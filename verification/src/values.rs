//! Splitting CSS value text: white-space and comma separated lists that
//! respect parentheses, box shorthands, parenthesis stripping and grid lines.
use vstd::prelude::*;
use crate::text::is_ws;
use crate::text::trim;
use crate::text::starts_with;
use crate::text::is_whitespace;
use crate::text::trim_chars;
use crate::text::copy_range;
use crate::text::chars_of;
use crate::text::eq_lit;
use crate::text::starts_with_lit;
use crate::text::string_from_chars;
use crate::text::vecs_view;
use crate::num::parse_signed;
use crate::num::parse_int;
use crate::num::parse_unsigned;
use crate::num::parse_uint;
use crate::text::ends_with;
use crate::text::find_first;
use crate::text::find_lit;
use crate::text::lemma_find_first_occurs;
use crate::style::GridRepeatKind;

verus! {

broadcast use vstd::string::group_string_axioms;

/// The white-space separated values of `s` from position `i`, with `cur`
/// read so far at parenthesis depth `depth`: white space splits only outside
/// parentheses, and each value is trimmed, empty ones dropped.
pub open spec fn css_values_from(s: Seq<char>, i: int, cur: Seq<char>, depth: int) -> Seq<
    Seq<char>,
>
    decreases s.len() - i,
{
    if i < 0 || i >= s.len() {
        if trim(cur).len() > 0 {
            seq![trim(cur)]
        } else {
            Seq::empty()
        }
    } else {
        let c = s[i];
        if c == '(' {
            css_values_from(s, i + 1, cur.push(c), depth + 1)
        } else if c == ')' {
            css_values_from(s, i + 1, cur.push(c), depth - 1)
        } else if is_ws(c) && depth == 0 {
            (if trim(cur).len() > 0 {
                seq![trim(cur)]
            } else {
                Seq::empty()
            }) + css_values_from(s, i + 1, Seq::empty(), depth)
        } else {
            css_values_from(s, i + 1, cur.push(c), depth)
        }
    }
}

/// The values of a CSS value list such as `calc(100% - 4px) 2px`.
pub open spec fn css_values(s: Seq<char>) -> Seq<Seq<char>> {
    css_values_from(s, 0, Seq::empty(), 0)
}

/// Splits a CSS value list on white space outside parentheses (see
/// `css_values`).
pub fn split_css_values(s: &[char]) -> (r: Vec<Vec<char>>)
    ensures
        vecs_view(r@) == css_values(s@),
{
    let mut parts: Vec<Vec<char>> = Vec::new();
    let mut cur: Vec<char> = Vec::new();
    let mut opens: usize = 0;
    let mut closes: usize = 0;
    let mut i: usize = 0;
    while i < s.len()
        invariant
            i <= s@.len(),
            opens + closes <= i,
            vecs_view(parts@) + css_values_from(s@, i as int, cur@, opens - closes) == css_values(
                s@,
            ),
        decreases s@.len() - i,
    {
        let c = s[i];
        if c == '(' {
            cur.push(c);
            opens = opens + 1;
        } else if c == ')' {
            cur.push(c);
            closes = closes + 1;
        } else if is_whitespace(c) && opens == closes {
            let t = trim_chars(&cur);
            let ghost before = vecs_view(parts@);
            if t.len() > 0 {
                let ghost tv = t@;
                parts.push(t);
                assert(vecs_view(parts@) =~= before + seq![tv]);
                assert(before + (seq![tv] + css_values_from(s@, i + 1, Seq::empty(), 0)) =~= before
                    + seq![tv] + css_values_from(s@, i + 1, Seq::empty(), 0));
            } else {
                assert(Seq::<Seq<char>>::empty() + css_values_from(s@, i + 1, Seq::empty(), 0)
                    =~= css_values_from(s@, i + 1, Seq::empty(), 0));
            }
            cur = Vec::new();
            assert(cur@ =~= Seq::<char>::empty());
        } else {
            cur.push(c);
        }
        i = i + 1;
    }
    let t = trim_chars(&cur);
    if t.len() > 0 {
        let ghost before = vecs_view(parts@);
        let ghost tv = t@;
        parts.push(t);
        assert(vecs_view(parts@) =~= before + seq![tv]);
    } else {
        assert(vecs_view(parts@) + Seq::<Seq<char>>::empty() =~= vecs_view(parts@));
    }
    parts
}

/// The four sides (top, right, bottom, left) that a 1-4 value shorthand
/// gives; missing sides of a longer list are `0`.
pub open spec fn shorthand_sides(parts: Seq<Seq<char>>) -> Seq<Seq<char>> {
    if parts.len() == 1 {
        seq![parts[0], parts[0], parts[0], parts[0]]
    } else if parts.len() == 2 {
        seq![parts[0], parts[1], parts[0], parts[1]]
    } else if parts.len() == 3 {
        seq![parts[0], parts[1], parts[2], parts[1]]
    } else {
        Seq::new(4, |k: int| if k < parts.len() { parts[k] } else { "0"@ })
    }
}

/// The four sides of a margin/padding shorthand value (see
/// `shorthand_sides`).
pub fn parse_shorthand_4(s: &str) -> (r: Vec<String>)
    ensures
        r@.map_values(|x: String| x@) == shorthand_sides(css_values(s@)),
{
    let parts = split_css_values(&chars_of(s));
    let ghost pv = vecs_view(parts@);
    let n = parts.len();
    let mut out: Vec<String> = Vec::new();
    if n >= 1 && n <= 3 {
        let idx: [usize; 4] = if n == 1 {
            [0, 0, 0, 0]
        } else if n == 2 {
            [0, 1, 0, 1]
        } else {
            [0, 1, 2, 1]
        };
        let mut k: usize = 0;
        while k < 4
            invariant
                k <= 4,
                n == parts@.len(),
                1 <= n <= 3,
                pv == vecs_view(parts@),
                forall|j: int| 0 <= j < 4 ==> idx[j] < n,
                idx@ == (if n == 1 {
                    seq![0usize, 0, 0, 0]
                } else if n == 2 {
                    seq![0usize, 1, 0, 1]
                } else {
                    seq![0usize, 1, 2, 1]
                }),
                out@.map_values(|x: String| x@) == shorthand_sides(pv).subrange(0, k as int),
            decreases 4 - k,
        {
            let p = &parts[idx[k]];
            let ghost before = out@.map_values(|x: String| x@);
            assert(shorthand_sides(pv)[k as int] == pv[idx@[k as int] as int]);
            assert(pv[idx@[k as int] as int] == p@);
            let item = string_from_chars(p);
            out.push(item);
            assert(out@.map_values(|x: String| x@) =~= before.push(item@));
            assert(out@.map_values(|x: String| x@) =~= shorthand_sides(pv).subrange(0, k + 1));
            k = k + 1;
        }
    } else {
        let mut k: usize = 0;
        while k < 4
            invariant
                k <= 4,
                n == parts@.len(),
                !(1 <= n <= 3),
                pv == vecs_view(parts@),
                out@.map_values(|x: String| x@) == shorthand_sides(pv).subrange(0, k as int),
            decreases 4 - k,
        {
            let item = if k < n {
                string_from_chars(&parts[k])
            } else {
                string_from_chars(&chars_of("0"))
            };
            let ghost before = out@.map_values(|x: String| x@);
            assert(shorthand_sides(pv)[k as int] == item@);
            out.push(item);
            assert(out@.map_values(|x: String| x@) =~= before.push(item@));
            assert(out@.map_values(|x: String| x@) =~= shorthand_sides(pv).subrange(0, k + 1));
            k = k + 1;
        }
    }
    assert(shorthand_sides(pv).subrange(0, 4) =~= shorthand_sides(pv));
    out
}

/// The comma separated arguments of `s` from position `i`, with `cur` read
/// so far at parenthesis depth `depth`: commas split only outside
/// parentheses; every argument is trimmed, and a blank last one is dropped.
pub open spec fn comma_args_from(s: Seq<char>, i: int, cur: Seq<char>, depth: int) -> Seq<
    Seq<char>,
>
    decreases s.len() - i,
{
    if i < 0 || i >= s.len() {
        if trim(cur).len() > 0 {
            seq![trim(cur)]
        } else {
            Seq::empty()
        }
    } else {
        let c = s[i];
        if c == '(' {
            comma_args_from(s, i + 1, cur.push(c), depth + 1)
        } else if c == ')' {
            comma_args_from(s, i + 1, cur.push(c), depth - 1)
        } else if c == ',' && depth == 0 {
            seq![trim(cur)] + comma_args_from(s, i + 1, Seq::empty(), depth)
        } else {
            comma_args_from(s, i + 1, cur.push(c), depth)
        }
    }
}

/// The comma separated arguments of a gradient or shadow list such as
/// `135deg, rgb(1, 2, 3), #fff`.
pub open spec fn comma_args(s: Seq<char>) -> Seq<Seq<char>> {
    comma_args_from(s, 0, Seq::empty(), 0)
}

/// Splits on commas outside parentheses (see `comma_args`).
pub fn split_gradient_args(s: &str) -> (r: Vec<String>)
    ensures
        r@.map_values(|x: String| x@) == comma_args(s@),
{
    let v = chars_of(s);
    let mut parts: Vec<String> = Vec::new();
    let mut cur: Vec<char> = Vec::new();
    let mut opens: usize = 0;
    let mut closes: usize = 0;
    let mut i: usize = 0;
    while i < v.len()
        invariant
            i <= v@.len(),
            v@ == s@,
            opens + closes <= i,
            parts@.map_values(|x: String| x@) + comma_args_from(v@, i as int, cur@, opens - closes)
                == comma_args(s@),
        decreases v@.len() - i,
    {
        let c = v[i];
        if c == '(' {
            cur.push(c);
            opens = opens + 1;
        } else if c == ')' {
            cur.push(c);
            closes = closes + 1;
        } else if c == ',' && opens == closes {
            let t = string_from_chars(&trim_chars(&cur));
            let ghost before = parts@.map_values(|x: String| x@);
            let ghost tv = t@;
            parts.push(t);
            assert(parts@.map_values(|x: String| x@) =~= before + seq![tv]);
            assert(before + (seq![tv] + comma_args_from(v@, i + 1, Seq::empty(), 0)) =~= before
                + seq![tv] + comma_args_from(v@, i + 1, Seq::empty(), 0));
            cur = Vec::new();
            assert(cur@ =~= Seq::<char>::empty());
        } else {
            cur.push(c);
        }
        i = i + 1;
    }
    let t = trim_chars(&cur);
    if t.len() > 0 {
        let ghost before = parts@.map_values(|x: String| x@);
        let ts = string_from_chars(&t);
        let ghost tv = ts@;
        parts.push(ts);
        assert(parts@.map_values(|x: String| x@) =~= before + seq![tv]);
    } else {
        assert(parts@.map_values(|x: String| x@) + Seq::<Seq<char>>::empty() =~= parts@.map_values(
            |x: String| x@,
        ));
    }
    parts
}

/// Parenthesis depth after the first `k` characters of `s`.
pub open spec fn paren_depth(s: Seq<char>, k: int) -> int
    decreases k,
{
    if k <= 0 {
        0
    } else {
        paren_depth(s, k - 1) + (if s[k - 1] == '(' {
            1int
        } else if s[k - 1] == ')' {
            -1int
        } else {
            0int
        })
    }
}

/// The parentheses of `s` are balanced: the depth never drops below zero and
/// ends at zero.
pub open spec fn balanced(s: Seq<char>) -> bool {
    (forall|k: int| 0 <= k <= s.len() ==> #[trigger] paren_depth(s, k) >= 0) && paren_depth(
        s,
        s.len() as int,
    ) == 0
}

/// The inside of `s` (trimmed) when it is wrapped in one pair of parentheses
/// around a balanced text.
pub open spec fn outer_parens_inner(s: Seq<char>) -> Option<Seq<char>> {
    let t = trim(s);
    if t.len() >= 2 && t[0] == '(' && t.last() == ')' && balanced(t.subrange(1, t.len() - 1)) {
        Some(t.subrange(1, t.len() - 1))
    } else {
        None
    }
}

/// The inside of parenthesised text (see `outer_parens_inner`).
#[verifier::loop_isolation(false)]
pub fn strip_outer_parens(s: &[char]) -> (r: Option<Vec<char>>)
    ensures
        match r {
            Some(v) => outer_parens_inner(s@) == Some(v@),
            None => outer_parens_inner(s@) is None,
        },
{
    let t = trim_chars(s);
    let n = t.len();
    if !(n >= 2 && t[0] == '(' && t[n - 1] == ')') {
        return None;
    }
    let inner = copy_range(&t, 1, n - 1);
    let m = inner.len();
    let mut opens: usize = 0;
    let mut closes: usize = 0;
    let mut k: usize = 0;
    while k < m
        invariant
            k <= m == inner@.len(),
            opens + closes <= k,
            closes <= opens,
            opens - closes == paren_depth(inner@, k as int),
            forall|j: int| 0 <= j <= k ==> #[trigger] paren_depth(inner@, j) >= 0,
        decreases m - k,
    {
        if inner[k] == '(' {
            opens = opens + 1;
        } else if inner[k] == ')' {
            closes = closes + 1;
            if closes > opens {
                assert(paren_depth(inner@, k + 1) < 0);
                assert(!balanced(inner@));
                assert(inner@ == t@.subrange(1, n - 1));
                return None;
            }
        }
        k = k + 1;
    }
    if opens == closes {
        Some(inner)
    } else {
        None
    }
}

/// The grid line a `grid-column`/`grid-row` value names: `None` for `auto`,
/// blank, `span ...`, or anything that is not an `i16`.
pub open spec fn grid_line_of(s: Seq<char>) -> Option<int> {
    let t = trim(s);
    if t == "auto"@ || t.len() == 0 || starts_with(t, "span"@) {
        None
    } else {
        parse_signed(t, -32768, 32767)
    }
}

/// Parses a grid line (see `grid_line_of`).
pub fn parse_grid_line(s: &str) -> (r: Option<i16>)
    ensures
        match r {
            Some(v) => grid_line_of(s@) == Some(v as int),
            None => grid_line_of(s@) is None,
        },
{
    let t = trim_chars(&chars_of(s));
    if eq_lit(&t, "auto") || t.len() == 0 || starts_with_lit(&t, "span") {
        return None;
    }
    match parse_int(&t, 32768, 32767) {
        Some(v) => Some(v as i16),
        None => None,
    }
}


/// A white-space character longer than one byte in UTF-8.
pub open spec fn is_wide_ws(c: char) -> bool {
    is_ws(c) && (c as u32) > 0x7F
}

/// The parenthesis depth before position `i`: each `(` opens a level, each
/// `)` closes one (never below zero).
pub open spec fn track_depth(s: Seq<char>, i: int) -> nat
    decreases i,
{
    if i <= 0 {
        0
    } else {
        let d = track_depth(s, i - 1);
        if s[i - 1] == '(' {
            d + 1
        } else if s[i - 1] == ')' {
            if d > 0 {
                (d - 1) as nat
            } else {
                0
            }
        } else {
            d
        }
    }
}

/// Position `i` separates two pieces of a track list: white space outside
/// parentheses.
pub open spec fn is_track_sep(s: Seq<char>, i: int) -> bool {
    0 <= i < s.len() && is_ws(s[i]) && track_depth(s, i) == 0
}

/// Where the piece that reaches position `i` starts: just past the last
/// separator before `i`, else at 0.
pub open spec fn piece_start(s: Seq<char>, i: int) -> int
    decreases i,
{
    if i <= 0 {
        0
    } else if is_track_sep(s, i - 1) {
        i
    } else {
        piece_start(s, i - 1)
    }
}

/// The first position in `[lo, hi)` whose character is not `)`.
pub open spec fn first_non_close(s: Seq<char>, lo: int, hi: int) -> Option<int>
    decreases hi - lo,
{
    if hi <= lo {
        None
    } else {
        match first_non_close(s, lo, hi - 1) {
            Some(k) => Some(k),
            None => if s[hi - 1] != ')' {
                Some(hi - 1)
            } else {
                None
            },
        }
    }
}

/// The token of the piece `s[lo..hi)`: none when the piece holds nothing
/// but `)`; else the piece, trimmed, from its start when its first other
/// character is `(`, and from that character otherwise. Taking out a token
/// that begins at the piece's start just past a white-space character
/// longer than one byte in UTF-8 fails (`None`): that start lies inside the
/// character.
pub open spec fn piece_token(s: Seq<char>, lo: int, hi: int) -> Option<Option<Seq<char>>> {
    match first_non_close(s, lo, hi) {
        None => Some(None),
        Some(k) => if s[k] == '(' {
            if lo > 0 && is_wide_ws(s[lo - 1]) {
                None
            } else {
                Some(Some(trim(s.subrange(lo, hi))))
            }
        } else {
            Some(Some(trim(s.subrange(k, hi))))
        },
    }
}

/// Adds a piece's token, if it has one, to the tokens so far; a failure
/// stays a failure.
pub open spec fn with_token(acc: Option<Seq<Seq<char>>>, t: Option<Option<Seq<char>>>) -> Option<Seq<Seq<char>>> {
    match acc {
        Some(a) => match t {
            Some(Some(x)) => Some(a.push(x)),
            Some(None) => Some(a),
            None => None,
        },
        None => None,
    }
}

/// The tokens of the pieces that end before position `i`, in order.
pub open spec fn tokens_before(s: Seq<char>, i: int) -> Option<Seq<Seq<char>>>
    decreases i,
{
    if i <= 0 {
        Some(Seq::empty())
    } else if is_track_sep(s, i - 1) {
        with_token(tokens_before(s, i - 1), piece_token(s, piece_start(s, i - 1), i - 1))
    } else {
        tokens_before(s, i - 1)
    }
}

/// The tokens of a track list: the list is cut into pieces at white space
/// outside parentheses, and each piece gives its token (see
/// `piece_token`), in order; `None` where taking a token out fails.
pub open spec fn track_tokens(s: Seq<char>) -> Option<Seq<Seq<char>>> {
    with_token(tokens_before(s, s.len() as int), piece_token(s, piece_start(s, s.len() as int), s.len() as int))
}

/// Once taking a token out has failed, the tokens stay a failure.
proof fn lemma_tokens_fail(s: Seq<char>, i: int, j: int)
    requires
        0 <= i <= j,
        tokens_before(s, i) is None,
    ensures
        tokens_before(s, j) is None,
    decreases j - i,
{
    if j > i {
        lemma_tokens_fail(s, i, j - 1);
    }
}

/// The views of a list of strings.
pub open spec fn strings_view(v: Seq<String>) -> Seq<Seq<char>> {
    v.map_values(|x: String| x@)
}

/// Splits a track list into tokens, respecting parentheses (see
/// `track_tokens`); `None` where taking a token out of the text fails.
pub fn try_split_track_tokens(s: &str) -> (r: Option<Vec<String>>)
    ensures
        match track_tokens(s@) {
            Some(t) => r is Some && strings_view(r->0@) == t,
            None => r is None,
        },
{
    let v = chars_of(s);
    let n = v.len();
    let ghost sv = v@;
    let mut out: Vec<String> = Vec::new();
    let mut depth: usize = 0;
    let mut start: usize = 0;
    let mut in_token = false;
    let mut mid = false;
    let mut i: usize = 0;
    assert(strings_view(out@) =~= Seq::<Seq<char>>::empty());
    while i < n
        invariant
            n == sv.len(),
            sv == v@,
            v@ == s@,
            i <= n,
            depth <= i,
            depth == track_depth(sv, i as int),
            depth > 0 ==> in_token,
            tokens_before(sv, i as int) == Some(strings_view(out@)),
            piece_start(sv, i as int) <= i,
            in_token == first_non_close(sv, piece_start(sv, i as int), i as int) is Some,
            !in_token ==> start == piece_start(sv, i as int) && mid == (piece_start(sv, i as int) > 0
                && is_wide_ws(sv[piece_start(sv, i as int) - 1])),
            in_token ==> ({
                let lo = piece_start(sv, i as int);
                let k = first_non_close(sv, lo, i as int)->0;
                &&& lo <= k < i
                &&& if sv[k] == '(' {
                    start == lo && mid == (lo > 0 && is_wide_ws(sv[lo - 1]))
                } else {
                    start == k && !mid
                }
            }),
        decreases n - i,
    {
        let c = v[i];
        let ghost lo = piece_start(sv, i as int);
        proof {
            reveal_with_fuel(first_non_close, 2);
        }
        if c == '(' {
            depth = depth + 1;
            in_token = true;
        } else if c == ')' {
            if depth > 0 {
                depth = depth - 1;
            }
        } else if is_whitespace(c) && depth == 0 {
            assert(is_track_sep(sv, i as int));
            if in_token {
                if mid {
                    proof {
                        assert(piece_token(sv, lo, i as int) is None);
                        assert(tokens_before(sv, i + 1) is None);
                        lemma_tokens_fail(sv, i + 1, n as int);
                    }
                    return None;
                }
                let tok = string_from_chars(&trim_chars(&copy_range(&v, start, i)));
                let ghost before = strings_view(out@);
                out.push(tok);
                assert(strings_view(out@) =~= before.push(tok@));
                in_token = false;
            }
            start = i + 1;
            mid = (c as u32) > 0x7F;
        } else if !in_token {
            start = i;
            in_token = true;
            mid = false;
        }
        i = i + 1;
    }
    if in_token && start < n {
        if mid {
            return None;
        }
        let tok = string_from_chars(&trim_chars(&copy_range(&v, start, n)));
        let ghost before = strings_view(out@);
        out.push(tok);
        assert(strings_view(out@) =~= before.push(tok@));
    }
    Some(out)
}

/// Splits a track list into tokens, respecting parentheses (see
/// `track_tokens`): `minmax(40px, 1fr) 2fr` gives `minmax(40px, 1fr)` and
/// `2fr`.
pub fn split_track_tokens(s: &str) -> (r: Vec<String>)
    requires
        track_tokens(s@) is Some,
    ensures
        track_tokens(s@) == Some(strings_view(r@)),
{
    match try_split_track_tokens(s) {
        Some(t) => t,
        None => Vec::new(),
    }
}

/// How a track list reads: `repeat(count, track)` with its kind and track
/// text, or a list of track tokens.
pub enum TrackList {
    Repeat(GridRepeatKind, String),
    Tokens(Vec<String>),
}

/// The model of a track list reading.
pub enum TrackListV {
    Repeat(GridRepeatKind, Seq<char>),
    Tokens(Seq<Seq<char>>),
}

/// The model of a `TrackList`.
pub open spec fn track_list_view(t: TrackList) -> TrackListV {
    match t {
        TrackList::Repeat(k, d) => TrackListV::Repeat(k, d@),
        TrackList::Tokens(v) => TrackListV::Tokens(strings_view(v@)),
    }
}

/// The repeat count of `repeat(n, ...)`: `n` as a `u16` (1 when it is not
/// one), at most 100.
pub open spec fn repeat_count(k: Seq<char>) -> int {
    let n = match parse_unsigned(k, 65535) {
        Some(v) => v,
        None => 1,
    };
    if n > 100 {
        100
    } else {
        n
    }
}

/// The text between `repeat(` and the final `)` of `s`, when `s` has that
/// form.
pub open spec fn repeat_inner(s: Seq<char>) -> Option<Seq<char>> {
    if starts_with(s, "repeat("@) && s.len() >= 8 && s[s.len() - 1] == ')' {
        Some(s.subrange(7, s.len() - 1))
    } else {
        None
    }
}

/// How a track list reads: `repeat(kind, track)` (with a comma) gives the
/// kind (`auto-fill`, `auto-fit` or a count, see `repeat_count`) and the
/// trimmed track; anything else is split into tokens (see `track_tokens`).
pub open spec fn track_list_of(s: Seq<char>) -> Option<TrackListV> {
    let rep = match repeat_inner(s) {
        Some(inner) => match find_first(inner, seq![',']) {
            Some(c) => {
                let k = trim(inner.subrange(0, c));
                let kind = if k == "auto-fill"@ {
                    GridRepeatKind::AutoFill
                } else if k == "auto-fit"@ {
                    GridRepeatKind::AutoFit
                } else {
                    GridRepeatKind::Count(repeat_count(k) as u16)
                };
                Some(TrackListV::Repeat(kind, trim(inner.subrange(c + 1, inner.len() as int))))
            },
            None => None,
        },
        None => None,
    };
    match rep {
        Some(r) => Some(r),
        None => match track_tokens(s) {
            Some(t) => Some(TrackListV::Tokens(t)),
            None => None,
        },
    }
}

/// Reads a grid track list (see `track_list_of`); `None` where taking a
/// token out of the text fails.
pub fn try_parse_track_list(s: &str) -> (r: Option<TrackList>)
    ensures
        match track_list_of(s@) {
            Some(t) => r is Some && track_list_view(r->0) == t,
            None => r is None,
        },
{
    let v = chars_of(s);
    let n = v.len();
    proof {
        reveal_strlit("repeat(");
        reveal_strlit(",");
        assert(","@ =~= seq![',']);
    }
    if starts_with_lit(&v, "repeat(") && n >= 8 && v[n - 1] == ')' {
        let inner = copy_range(&v, 7, n - 1);
        match find_lit(&inner, ",") {
            Some(c) => {
                proof {
                    lemma_find_first_occurs(inner@, seq![',']);
                }
                let k = trim_chars(&copy_range(&inner, 0, c));
                let m = inner.len();
                let def = string_from_chars(&trim_chars(&copy_range(&inner, c + 1, m)));
                let kind = if eq_lit(&k, "auto-fill") {
                    GridRepeatKind::AutoFill
                } else if eq_lit(&k, "auto-fit") {
                    GridRepeatKind::AutoFit
                } else {
                    let cnt: u16 = match parse_uint(&k, 65535) {
                        Some(x) => if x > 100 {
                            100
                        } else {
                            x as u16
                        },
                        None => 1,
                    };
                    GridRepeatKind::Count(cnt)
                };
                return Some(TrackList::Repeat(kind, def));
            },
            None => {},
        }
    }
    match try_split_track_tokens(s) {
        Some(t) => Some(TrackList::Tokens(t)),
        None => None,
    }
}

/// Reads a grid track list (see `track_list_of`).
pub fn parse_track_list(s: &str) -> (r: TrackList)
    requires
        track_list_of(s@) is Some,
    ensures
        track_list_of(s@) == Some(track_list_view(r)),
{
    match try_parse_track_list(s) {
        Some(t) => t,
        None => TrackList::Tokens(Vec::new()),
    }
}

} // verus!
