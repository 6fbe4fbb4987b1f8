//! Media queries, evaluated against the fixed viewport of 1280 by 720 CSS
//! pixels (root font size 16): media types, `(feature: value)` tests,
//! `not`, `and`, and comma-separated lists.
use vstd::prelude::*;
use crate::decimal::FloatText;
use crate::decimal::FloatLit;
use crate::decimal::float_text;
use crate::decimal::parse_float_text;
use crate::decimal::lit_matches;
use crate::decimal::lit_bounds;
use crate::decimal::text_at_most;
use crate::decimal::text_at_least;
use crate::decimal::pow2;
use crate::decimal::pow5;
use crate::decimal::pow10;
use crate::text::trim;
use crate::text::ends_with;
use crate::text::find_first;
use crate::text::occurs_at;
use crate::text::chars_of;
use crate::text::copy_range;
use crate::text::trim_chars;
use crate::text::eq_lit;
use crate::text::ends_with_lit;
use crate::text::find_lit;
use crate::text::lemma_trim_len;
use crate::text::lemma_find_first_occurs;

verus! {

broadcast use vstd::string::group_string_axioms;

/// `t + 2^-k` as a decimal fraction with `k` digits after the point:
/// `(t · 2^k + 1) · 5^k · 10^-k`.
pub open spec fn round_up_bound(t: nat, k: nat) -> nat {
    (t * pow2(k) + 1) * pow5(k)
}

/// `t - 2^-k` as a decimal fraction with `k` digits after the point.
pub open spec fn round_down_bound(t: nat, k: nat) -> nat {
    ((t * pow2(k) - 1) as nat) * pow5(k)
}

/// A media length: its trimmed text read as a float literal, after a `px`
/// or `em` suffix (and the space before it) is taken off; the flag says
/// `em`. A value ending in `rem` ends in `em` too, and its number then ends
/// in `r`, which no literal does.
pub open spec fn media_length(v: Seq<char>) -> Option<(FloatText, bool)> {
    let s = trim(v);
    if ends_with(s, seq!['p', 'x']) {
        match float_text(trim(s.subrange(0, s.len() - 2))) {
            Some(f) => Some((f, false)),
            None => None,
        }
    } else if ends_with(s, seq!['e', 'm']) {
        match float_text(trim(s.subrange(0, s.len() - 2))) {
            Some(f) => Some((f, true)),
            None => None,
        }
    } else {
        match float_text(s) {
            Some(f) => Some((f, false)),
            None => None,
        }
    }
}

/// The viewport's width (1280) or height (720) compared with a media
/// length, as the comparison of the length read as an `f32` decides it: at
/// least the length when `at_least`, else at most. An `em` length is sixteen
/// times its number, which scales exactly, so it is compared with 80 or 45.
/// Rounding to the nearest `f32` (ties to even) gives at most `t` exactly
/// when the number is at most `t + 2^-k`, and at least `t` exactly when it
/// is at least `t - 2^-k`, `2^-k` being half the spacing of `f32` values
/// around `t`: `k` is 14 for 1280, 15 for 720, 18 for 80 and 19 for 45.
pub open spec fn viewport_vs_length(v: Seq<char>, width: bool, at_least: bool) -> bool {
    match media_length(v) {
        None => false,
        Some((f, em)) => {
            let t: nat = if width {
                if em {
                    80
                } else {
                    1280
                }
            } else if em {
                45
            } else {
                720
            };
            let k: nat = if width {
                if em {
                    18
                } else {
                    14
                }
            } else if em {
                19
            } else {
                15
            };
            if at_least {
                text_at_most(f, round_up_bound(t, k), k)
            } else {
                text_at_least(f, round_down_bound(t, k), k)
            }
        },
    }
}

/// Whether one part of a media query holds (its text is trimmed first):
/// `screen`, `all` and the empty part do; the other media types do not; a
/// `(feature: value)` test is decided by the viewport, a light colour
/// scheme, no preference for reduced motion and landscape orientation;
/// `(feature)` alone holds except for `prefers-reduced-motion`; anything
/// else is let through.
pub open spec fn part_holds(part: Seq<char>) -> bool {
    let p = trim(part);
    if p == "screen"@ || p == "all"@ || p.len() == 0 {
        true
    } else if p == "print"@ || p == "tty"@ || p == "tv"@ || p == "projection"@ || p == "handheld"@
        || p == "braille"@ || p == "embossed"@ || p == "aural"@ {
        false
    } else if !(p.len() >= 2 && p[0] == '(' && p[p.len() - 1] == ')') {
        true
    } else {
        let inner = p.subrange(1, p.len() - 1);
        match find_first(inner, seq![':']) {
            Some(c) => {
                let feature = trim(inner.subrange(0, c));
                let value = trim(inner.subrange(c + 1, inner.len() as int));
                if feature == "min-width"@ {
                    viewport_vs_length(value, true, true)
                } else if feature == "max-width"@ {
                    viewport_vs_length(value, true, false)
                } else if feature == "min-height"@ {
                    viewport_vs_length(value, false, true)
                } else if feature == "max-height"@ {
                    viewport_vs_length(value, false, false)
                } else if feature == "prefers-color-scheme"@ {
                    value == "light"@
                } else if feature == "prefers-reduced-motion"@ {
                    value == "no-preference"@
                } else if feature == "orientation"@ {
                    value == "landscape"@
                } else {
                    true
                }
            },
            None => trim(inner) != "prefers-reduced-motion"@,
        }
    }
}

/// Whether every part of `s` between occurrences of ` and ` holds.
pub open spec fn and_holds(s: Seq<char>) -> bool
    decreases s.len(),
{
    match find_first(s, seq![' ', 'a', 'n', 'd', ' ']) {
        Some(p) => {
            proof {
                lemma_find_first_occurs(s, seq![' ', 'a', 'n', 'd', ' ']);
            }
            part_holds(trim(s.subrange(0, p))) && and_holds(s.subrange(p + 5, s.len() as int))
        },
        None => part_holds(trim(s)),
    }
}

/// Whether a media query holds: the empty query does; a comma-separated
/// list holds when one of its queries (each trimmed) does; `not q` holds
/// when `q` (trimmed) does not; otherwise every part between occurrences of
/// ` and ` must hold.
pub open spec fn media_query_holds(c: Seq<char>) -> bool
    decreases c.len(), 0int,
{
    let t = trim(c);
    proof {
        lemma_trim_len(c);
    }
    if t.len() == 0 {
        true
    } else {
        match find_first(t, seq![',']) {
            Some(p) => {
                proof {
                    lemma_find_first_occurs(t, seq![',']);
                    lemma_trim_len(t.subrange(0, p));
                }
                media_query_holds(trim(t.subrange(0, p))) || media_list_holds(
                    t.subrange(p + 1, t.len() as int),
                )
            },
            None => if t.len() >= 4 && t[0] == 'n' && t[1] == 'o' && t[2] == 't' && t[3] == ' ' {
                proof {
                    lemma_trim_len(t.subrange(4, t.len() as int));
                }
                !media_query_holds(trim(t.subrange(4, t.len() as int)))
            } else {
                and_holds(t)
            },
        }
    }
}

/// Whether one of the comma-separated queries of `r` (each trimmed) holds.
pub open spec fn media_list_holds(r: Seq<char>) -> bool
    decreases r.len(), 1int,
{
    match find_first(r, seq![',']) {
        Some(p) => {
            proof {
                lemma_find_first_occurs(r, seq![',']);
                lemma_trim_len(r.subrange(0, p));
            }
            media_query_holds(trim(r.subrange(0, p))) || media_list_holds(
                r.subrange(p + 1, r.len() as int),
            )
        },
        None => {
            proof {
                lemma_trim_len(r);
            }
            media_query_holds(trim(r))
        },
    }
}

// ---------------------------------------------------------------------------
// Evaluation
// ---------------------------------------------------------------------------
/// Reads a media length (see `media_length`).
fn read_media_length(v: &[char]) -> (r: Option<(FloatLit, bool)>)
    ensures
        match media_length(v@) {
            None => r is None,
            Some((f, em)) => r matches Some((l, em2)) && lit_matches(l, f) && em2 == em,
        },
{
    let s = trim_chars(v);
    proof {
        reveal_strlit("px");
        reveal_strlit("em");
        assert("px"@ =~= seq!['p', 'x']);
        assert("em"@ =~= seq!['e', 'm']);
    }
    if ends_with_lit(&s, "px") {
        let n = s.len();
        let f = parse_float_text(&trim_chars(&copy_range(&s, 0, n - 2)));
        match f {
            Some(l) => Some((l, false)),
            None => None,
        }
    } else if ends_with_lit(&s, "em") {
        let n = s.len();
        let f = parse_float_text(&trim_chars(&copy_range(&s, 0, n - 2)));
        match f {
            Some(l) => Some((l, true)),
            None => None,
        }
    } else {
        match parse_float_text(&s) {
            Some(l) => Some((l, false)),
            None => None,
        }
    }
}

/// Compares the viewport with a media length (see `viewport_vs_length`).
fn viewport_vs(v: &[char], width: bool, at_least: bool) -> (b: bool)
    ensures
        b == viewport_vs_length(v@, width, at_least),
{
    match read_media_length(v) {
        None => false,
        Some((l, em)) => {
            let ghost pair = media_length(v@)->0;
            let ghost f = pair.0;
            let (c, lc, k): (u128, u32, u32) = if width {
                if em {
                    if at_least {
                        (80000003814697265625, 20, 18)
                    } else {
                        (79999996185302734375, 20, 18)
                    }
                } else if at_least {
                    (128000006103515625, 18, 14)
                } else {
                    (127999993896484375, 18, 14)
                }
            } else if em {
                if at_least {
                    (450000019073486328125, 21, 19)
                } else {
                    (449999980926513671875, 21, 19)
                }
            } else if at_least {
                (720000030517578125, 18, 15)
            } else {
                (719999969482421875, 18, 15)
            };
            proof {
                reveal_with_fuel(pow2, 20);
                reveal_with_fuel(pow5, 20);
                reveal_with_fuel(pow10, 22);
                assert(pow2(14) == 16384);
                assert(pow2(15) == 32768);
                assert(pow2(18) == 262144);
                assert(pow2(19) == 524288);
                assert(pow5(14) == 6103515625);
                assert(pow5(15) == 30517578125);
                assert(pow5(18) == 3814697265625);
                assert(pow5(19) == 19073486328125);
                assert(round_up_bound(1280, 14) == 128000006103515625);
                assert(round_down_bound(1280, 14) == 127999993896484375);
                assert(round_up_bound(720, 15) == 720000030517578125);
                assert(round_down_bound(720, 15) == 719999969482421875);
                assert(round_up_bound(80, 18) == 80000003814697265625);
                assert(round_down_bound(80, 18) == 79999996185302734375);
                assert(round_up_bound(45, 19) == 450000019073486328125);
                assert(round_down_bound(45, 19) == 449999980926513671875);
                assert(pow10(17) == 100000000000000000);
                assert(pow10(18) == 1000000000000000000);
                assert(pow10(19) == 10000000000000000000);
                assert(pow10(20) == 100000000000000000000);
                assert(pow10(21) == 1000000000000000000000);
            }
            let (lo, hi) = lit_bounds(&l, c, lc, k, Ghost(f));
            if at_least {
                lo
            } else {
                hi
            }
        },
    }
}

/// Decides one part of a media query (see `part_holds`).
fn part_chars(part: &[char]) -> (b: bool)
    ensures
        b == part_holds(part@),
{
    let p = trim_chars(part);
    if eq_lit(&p, "screen") || eq_lit(&p, "all") || p.len() == 0 {
        return true;
    }
    if eq_lit(&p, "print") || eq_lit(&p, "tty") || eq_lit(&p, "tv") || eq_lit(&p, "projection")
        || eq_lit(&p, "handheld") || eq_lit(&p, "braille") || eq_lit(&p, "embossed") || eq_lit(
        &p,
        "aural",
    ) {
        return false;
    }
    let n = p.len();
    if !(n >= 2 && p[0] == '(' && p[n - 1] == ')') {
        return true;
    }
    let inner = copy_range(&p, 1, n - 1);
    proof {
        reveal_strlit(":");
        assert(":"@ =~= seq![':']);
    }
    match find_lit(&inner, ":") {
        Some(c) => {
            proof {
                lemma_find_first_occurs(inner@, seq![':']);
            }
            let feature = trim_chars(&copy_range(&inner, 0, c));
            let value = trim_chars(&copy_range(&inner, c + 1, inner.len()));
            if eq_lit(&feature, "min-width") {
                viewport_vs(&value, true, true)
            } else if eq_lit(&feature, "max-width") {
                viewport_vs(&value, true, false)
            } else if eq_lit(&feature, "min-height") {
                viewport_vs(&value, false, true)
            } else if eq_lit(&feature, "max-height") {
                viewport_vs(&value, false, false)
            } else if eq_lit(&feature, "prefers-color-scheme") {
                eq_lit(&value, "light")
            } else if eq_lit(&feature, "prefers-reduced-motion") {
                eq_lit(&value, "no-preference")
            } else if eq_lit(&feature, "orientation") {
                eq_lit(&value, "landscape")
            } else {
                true
            }
        },
        None => !eq_lit(&trim_chars(&inner), "prefers-reduced-motion"),
    }
}

/// Decides the ` and `-separated parts of `s` (see `and_holds`).
fn and_chars(s: &[char]) -> (b: bool)
    ensures
        b == and_holds(s@),
    decreases s@.len(),
{
    proof {
        reveal_strlit(" and ");
        assert(" and "@ =~= seq![' ', 'a', 'n', 'd', ' ']);
    }
    match find_lit(s, " and ") {
        Some(p) => {
            proof {
                lemma_find_first_occurs(s@, seq![' ', 'a', 'n', 'd', ' ']);
            }
            if !part_chars(&trim_chars(&copy_range(s, 0, p))) {
                return false;
            }
            let n = s.len();
            and_chars(&copy_range(s, p + 5, n))
        },
        None => part_chars(&trim_chars(s)),
    }
}

/// Decides a media query (see `media_query_holds`).
fn query_chars(c: &[char]) -> (b: bool)
    ensures
        b == media_query_holds(c@),
    decreases c@.len(), 0int,
{
    let t = trim_chars(c);
    proof {
        lemma_trim_len(c@);
        reveal_strlit(",");
        assert(","@ =~= seq![',']);
    }
    if t.len() == 0 {
        return true;
    }
    match find_lit(&t, ",") {
        Some(p) => {
            proof {
                lemma_find_first_occurs(t@, seq![',']);
                lemma_trim_len(t@.subrange(0, p as int));
            }
            if query_chars(&trim_chars(&copy_range(&t, 0, p))) {
                return true;
            }
            list_chars(&copy_range(&t, p + 1, t.len()))
        },
        None => {
            let n = t.len();
            if n >= 4 && t[0] == 'n' && t[1] == 'o' && t[2] == 't' && t[3] == ' ' {
                proof {
                    lemma_trim_len(t@.subrange(4, n as int));
                }
                !query_chars(&trim_chars(&copy_range(&t, 4, n)))
            } else {
                and_chars(&t)
            }
        },
    }
}

/// Decides whether one of the comma-separated queries of `r` holds (see
/// `media_list_holds`).
fn list_chars(r: &[char]) -> (b: bool)
    ensures
        b == media_list_holds(r@),
    decreases r@.len(), 1int,
{
    proof {
        reveal_strlit(",");
        assert(","@ =~= seq![',']);
    }
    match find_lit(r, ",") {
        Some(p) => {
            proof {
                lemma_find_first_occurs(r@, seq![',']);
                lemma_trim_len(r@.subrange(0, p as int));
            }
            if query_chars(&trim_chars(&copy_range(r, 0, p))) {
                return true;
            }
            let n = r.len();
            list_chars(&copy_range(r, p + 1, n))
        },
        None => {
            proof {
                lemma_trim_len(r@);
            }
            query_chars(&trim_chars(r))
        },
    }
}

/// Evaluates a media query against the viewport (see `media_query_holds`).
pub fn evaluate_media_query(condition: &str) -> (b: bool)
    ensures
        b == media_query_holds(condition@),
{
    query_chars(&chars_of(condition))
}

/// Queries joined into one list by commas.
pub open spec fn comma_joined(qs: Seq<Seq<char>>) -> Seq<char>
    decreases qs.len(),
{
    if qs.len() == 0 {
        Seq::empty()
    } else if qs.len() == 1 {
        qs[0]
    } else {
        qs[0] + seq![','] + comma_joined(qs.drop_first())
    }
}

/// Without a comma in `a`, the first comma of `a , rest` is the one after `a`.
proof fn lemma_first_comma(a: Seq<char>, rest: Seq<char>, i: int)
    requires
        !a.contains(','),
        0 <= i <= a.len(),
    ensures
        crate::text::find_from(a + seq![','] + rest, seq![','], i) == Some(a.len() as int),
    decreases a.len() - i,
{
    let s = a + seq![','] + rest;
    if i < a.len() {
        assert(!occurs_at(s, seq![','], i)) by {
            if occurs_at(s, seq![','], i) {
                assert(s.subrange(i, i + 1)[0] == s[i]);
                assert(s[i] == a[i]);
            }
        }
        lemma_first_comma(a, rest, i + 1);
    } else {
        assert(s.subrange(i, i + 1) =~= seq![',']);
    }
}

/// Without a comma in `a`, `a` has no first comma.
proof fn lemma_no_comma(a: Seq<char>, i: int)
    requires
        !a.contains(','),
        0 <= i,
    ensures
        crate::text::find_from(a, seq![','], i) is None,
    decreases a.len() + 1 - i,
{
    if i <= a.len() {
        assert(!occurs_at(a, seq![','], i)) by {
            if occurs_at(a, seq![','], i) {
                assert(a.subrange(i, i + 1)[0] == a[i]);
            }
        }
        lemma_no_comma(a, i + 1);
    }
}

/// A comma-separated list of queries holds exactly when one of its queries
/// (each trimmed) holds, however many there are: `print, tv, screen` holds
/// because `screen` does.
pub proof fn law_media_list_any(qs: Seq<Seq<char>>)
    requires
        qs.len() >= 1,
        forall|i: int| 0 <= i < qs.len() ==> !(#[trigger] qs[i]).contains(','),
    ensures
        media_list_holds(comma_joined(qs)) <==> exists|i: int|
            0 <= i < qs.len() && #[trigger] media_query_holds(trim(qs[i])),
    decreases qs.len(),
{
    if qs.len() == 1 {
        assert(!qs[0].contains(','));
        lemma_no_comma(qs[0], 0);
        assert(comma_joined(qs) == qs[0]);
        assert(find_first(qs[0], seq![',']) is None);
        assert(media_list_holds(qs[0]) == media_query_holds(trim(qs[0])));
        if media_query_holds(trim(qs[0])) {
            assert(media_query_holds(trim(qs[0])));
        }
    } else {
        let rest = qs.drop_first();
        assert forall|i: int| 0 <= i < rest.len() implies !(#[trigger] rest[i]).contains(',') by {
            assert(rest[i] == qs[i + 1]);
        }
        law_media_list_any(rest);
        let a = qs[0];
        let r = comma_joined(rest);
        let s = comma_joined(qs);
        assert(!a.contains(','));
        lemma_first_comma(a, r, 0);
        assert(s == a + seq![','] + r);
        assert(s.subrange(0, a.len() as int) =~= a);
        assert(s.subrange(a.len() as int + 1, s.len() as int) =~= r);
        assert(find_first(s, seq![',']) == Some(a.len() as int));
        assert(media_list_holds(s) == (media_query_holds(trim(a)) || media_list_holds(r)));
        if exists|i: int| 0 <= i < qs.len() && #[trigger] media_query_holds(trim(qs[i])) {
            let i = choose|i: int| 0 <= i < qs.len() && #[trigger] media_query_holds(trim(qs[i]));
            if i > 0 {
                assert(rest[i - 1] == qs[i]);
                assert(media_query_holds(trim(rest[i - 1])));
            }
        }
        if exists|i: int| 0 <= i < rest.len() && #[trigger] media_query_holds(trim(rest[i])) {
            let i = choose|i: int| 0 <= i < rest.len() && #[trigger] media_query_holds(trim(rest[i]));
            assert(rest[i] == qs[i + 1]);
            assert(media_query_holds(trim(qs[i + 1])));
        }
    }
}

/// A query text that holds a comma is read as a list (see
/// `law_media_list_any`): it holds exactly when its trimmed text, as a
/// list of queries, does.
pub proof fn law_query_with_comma_is_list(c: Seq<char>)
    requires
        trim(c).contains(','),
    ensures
        media_query_holds(c) == media_list_holds(trim(c)),
{
    let t = trim(c);
    let k = choose|k: int| 0 <= k < t.len() && t[k] == ',';
    assert(occurs_at(t, seq![','], k)) by {
        assert(t.subrange(k, k + 1) =~= seq![',']);
    }
    lemma_find_some(t, k, 0);
    assert(find_first(t, seq![',']) is Some);
}

/// Where `,` occurs at `k`, a search from at or before `k` finds one.
proof fn lemma_find_some(t: Seq<char>, k: int, i: int)
    requires
        0 <= i <= k,
        occurs_at(t, seq![','], k),
    ensures
        crate::text::find_from(t, seq![','], i) is Some,
    decreases k - i,
{
    if i < k && !occurs_at(t, seq![','], i) {
        lemma_find_some(t, k, i + 1);
    }
}

} // verus!
