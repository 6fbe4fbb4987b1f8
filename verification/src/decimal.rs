//! Decimal float literals as std's float parser reads them (an optional
//! sign, then `inf`, `infinity`, `nan`, or digits with an optional point and
//! an optional exponent), and exact comparison of the number a literal
//! stands for with a fixed decimal bound.
use vstd::prelude::*;
use crate::num::is_digit;
use crate::num::all_digits;
use crate::num::digits_value;
use crate::html::ascii_lower_seq;
use crate::html::ascii_lowercase;
use crate::text::copy_range;
use crate::text::eq_lit;

verus! {

broadcast use vstd::string::group_string_axioms;

/// `10^k`.
pub open spec fn pow10(k: nat) -> nat
    decreases k,
{
    if k == 0 {
        1
    } else {
        10 * pow10((k - 1) as nat)
    }
}

/// `2^k`.
pub open spec fn pow2(k: nat) -> nat
    decreases k,
{
    if k == 0 {
        1
    } else {
        2 * pow2((k - 1) as nat)
    }
}

/// `5^k`.
pub open spec fn pow5(k: nat) -> nat
    decreases k,
{
    if k == 0 {
        1
    } else {
        5 * pow5((k - 1) as nat)
    }
}

/// `n · 10^d <= c`.
pub open spec fn scaled_at_most(n: int, d: int, c: int) -> bool {
    if d >= 0 {
        n * pow10(d as nat) <= c
    } else {
        n <= c * pow10((-d) as nat)
    }
}

/// `n · 10^d >= c`.
pub open spec fn scaled_at_least(n: int, d: int, c: int) -> bool {
    if d >= 0 {
        n * pow10(d as nat) >= c
    } else {
        n >= c * pow10((-d) as nat)
    }
}

/// What a float literal stands for: not a number, an infinity (negative or
/// not), or `±digits · 10^(exponent - fraction_length)`, the digits being
/// those before and after the point.
pub enum FloatText {
    NotANumber,
    Infinite(bool),
    Finite(bool, Seq<char>, int, nat),
}

/// A leading sign split off: whether it is `-`, and the rest.
pub open spec fn sign_split(s: Seq<char>) -> (bool, Seq<char>) {
    if s.len() > 0 && (s[0] == '+' || s[0] == '-') {
        (s[0] == '-', s.drop_first())
    } else {
        (false, s)
    }
}

/// The first position from `i` on holding `a` or `b` (`s.len()` if none).
pub open spec fn first_of(s: Seq<char>, i: int, a: char, b: char) -> int
    decreases s.len() - i,
{
    if i < 0 || i >= s.len() {
        s.len() as int
    } else if s[i] == a || s[i] == b {
        i
    } else {
        first_of(s, i + 1, a, b)
    }
}

/// How std's float parser reads `s` (ASCII letters in any case): `None` when
/// `s` is no float literal.
pub open spec fn float_text(s: Seq<char>) -> Option<FloatText> {
    let (neg, b) = sign_split(s);
    let lb = ascii_lower_seq(b);
    if lb == "inf"@ || lb == "infinity"@ {
        Some(FloatText::Infinite(neg))
    } else if lb == "nan"@ {
        Some(FloatText::NotANumber)
    } else {
        let m = first_of(b, 0, 'e', 'E');
        let mant = b.subrange(0, m);
        let ex = b.subrange(m, b.len() as int);
        let dp = first_of(mant, 0, '.', '.');
        let ip = mant.subrange(0, dp);
        let fp = if dp < mant.len() {
            mant.subrange(dp + 1, mant.len() as int)
        } else {
            Seq::empty()
        };
        let (eneg, ed) = if ex.len() > 0 {
            sign_split(ex.drop_first())
        } else {
            (false, Seq::empty())
        };
        if all_digits(ip) && all_digits(fp) && ip.len() + fp.len() > 0 && (ex.len() == 0 || (
        ed.len() > 0 && all_digits(ed))) {
            let ev = if eneg {
                -digits_value(ed)
            } else {
                digits_value(ed)
            };
            Some(FloatText::Finite(neg, ip + fp, ev, fp.len()))
        } else {
            None
        }
    }
}

/// The number `f` stands for is at most `c · 10^-cf` (`c` positive); no
/// comparison holds of not-a-number.
pub open spec fn text_at_most(f: FloatText, c: nat, cf: nat) -> bool {
    match f {
        FloatText::NotANumber => false,
        FloatText::Infinite(neg) => neg,
        FloatText::Finite(neg, ds, e, fl) => neg || scaled_at_most(
            digits_value(ds),
            e - fl + cf,
            c as int,
        ),
    }
}

/// The number `f` stands for is at least `c · 10^-cf` (`c` positive).
pub open spec fn text_at_least(f: FloatText, c: nat, cf: nat) -> bool {
    match f {
        FloatText::NotANumber => false,
        FloatText::Infinite(neg) => !neg,
        FloatText::Finite(neg, ds, e, fl) => !neg && scaled_at_least(
            digits_value(ds),
            e - fl + cf,
            c as int,
        ),
    }
}

// ---------------------------------------------------------------------------
// Facts about powers and digit strings
// ---------------------------------------------------------------------------
proof fn lemma_pow10_pos(k: nat)
    ensures
        pow10(k) >= 1,
    decreases k,
{
    if k > 0 {
        lemma_pow10_pos((k - 1) as nat);
    }
}

proof fn lemma_pow10_add(a: nat, b: nat)
    ensures
        pow10(a + b) == pow10(a) * pow10(b),
    decreases b,
{
    let x = pow10(a);
    if b > 0 {
        lemma_pow10_add(a, (b - 1) as nat);
        assert(pow10(a + b) == 10 * pow10((a + b - 1) as nat));
        assert((a + b - 1) as nat == a + (b - 1) as nat);
        let y = pow10((b - 1) as nat);
        assert(pow10(b) == 10 * y);
        assert(10 * (x * y) == x * (10 * y)) by (nonlinear_arith);
    } else {
        assert(a + b == a);
        assert(pow10(b) == 1);
        assert(x * 1 == x);
    }
}

proof fn lemma_pow10_mono(a: nat, b: nat)
    requires
        a <= b,
    ensures
        pow10(a) <= pow10(b),
    decreases b - a,
{
    if a < b {
        lemma_pow10_mono(a, (b - 1) as nat);
        lemma_pow10_pos((b - 1) as nat);
    }
}

proof fn lemma_digits_bound(s: Seq<char>)
    requires
        all_digits(s),
    ensures
        0 <= digits_value(s) < pow10(s.len()),
    decreases s.len(),
{
    if s.len() > 0 {
        let p = s.drop_last();
        assert(all_digits(p)) by {
            assert forall|i: int| 0 <= i < p.len() implies is_digit(#[trigger] p[i]) by {
                assert(p[i] == s[i]);
            }
        }
        lemma_digits_bound(p);
        assert(is_digit(s[s.len() - 1]));
        assert(pow10(s.len()) == 10 * pow10(p.len()));
    }
}

proof fn lemma_all_digits_sub(s: Seq<char>, a: int, b: int)
    requires
        all_digits(s),
        0 <= a <= b <= s.len(),
    ensures
        all_digits(s.subrange(a, b)),
{
    assert forall|i: int| 0 <= i < b - a implies is_digit(#[trigger] s.subrange(a, b)[i]) by {
        assert(s.subrange(a, b)[i] == s[a + i]);
    }
}

/// The value of two digit strings side by side.
proof fn lemma_digits_append(a: Seq<char>, b: Seq<char>)
    ensures
        digits_value(a + b) == digits_value(a) * pow10(b.len()) + digits_value(b),
    decreases b.len(),
{
    if b.len() == 0 {
        assert(a + b =~= a);
        assert(pow10(0) == 1);
        assert(digits_value(b) == 0);
        assert(digits_value(a) * 1 == digits_value(a));
    } else {
        let b2 = b.drop_last();
        assert((a + b).drop_last() =~= a + b2);
        assert((a + b).last() == b.last());
        lemma_digits_append(a, b2);
        let x = digits_value(a);
        let p = pow10(b2.len());
        let y = digits_value(b2);
        assert(pow10(b.len()) == 10 * p);
        assert(digits_value(a + b) == digits_value(a + b2) * 10 + (b.last() as int - '0' as int));
        assert(digits_value(b) == y * 10 + (b.last() as int - '0' as int));
        assert((x * p + y) * 10 == x * (10 * p) + y * 10) by (nonlinear_arith);
    }
}

/// A digit string of zeros is worth nothing; one with another digit is
/// worth something.
proof fn lemma_digits_zero(s: Seq<char>)
    requires
        all_digits(s),
    ensures
        digits_value(s) == 0 <==> (forall|i: int| 0 <= i < s.len() ==> s[i] == '0'),
    decreases s.len(),
{
    if s.len() > 0 {
        let p = s.drop_last();
        assert(all_digits(p)) by {
            assert forall|i: int| 0 <= i < p.len() implies is_digit(#[trigger] p[i]) by {
                assert(p[i] == s[i]);
            }
        }
        lemma_digits_zero(p);
        lemma_digits_bound(p);
        assert(is_digit(s[s.len() - 1]));
        if digits_value(s) == 0 {
            assert forall|i: int| 0 <= i < s.len() implies s[i] == '0' by {
                if i < s.len() - 1 {
                    assert(p[i] == s[i]);
                }
            }
        }
        if forall|i: int| 0 <= i < s.len() ==> s[i] == '0' {
            assert forall|i: int| 0 <= i < p.len() implies p[i] == '0' by {
                assert(p[i] == s[i]);
            }
            assert(s[s.len() - 1] == '0');
        }
    }
}

/// A digit string whose first digit is not `0` has exactly its length in
/// digits.
proof fn lemma_digits_lead(s: Seq<char>)
    requires
        all_digits(s),
        s.len() >= 1,
        s[0] != '0',
    ensures
        pow10((s.len() - 1) as nat) <= digits_value(s) < pow10(s.len()),
{
    let a = s.subrange(0, 1);
    let b = s.subrange(1, s.len() as int);
    assert(a + b =~= s);
    lemma_digits_append(a, b);
    lemma_all_digits_sub(s, 1, s.len() as int);
    lemma_digits_bound(b);
    lemma_digits_bound(s);
    assert(a.drop_last() =~= Seq::<char>::empty());
    assert(digits_value(a.drop_last()) == 0);
    assert(a.last() == s[0]);
    assert(digits_value(a) == s[0] as int - '0' as int);
    assert(is_digit(s[0]));
    let x = digits_value(a);
    let p = pow10(b.len());
    assert(x >= 1);
    assert(x * p >= p) by (nonlinear_arith)
        requires
            x >= 1,
            p >= 0,
    ;
}

/// Leading zeros do not change a digit string's value.
proof fn lemma_digits_strip(s: Seq<char>, z: int)
    requires
        all_digits(s),
        0 <= z <= s.len(),
        forall|i: int| 0 <= i < z ==> s[i] == '0',
    ensures
        digits_value(s) == digits_value(s.subrange(z, s.len() as int)),
{
    let a = s.subrange(0, z);
    let b = s.subrange(z, s.len() as int);
    assert(a + b =~= s);
    lemma_digits_append(a, b);
    lemma_all_digits_sub(s, 0, z);
    lemma_digits_zero(a);
}

/// With `n` of `l` digits and `c` of `lc` digits, `n · 10^d` is above `c`
/// when `l + d > lc` and below it when `l + d < lc`.
proof fn lemma_scaled_by_length(n: int, l: nat, d: int, c: int, lc: nat)
    requires
        l >= 1,
        lc >= 1,
        pow10((l - 1) as nat) <= n < pow10(l),
        pow10((lc - 1) as nat) <= c < pow10(lc),
    ensures
        l + d > lc ==> !scaled_at_most(n, d, c) && scaled_at_least(n, d, c),
        l + d < lc ==> scaled_at_most(n, d, c) && !scaled_at_least(n, d, c),
{
    if d >= 0 {
        let dn = d as nat;
        let p = pow10(dn);
        lemma_pow10_pos(dn);
        lemma_pow10_add((l - 1) as nat, dn);
        lemma_pow10_add(l, dn);
        let lo = pow10((l - 1) as nat);
        let hi = pow10(l);
        assert(lo * p <= n * p < hi * p) by (nonlinear_arith)
            requires
                lo <= n < hi,
                p >= 1,
        ;
        if l + d > lc {
            lemma_pow10_mono(lc, (l - 1 + dn) as nat);
            assert(((l - 1) as nat + dn) as nat == (l - 1 + dn) as nat);
        }
        if l + d < lc {
            lemma_pow10_mono(l + dn, (lc - 1) as nat);
        }
    } else {
        let m = (-d) as nat;
        let p = pow10(m);
        lemma_pow10_pos(m);
        lemma_pow10_add((lc - 1) as nat, m);
        lemma_pow10_add(lc, m);
        let lo = pow10((lc - 1) as nat);
        let hi = pow10(lc);
        assert(lo * p <= c * p < hi * p) by (nonlinear_arith)
            requires
                lo <= c < hi,
                p >= 1,
        ;
        if l + d > lc {
            lemma_pow10_mono(lc + m, (l - 1) as nat);
        }
        if l + d < lc {
            lemma_pow10_mono(l, ((lc - 1) as nat + m) as nat);
        }
    }
}

/// With `n = h · 10^m + r` (`r < 10^m`), `n` compared with `c · 10^m` is
/// `h` compared with `c`, the rest deciding a tie.
proof fn lemma_scaled_split(n: int, h: int, r: int, m: nat, c: int)
    requires
        m >= 1,
        n == h * pow10(m) + r,
        0 <= r < pow10(m),
        h >= 0,
        c >= 0,
    ensures
        scaled_at_most(n, -m, c) == (h < c || (h == c && r == 0)),
        scaled_at_least(n, -m, c) == (h >= c),
{
    let p = pow10(m);
    assert((-(-(m as int))) as nat == m);
    if h < c {
        assert(h * p + r < c * p) by (nonlinear_arith)
            requires
                h + 1 <= c,
                r < p,
        ;
    } else if h > c {
        assert(h * p + r > c * p) by (nonlinear_arith)
            requires
                h >= c + 1,
                r >= 0,
                p >= 1,
        ;
        lemma_pow10_pos(m);
    } else {
        assert(h * p == c * p);
    }
}


// ---------------------------------------------------------------------------
// Reading literals and comparing them
// ---------------------------------------------------------------------------
/// The bound within which a literal's exponent is held: beyond it, the
/// exponent alone decides every comparison with a bound of a few digits.
pub const EXP_CAP: i128 = 1267650600228229401496703205376;

/// An exponent held within `EXP_CAP`.
pub open spec fn clamp_exp(e: int) -> int {
    if e > EXP_CAP {
        EXP_CAP as int
    } else if e < -EXP_CAP {
        -EXP_CAP
    } else {
        e
    }
}

/// A float literal read: not a number, an infinity, or sign, digits,
/// exponent (held within `EXP_CAP`) and fraction length.
pub enum FloatLit {
    NotANumber,
    Infinite(bool),
    Finite(bool, Vec<char>, i128, usize),
}

/// `l` is the reading of what `f` stands for.
pub open spec fn lit_matches(l: FloatLit, f: FloatText) -> bool {
    match (l, f) {
        (FloatLit::NotANumber, FloatText::NotANumber) => true,
        (FloatLit::Infinite(a), FloatText::Infinite(b)) => a == b,
        (FloatLit::Finite(a, ds, e, fl), FloatText::Finite(b, ds2, e2, fl2)) => a == b && ds@
            == ds2 && all_digits(ds2) && e as int == clamp_exp(e2) && fl as int == fl2,
        _ => false,
    }
}

fn first_of_exec(s: &[char], a: char, b: char) -> (r: usize)
    ensures
        r == first_of(s@, 0, a, b),
{
    let mut i: usize = 0;
    while i < s.len()
        invariant
            i <= s.len(),
            first_of(s@, i as int, a, b) == first_of(s@, 0, a, b),
        decreases s.len() - i,
    {
        if s[i] == a || s[i] == b {
            return i;
        }
        i = i + 1;
    }
    i
}

fn all_digits_exec(s: &[char]) -> (r: bool)
    ensures
        r == all_digits(s@),
{
    let mut i: usize = 0;
    while i < s.len()
        invariant
            i <= s.len(),
            forall|k: int| 0 <= k < i ==> is_digit(#[trigger] s@[k]),
        decreases s.len() - i,
    {
        if !('0' <= s[i] && s[i] <= '9') {
            return false;
        }
        i = i + 1;
    }
    true
}

fn concat_chars(a: &[char], b: &[char]) -> (r: Vec<char>)
    ensures
        r@ == a@ + b@,
{
    let mut r = copy_range(a, 0, a.len());
    assert(a@.subrange(0, a@.len() as int) =~= a@);
    let mut i: usize = 0;
    while i < b.len()
        invariant
            i <= b.len(),
            r@ == a@ + b@.subrange(0, i as int),
        decreases b.len() - i,
    {
        r.push(b[i]);
        assert(a@ + b@.subrange(0, i + 1) =~= (a@ + b@.subrange(0, i as int)).push(b@[i as int]));
        i = i + 1;
    }
    assert(b@.subrange(0, b@.len() as int) =~= b@);
    r
}

/// The value of a digit string, or `EXP_CAP + 1` when it is larger.
fn digits_capped(d: &[char]) -> (r: u128)
    requires
        all_digits(d@),
    ensures
        r as int == if digits_value(d@) > EXP_CAP {
            EXP_CAP + 1
        } else {
            digits_value(d@)
        },
{
    let cap: u128 = 1267650600228229401496703205376;
    let mut acc: u128 = 0;
    let mut i: usize = 0;
    while i < d.len()
        invariant
            i <= d.len(),
            all_digits(d@),
            cap == EXP_CAP,
            acc as int == if digits_value(d@.subrange(0, i as int)) > EXP_CAP {
                EXP_CAP + 1
            } else {
                digits_value(d@.subrange(0, i as int))
            },
        decreases d.len() - i,
    {
        let ghost before = d@.subrange(0, i as int);
        assert(d@.subrange(0, i + 1).drop_last() =~= before);
        assert(d@.subrange(0, i + 1).last() == d@[i as int]);
        assert(is_digit(d@[i as int]));
        proof {
            lemma_all_digits_sub(d@, 0, i as int);
            lemma_digits_bound(before);
        }
        let dig = (d[i] as u32 - '0' as u32) as u128;
        if acc <= cap {
            let next = acc * 10 + dig;
            if next > cap {
                acc = cap + 1;
            } else {
                acc = next;
            }
        }
        i = i + 1;
    }
    assert(d@.subrange(0, d@.len() as int) =~= d@);
    acc
}

/// Reads a float literal as std's float parser does (see `float_text`).
pub fn parse_float_text(s: &[char]) -> (r: Option<FloatLit>)
    ensures
        match float_text(s@) {
            None => r is None,
            Some(f) => r is Some && lit_matches(r->0, f),
        },
{
    let n = s.len();
    let neg = n > 0 && s[0] == '-';
    let start: usize = if n > 0 && (s[0] == '+' || s[0] == '-') {
        1
    } else {
        0
    };
    let b = copy_range(s, start, n);
    assert(b@ == sign_split(s@).1) by {
        if start == 1 {
            assert(s@.drop_first() =~= s@.subrange(1, n as int));
        } else {
            assert(s@.subrange(0, n as int) =~= s@);
        }
    }
    let lb = ascii_lowercase(&b);
    if eq_lit(&lb, "inf") || eq_lit(&lb, "infinity") {
        return Some(FloatLit::Infinite(neg));
    }
    if eq_lit(&lb, "nan") {
        return Some(FloatLit::NotANumber);
    }
    let m = first_of_exec(&b, 'e', 'E');
    proof {
        lemma_first_of_bounds(b@, 0, 'e', 'E');
    }
    let mant = copy_range(&b, 0, m);
    let ex = copy_range(&b, m, b.len());
    let dp = first_of_exec(&mant, '.', '.');
    proof {
        lemma_first_of_bounds(mant@, 0, '.', '.');
    }
    let ip = copy_range(&mant, 0, dp);
    let fp = if dp < mant.len() {
        copy_range(&mant, dp + 1, mant.len())
    } else {
        Vec::new()
    };
    let ex_len = ex.len();
    let eneg = ex_len > 1 && ex[1] == '-';
    let ed = if ex_len > 0 {
        let es: usize = if ex_len > 1 && (ex[1] == '+' || ex[1] == '-') {
            2
        } else {
            1
        };
        copy_range(&ex, es, ex_len)
    } else {
        Vec::new()
    };
    proof {
        if ex_len > 0 {
            let t = ex@.drop_first();
            if ex_len > 1 && (ex@[1] == '+' || ex@[1] == '-') {
                assert(t.drop_first() =~= ex@.subrange(2, ex_len as int));
            } else {
                assert(t =~= ex@.subrange(1, ex_len as int));
            }
        } else {
            assert(ed@ =~= Seq::<char>::empty());
        }
    }
    if !(all_digits_exec(&ip) && all_digits_exec(&fp) && (ip.len() > 0 || fp.len() > 0) && (
    ex_len == 0 || (ed.len() > 0 && all_digits_exec(&ed)))) {
        return None;
    }
    let cap: i128 = 1267650600228229401496703205376;
    let mag = if ex_len > 0 {
        digits_capped(&ed)
    } else {
        0
    };
    proof {
        if ex_len == 0 {
            assert(digits_value(ed@) == 0);
        }
    }
    let e: i128 = if mag as i128 > cap {
        if eneg {
            -cap
        } else {
            cap
        }
    } else if eneg {
        -(mag as i128)
    } else {
        mag as i128
    };
    let ds = concat_chars(&ip, &fp);
    assert(all_digits(ds@)) by {
        assert forall|i: int| 0 <= i < ds@.len() implies is_digit(#[trigger] ds@[i]) by {
            if i < ip@.len() {
                assert(ds@[i] == ip@[i]);
            } else {
                assert(ds@[i] == fp@[i - ip@.len()]);
            }
        }
    }
    Some(FloatLit::Finite(neg, ds, e, fp.len()))
}

proof fn lemma_first_of_bounds(s: Seq<char>, i: int, a: char, b: char)
    requires
        0 <= i <= s.len(),
    ensures
        i <= first_of(s, i, a, b) <= s.len(),
    decreases s.len() - i,
{
    if i < s.len() && !(s[i] == a || s[i] == b) {
        lemma_first_of_bounds(s, i + 1, a, b);
    }
}

fn pow10_exec(k: u32) -> (r: u128)
    requires
        k <= 30,
    ensures
        r as int == pow10(k as nat),
{
    assert(pow10(30) == 1000000000000000000000000000000) by {
        reveal_with_fuel(pow10, 31);
    }
    let mut r: u128 = 1;
    let mut i: u32 = 0;
    while i < k
        invariant
            i <= k <= 30,
            r as int == pow10(i as nat),
            pow10(30) == 1000000000000000000000000000000,
        decreases k - i,
    {
        proof {
            lemma_pow10_mono((i + 1) as nat, 30);
        }
        r = r * 10;
        i = i + 1;
    }
    r
}

/// The value of the digits `d[a..b]`, at most thirty of them.
fn digits_u128(d: &[char], a: usize, b: usize) -> (r: u128)
    requires
        all_digits(d@),
        a <= b <= d.len(),
        b - a <= 30,
    ensures
        r as int == digits_value(d@.subrange(a as int, b as int)),
{
    assert(pow10(30) == 1000000000000000000000000000000) by {
        reveal_with_fuel(pow10, 31);
    }
    let mut acc: u128 = 0;
    let mut j = a;
    while j < b
        invariant
            a <= j <= b <= d.len(),
            b - a <= 30,
            all_digits(d@),
            pow10(30) == 1000000000000000000000000000000,
            acc as int == digits_value(d@.subrange(a as int, j as int)),
        decreases b - j,
    {
        let ghost cur = d@.subrange(a as int, j as int);
        proof {
            lemma_all_digits_sub(d@, a as int, j + 1);
            lemma_digits_bound(d@.subrange(a as int, j + 1));
            lemma_pow10_mono((j + 1 - a) as nat, 30);
        }
        assert(d@.subrange(a as int, j + 1).drop_last() =~= cur);
        assert(d@.subrange(a as int, j + 1).last() == d@[j as int]);
        assert(is_digit(d@[j as int]));
        let dig = (d[j] as u32 - '0' as u32) as u128;
        acc = acc * 10 + dig;
        j = j + 1;
    }
    acc
}

/// `n · 10^d` against `c` when `n` (the digits `ds[z..]`, the first not `0`)
/// has `lc - d` digits, `d >= 0`.
fn short_bounds(ds: &[char], z: usize, d: u32, c: u128, lc: u32) -> (r: (bool, bool))
    requires
        all_digits(ds@),
        z < ds.len(),
        ds@[z as int] != '0',
        1 <= lc <= 30,
        (ds.len() - z) + d == lc,
    ensures
        r.0 == scaled_at_most(digits_value(ds@.subrange(z as int, ds@.len() as int)), d as int, c as int),
        r.1 == scaled_at_least(digits_value(ds@.subrange(z as int, ds@.len() as int)), d as int, c as int),
{
    let ghost digs = ds@.subrange(z as int, ds@.len() as int);
    let len = ds.len() - z;
    proof {
        lemma_all_digits_sub(ds@, z as int, ds@.len() as int);
        lemma_digits_bound(digs);
    }
    let nv = digits_u128(ds, z, ds.len());
    proof {
        let pd = pow10(d as nat);
        let hi = pow10(len as nat);
        lemma_pow10_add(len as nat, d as nat);
        lemma_pow10_mono(lc as nat, 30);
        lemma_pow10_pos(d as nat);
        assert(pow10(30) == 1000000000000000000000000000000) by {
            reveal_with_fuel(pow10, 31);
        }
        assert(nv * pd < hi * pd) by (nonlinear_arith)
            requires
                nv < hi,
                pd >= 1,
        ;
    }
    let scaled = nv * pow10_exec(d);
    (scaled <= c, scaled >= c)
}

/// `n · 10^-m` against `c` when `n` (the digits `ds[z..]`, the first not `0`)
/// has `lc + m` digits, `m >= 1`.
fn long_bounds(ds: &[char], z: usize, c: u128, lc: u32) -> (r: (bool, bool))
    requires
        all_digits(ds@),
        1 <= lc <= 30,
        z + lc < ds.len(),
    ensures
        r.0 == scaled_at_most(
            digits_value(ds@.subrange(z as int, ds@.len() as int)),
            lc - (ds.len() - z),
            c as int,
        ),
        r.1 == scaled_at_least(
            digits_value(ds@.subrange(z as int, ds@.len() as int)),
            lc - (ds.len() - z),
            c as int,
        ),
{
    let ghost digs = ds@.subrange(z as int, ds@.len() as int);
    let len = ds.len() - z;
    let m: usize = len - (lc as usize);
    let h = digits_u128(ds, z, z + (lc as usize));
    let mut k = z + (lc as usize);
    let mut rest_zero = true;
    while k < ds.len()
        invariant
            z + (lc as usize) <= k <= ds.len(),
            rest_zero == (forall|i: int| z + lc <= i < k ==> ds@[i] == '0'),
        decreases ds.len() - k,
    {
        if ds[k] != '0' {
            rest_zero = false;
        }
        k = k + 1;
    }
    proof {
        lemma_all_digits_sub(ds@, z as int, ds@.len() as int);
        let hs = digs.subrange(0, lc as int);
        let rs = digs.subrange(lc as int, digs.len() as int);
        assert(hs + rs =~= digs);
        assert(hs =~= ds@.subrange(z as int, z + lc));
        lemma_digits_append(hs, rs);
        lemma_all_digits_sub(digs, lc as int, digs.len() as int);
        lemma_digits_bound(rs);
        lemma_digits_zero(rs);
        lemma_digits_bound(hs);
        assert(rest_zero == (forall|i: int| 0 <= i < rs.len() ==> rs[i] == '0')) by {
            if rest_zero {
                assert forall|i: int| 0 <= i < rs.len() implies rs[i] == '0' by {
                    assert(rs[i] == ds@[z + lc + i]);
                }
            } else {
                let w = choose|i: int| z + lc <= i < k && ds@[i] != '0';
                assert(rs[w - z - lc] == ds@[w]);
            }
        }
        assert(rs.len() == m);
        lemma_scaled_split(digits_value(digs), h as int, digits_value(rs), m as nat, c as int);
        assert(lc - (ds.len() - z) == -(m as int));
    }
    (h < c || (h == c && rest_zero), h >= c)
}

/// Whether `±digits · 10^(e - fl) ` is at most, and at least, `c · 10^-cf`
/// (`c` of `lc` digits), the exponent `e` being held within `EXP_CAP`.
fn finite_bounds(ds: &[char], e: i128, fl: usize, c: u128, lc: u32, cf: u32, Ghost(e2): Ghost<int>) -> (r: (bool, bool))
    requires
        all_digits(ds@),
        e as int == clamp_exp(e2),
        1 <= lc <= 30,
        cf <= 30,
        pow10((lc - 1) as nat) <= c < pow10(lc as nat),
    ensures
        r.0 == scaled_at_most(digits_value(ds@), e2 - fl + cf, c as int),
        r.1 == scaled_at_least(digits_value(ds@), e2 - fl + cf, c as int),
{
    proof {
        lemma_pow10_pos((lc - 1) as nat);
    }
    let mut z: usize = 0;
    while z < ds.len() && ds[z] == '0'
        invariant
            z <= ds.len(),
            forall|i: int| 0 <= i < z ==> ds@[i] == '0',
        decreases ds.len() - z,
    {
        z = z + 1;
    }
    let ghost digs = ds@.subrange(z as int, ds@.len() as int);
    let ghost dt = e2 - (fl as int) + (cf as int);
    proof {
        lemma_digits_strip(ds@, z as int);
        lemma_all_digits_sub(ds@, z as int, ds@.len() as int);
    }
    let len = ds.len() - z;
    if len == 0 {
        proof {
            assert(digs.len() == 0);
            assert(digits_value(digs) == 0);
            if dt >= 0 {
                assert(0 * pow10(dt as nat) == 0);
            } else {
                let p = pow10((-dt) as nat);
                lemma_pow10_pos((-dt) as nat);
                assert(c * p >= 1) by (nonlinear_arith)
                    requires
                        c >= 1,
                        p >= 1,
                ;
            }
        }
        return (true, false);
    }
    proof {
        lemma_digits_lead(digs);
    }
    let d: i128 = e - (fl as i128) + (cf as i128);
    let p: i128 = (len as i128) + d;
    if p > lc as i128 {
        proof {
            lemma_scaled_by_length(digits_value(digs), len as nat, dt, c as int, lc as nat);
        }
        (false, true)
    } else if p < lc as i128 {
        proof {
            lemma_scaled_by_length(digits_value(digs), len as nat, dt, c as int, lc as nat);
        }
        (true, false)
    } else if d >= 0 {
        assert(dt == d);
        short_bounds(ds, z, d as u32, c, lc)
    } else {
        assert(dt == d);
        long_bounds(ds, z, c, lc)
    }
}

/// Whether the number a literal stands for is at most, and at least,
/// `c · 10^-cf`, where `c` has `lc` digits.
pub(crate) fn lit_bounds(l: &FloatLit, c: u128, lc: u32, cf: u32, Ghost(f): Ghost<FloatText>) -> (r: (
    bool,
    bool,
))
    requires
        lit_matches(*l, f),
        1 <= lc <= 30,
        cf <= 30,
        pow10((lc - 1) as nat) <= c < pow10(lc as nat),
    ensures
        r.0 == text_at_most(f, c as nat, cf as nat),
        r.1 == text_at_least(f, c as nat, cf as nat),
{
    match l {
        FloatLit::NotANumber => (false, false),
        FloatLit::Infinite(neg) => (*neg, !*neg),
        FloatLit::Finite(neg, ds, e, fl) => {
            if *neg {
                return (true, false);
            }
            finite_bounds(ds, *e, *fl, c, lc, cf, Ghost(f->Finite_2))
        },
    }
}

} // verus!
