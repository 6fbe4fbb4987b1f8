//! The structure of CSS lengths and `calc()` expressions: which unit a
//! length has, which operator splits an expression, and which number texts
//! read as numbers. The numbers themselves are `f32` arithmetic, which the
//! caller does on the structure read here.
use vstd::prelude::*;
use crate::text::trim;
use crate::text::ends_with;
use crate::text::starts_with;
use crate::text::trim_chars;
use crate::text::copy_range;
use crate::text::chars_of;
use crate::text::ends_with_lit;
use crate::text::starts_with_lit;
use crate::text::eq_lit;
use crate::text::string_from_chars;
use crate::text::lemma_trim_len;
use crate::values::outer_parens_inner;
use crate::values::strip_outer_parens;
use crate::decimal::float_text;
use crate::decimal::parse_float_text;

verus! {

/// The unit of a value in a `calc()` expression.
#[derive(Clone, Copy, Debug, PartialEq, Eq, Structural)]
pub enum CalcUnit {
    Px,
    Percent,
    Vw,
    Vh,
    Em,
    /// A plain number, without unit.
    Number,
}

/// A `calc()` expression: values (a unit and the text of the number, which
/// reads as an `f32`) combined by `+`, `-`, `*` and `/`.
#[derive(Debug, PartialEq, Eq)]
pub enum CalcExpr {
    Value(CalcUnit, String),
    Add(Box<CalcExpr>, Box<CalcExpr>),
    Sub(Box<CalcExpr>, Box<CalcExpr>),
    Mul(Box<CalcExpr>, Box<CalcExpr>),
    Div(Box<CalcExpr>, Box<CalcExpr>),
}

/// The model of a `calc()` expression: a value, or an operator character
/// with its two operands.
pub enum CalcV {
    Value(CalcUnit, Seq<char>),
    Op(char, Box<CalcV>, Box<CalcV>),
}

/// The model of an expression.
pub open spec fn calc_view(e: CalcExpr) -> CalcV
    decreases e,
{
    match e {
        CalcExpr::Value(u, t) => CalcV::Value(u, t@),
        CalcExpr::Add(l, r) => CalcV::Op('+', Box::new(calc_view(*l)), Box::new(calc_view(*r))),
        CalcExpr::Sub(l, r) => CalcV::Op('-', Box::new(calc_view(*l)), Box::new(calc_view(*r))),
        CalcExpr::Mul(l, r) => CalcV::Op('*', Box::new(calc_view(*l)), Box::new(calc_view(*r))),
        CalcExpr::Div(l, r) => CalcV::Op('/', Box::new(calc_view(*l)), Box::new(calc_view(*r))),
    }
}

/// The model of an optional expression.
pub open spec fn opt_calc_view(e: Option<CalcExpr>) -> Option<CalcV> {
    match e {
        Some(x) => Some(calc_view(x)),
        None => None,
    }
}

/// ASCII white space: space, tab, line feed, form feed, carriage return.
pub open spec fn is_ascii_ws(c: char) -> bool {
    c == ' ' || c == '\t' || c == '\n' || c == '\x0C' || c == '\r'
}

/// A `+` or `-` after this character is an operator (not a sign).
pub open spec fn ends_operand(c: char) -> bool {
    is_ascii_ws(c) || ('0' <= c && c <= '9') || c == '%' || c == ')' || c == 'x'
}

/// The last `+` or `-` at or before `i`, outside parentheses (`depth` is
/// the count of `)` minus `(` after `i`), that follows an operand.
pub open spec fn add_split_from(t: Seq<char>, i: int, depth: int) -> Option<int>
    decreases i + 1,
{
    if i < 0 || i >= t.len() {
        None
    } else if t[i] == ')' {
        add_split_from(t, i - 1, depth + 1)
    } else if t[i] == '(' {
        add_split_from(t, i - 1, depth - 1)
    } else if (t[i] == '+' || t[i] == '-') && depth == 0 && i > 0 && ends_operand(t[i - 1]) {
        Some(i)
    } else {
        add_split_from(t, i - 1, depth)
    }
}

/// The last `*` or `/` at or before `i`, outside parentheses.
pub open spec fn mul_split_from(t: Seq<char>, i: int, depth: int) -> Option<int>
    decreases i + 1,
{
    if i < 0 || i >= t.len() {
        None
    } else if t[i] == ')' {
        mul_split_from(t, i - 1, depth + 1)
    } else if t[i] == '(' {
        mul_split_from(t, i - 1, depth - 1)
    } else if (t[i] == '*' || t[i] == '/') && depth == 0 {
        Some(i)
    } else {
        mul_split_from(t, i - 1, depth)
    }
}

/// A split found lies inside the text, at or before where the search began.
pub proof fn lemma_add_split_range(t: Seq<char>, i: int, depth: int)
    ensures
        add_split_from(t, i, depth) matches Some(p) ==> 0 <= p <= i && p < t.len() && (t[p] == '+'
            || t[p] == '-'),
    decreases i + 1,
{
    if 0 <= i < t.len() {
        lemma_add_split_range(t, i - 1, depth + 1);
        lemma_add_split_range(t, i - 1, depth - 1);
        lemma_add_split_range(t, i - 1, depth);
    }
}

/// A split found lies inside the text, at or before where the search began.
pub proof fn lemma_mul_split_range(t: Seq<char>, i: int, depth: int)
    ensures
        mul_split_from(t, i, depth) matches Some(p) ==> 0 <= p <= i && p < t.len() && (t[p] == '*'
            || t[p] == '/'),
    decreases i + 1,
{
    if 0 <= i < t.len() {
        lemma_mul_split_range(t, i - 1, depth + 1);
        lemma_mul_split_range(t, i - 1, depth - 1);
        lemma_mul_split_range(t, i - 1, depth);
    }
}

/// A value of unit `u` whose number text is `n`, if `n` reads as a number.
pub open spec fn number_value(u: CalcUnit, n: Seq<char>) -> Option<CalcV> {
    if float_text(n) is Some {
        Some(CalcV::Value(u, n))
    } else {
        None
    }
}

/// `t` without its last `k` characters, trimmed.
pub open spec fn before_suffix(t: Seq<char>, k: int) -> Seq<char> {
    trim(t.subrange(0, t.len() - k))
}

/// A single value of a `calc()` expression: a number with unit `px`, `%`,
/// `vw`, `vh` or `em`, or a plain number.
pub open spec fn calc_value(s: Seq<char>) -> Option<CalcV> {
    let t = trim(s);
    if ends_with(t, "px"@) {
        number_value(CalcUnit::Px, before_suffix(t, 2))
    } else if ends_with(t, "%"@) {
        number_value(CalcUnit::Percent, before_suffix(t, 1))
    } else if ends_with(t, "vw"@) {
        number_value(CalcUnit::Vw, before_suffix(t, 2))
    } else if ends_with(t, "vh"@) {
        number_value(CalcUnit::Vh, before_suffix(t, 2))
    } else if ends_with(t, "em"@) {
        number_value(CalcUnit::Em, before_suffix(t, 2))
    } else {
        number_value(CalcUnit::Number, t)
    }
}

/// Two operands joined by the operator `op`, when both read.
pub open spec fn join(op: char, l: Option<CalcV>, r: Option<CalcV>) -> Option<CalcV> {
    match (l, r) {
        (Some(a), Some(b)) => Some(CalcV::Op(op, Box::new(a), Box::new(b))),
        _ => None,
    }
}

/// How the inside of a `calc()` reads: a parenthesised whole reads as its
/// inside; else it splits at its last `+` or `-` outside parentheses that
/// follows an operand, or else at its last `*` or `/` outside parentheses,
/// so that `+`/`-` bind loosest and operators of one level group from the
/// left; else it is a single value. `None` when a value does not read.
pub open spec fn calc_tree(e: Seq<char>) -> Option<CalcV>
    decreases e.len(),
{
    let t = trim(e);
    proof {
        lemma_trim_len(e);
    }
    if t.len() > 0 && t[0] == '(' && outer_parens_inner(t) is Some {
        let inner = outer_parens_inner(t)->0;
        proof {
            lemma_trim_len(t);
        }
        calc_tree(inner)
    } else {
        match add_split_from(t, t.len() - 1, 0) {
            Some(p) => {
                proof {
                    lemma_add_split_range(t, t.len() - 1, 0);
                }
                join(t[p], calc_tree(t.subrange(0, p)), calc_tree(t.subrange(p + 1, t.len() as int)))
            },
            None => match mul_split_from(t, t.len() - 1, 0) {
                Some(p) => {
                    proof {
                        lemma_mul_split_range(t, t.len() - 1, 0);
                    }
                    join(
                        t[p],
                        calc_tree(t.subrange(0, p)),
                        calc_tree(t.subrange(p + 1, t.len() as int)),
                    )
                },
                None => calc_value(t),
            },
        }
    }
}

fn ends_operand_exec(c: char) -> (b: bool)
    ensures
        b == ends_operand(c),
{
    c == ' ' || c == '\t' || c == '\n' || c == '\x0C' || c == '\r' || ('0' <= c && c <= '9') || c
        == '%' || c == ')' || c == 'x'
}

/// Where the text splits at a `+` or `-` (see `add_split_from`).
fn add_split(t: &Vec<char>) -> (r: Option<usize>)
    ensures
        match r {
            Some(p) => add_split_from(t@, t@.len() - 1, 0) == Some(p as int),
            None => add_split_from(t@, t@.len() - 1, 0) is None,
        },
{
    let mut i: usize = t.len();
    let mut depth: i128 = 0;
    while i > 0
        invariant
            i <= t@.len(),
            t@.len() == t.len(),
            -(t@.len() - i) <= depth <= t@.len() - i,
            add_split_from(t@, t@.len() - 1, 0) == add_split_from(t@, i - 1, depth as int),
        decreases i,
    {
        let k = i - 1;
        let c = t[k];
        if c == ')' {
            depth = depth + 1;
        } else if c == '(' {
            depth = depth - 1;
        } else if (c == '+' || c == '-') && depth == 0 && k > 0 && ends_operand_exec(t[k - 1]) {
            return Some(k);
        }
        i = k;
    }
    None
}

/// Where the text splits at a `*` or `/` (see `mul_split_from`).
fn mul_split(t: &Vec<char>) -> (r: Option<usize>)
    ensures
        match r {
            Some(p) => mul_split_from(t@, t@.len() - 1, 0) == Some(p as int),
            None => mul_split_from(t@, t@.len() - 1, 0) is None,
        },
{
    let mut i: usize = t.len();
    let mut depth: i128 = 0;
    while i > 0
        invariant
            i <= t@.len(),
            t@.len() == t.len(),
            -(t@.len() - i) <= depth <= t@.len() - i,
            mul_split_from(t@, t@.len() - 1, 0) == mul_split_from(t@, i - 1, depth as int),
        decreases i,
    {
        let k = i - 1;
        let c = t[k];
        if c == ')' {
            depth = depth + 1;
        } else if c == '(' {
            depth = depth - 1;
        } else if (c == '*' || c == '/') && depth == 0 {
            return Some(k);
        }
        i = k;
    }
    None
}

/// A value of unit `u` whose number text is `n` (see `number_value`).
fn number_value_exec(u: CalcUnit, n: Vec<char>) -> (r: Option<CalcExpr>)
    ensures
        opt_calc_view(r) == number_value(u, n@),
{
    if parse_float_text(&n).is_some() {
        Some(CalcExpr::Value(u, string_from_chars(&n)))
    } else {
        None
    }
}

/// `t` without its last `k` characters, trimmed.
fn before_suffix_exec(t: &Vec<char>, k: usize) -> (r: Vec<char>)
    requires
        k <= t@.len(),
    ensures
        r@ == before_suffix(t@, k as int),
{
    trim_chars(&copy_range(t, 0, t.len() - k))
}

/// Reads a single value of a `calc()` expression (see `calc_value`).
pub fn parse_calc_value(s: &[char]) -> (r: Option<CalcExpr>)
    ensures
        opt_calc_view(r) == calc_value(s@),
{
    let t = trim_chars(s);
    if ends_with_lit(&t, "px") {
        proof {
            reveal_strlit("px");
        }
        number_value_exec(CalcUnit::Px, before_suffix_exec(&t, 2))
    } else if ends_with_lit(&t, "%") {
        proof {
            reveal_strlit("%");
        }
        number_value_exec(CalcUnit::Percent, before_suffix_exec(&t, 1))
    } else if ends_with_lit(&t, "vw") {
        proof {
            reveal_strlit("vw");
        }
        number_value_exec(CalcUnit::Vw, before_suffix_exec(&t, 2))
    } else if ends_with_lit(&t, "vh") {
        proof {
            reveal_strlit("vh");
        }
        number_value_exec(CalcUnit::Vh, before_suffix_exec(&t, 2))
    } else if ends_with_lit(&t, "em") {
        proof {
            reveal_strlit("em");
        }
        number_value_exec(CalcUnit::Em, before_suffix_exec(&t, 2))
    } else {
        number_value_exec(CalcUnit::Number, t)
    }
}

/// Two operands joined by the operator at `t[p]`.
fn join_exec(op: char, l: Option<CalcExpr>, r: Option<CalcExpr>) -> (e: Option<CalcExpr>)
    requires
        op == '+' || op == '-' || op == '*' || op == '/',
    ensures
        opt_calc_view(e) == join(op, opt_calc_view(l), opt_calc_view(r)),
{
    match (l, r) {
        (Some(a), Some(b)) => {
            let (a, b) = (Box::new(a), Box::new(b));
            Some(
                if op == '+' {
                    CalcExpr::Add(a, b)
                } else if op == '-' {
                    CalcExpr::Sub(a, b)
                } else if op == '*' {
                    CalcExpr::Mul(a, b)
                } else {
                    CalcExpr::Div(a, b)
                },
            )
        },
        _ => None,
    }
}

/// Reads the inside of a `calc()` (see `calc_tree`).
pub fn parse_calc_tree(e: &[char]) -> (r: Option<CalcExpr>)
    ensures
        opt_calc_view(r) == calc_tree(e@),
    decreases e@.len(),
{
    let t = trim_chars(e);
    proof {
        lemma_trim_len(e@);
        lemma_trim_len(t@);
    }
    if t.len() > 0 && t[0] == '(' {
        match strip_outer_parens(&t) {
            Some(inner) => {
                return parse_calc_tree(&inner);
            },
            None => {},
        }
    }
    let n = t.len();
    match add_split(&t) {
        Some(p) => {
            proof {
                lemma_add_split_range(t@, t@.len() - 1, 0);
            }
            let l = parse_calc_tree(&copy_range(&t, 0, p));
            let r = parse_calc_tree(&copy_range(&t, p + 1, n));
            join_exec(t[p], l, r)
        },
        None => match mul_split(&t) {
            Some(p) => {
                proof {
                    lemma_mul_split_range(t@, t@.len() - 1, 0);
                }
                let l = parse_calc_tree(&copy_range(&t, 0, p));
                let r = parse_calc_tree(&copy_range(&t, p + 1, n));
                join_exec(t[p], l, r)
            },
            None => parse_calc_value(&t),
        },
    }
}

/// How a `calc(...)` call reads: its inside (see `calc_tree`); `None` when
/// the text is not `calc(` ... `)` or its inside does not read.
pub open spec fn calc_call(s: Seq<char>) -> Option<CalcV> {
    let t = trim(s);
    if starts_with(t, "calc("@) && t.len() >= 6 && t.last() == ')' {
        calc_tree(trim(t.subrange(5, t.len() - 1)))
    } else {
        None
    }
}

/// Reads a `calc(...)` call (see `calc_call`).
pub fn parse_calc(expr: &str) -> (r: Option<CalcExpr>)
    ensures
        opt_calc_view(r) == calc_call(expr@),
{
    let t = trim_chars(&chars_of(expr));
    let n = t.len();
    proof {
        reveal_strlit("calc(");
    }
    if starts_with_lit(&t, "calc(") && n >= 6 && t[n - 1] == ')' {
        parse_calc_tree(&trim_chars(&copy_range(&t, 5, n - 1)))
    } else {
        None
    }
}

/// A CSS length as written: its unit and the text of its number, which the
/// caller reads as an `f32` (text that does not read counts as zero), or a
/// `calc()` expression.
#[derive(Debug, PartialEq, Eq)]
pub enum LengthSpec {
    Auto,
    /// A `calc(...)` call, `None` when it does not read.
    Calc(Option<CalcExpr>),
    Percent(String),
    Rem(String),
    Em(String),
    Vw(String),
    Vh(String),
    /// Pixels; also a plain number.
    Px(String),
}

/// The model of a length.
pub enum LengthV {
    Auto,
    Calc(Option<CalcV>),
    Percent(Seq<char>),
    Rem(Seq<char>),
    Em(Seq<char>),
    Vw(Seq<char>),
    Vh(Seq<char>),
    Px(Seq<char>),
}

/// The model of a length.
pub open spec fn length_view(l: LengthSpec) -> LengthV {
    match l {
        LengthSpec::Auto => LengthV::Auto,
        LengthSpec::Calc(c) => LengthV::Calc(opt_calc_view(c)),
        LengthSpec::Percent(t) => LengthV::Percent(t@),
        LengthSpec::Rem(t) => LengthV::Rem(t@),
        LengthSpec::Em(t) => LengthV::Em(t@),
        LengthSpec::Vw(t) => LengthV::Vw(t@),
        LengthSpec::Vh(t) => LengthV::Vh(t@),
        LengthSpec::Px(t) => LengthV::Px(t@),
    }
}

/// How a length reads (after trimming): `0` and `auto`; a `calc(...)` call;
/// else by its unit suffix, `rem` before `em`, with the number before it
/// trimmed; a plain number is in pixels.
pub open spec fn length_of(s: Seq<char>) -> LengthV {
    let t = trim(s);
    if t == "0"@ {
        LengthV::Px("0"@)
    } else if t == "auto"@ {
        LengthV::Auto
    } else if starts_with(t, "calc("@) {
        LengthV::Calc(calc_call(t))
    } else if ends_with(t, "%"@) {
        LengthV::Percent(before_suffix(t, 1))
    } else if ends_with(t, "rem"@) {
        LengthV::Rem(before_suffix(t, 3))
    } else if ends_with(t, "em"@) {
        LengthV::Em(before_suffix(t, 2))
    } else if ends_with(t, "vw"@) {
        LengthV::Vw(before_suffix(t, 2))
    } else if ends_with(t, "vh"@) {
        LengthV::Vh(before_suffix(t, 2))
    } else if ends_with(t, "px"@) {
        LengthV::Px(before_suffix(t, 2))
    } else {
        LengthV::Px(t)
    }
}

/// Reads a CSS length (see `length_of`).
pub fn parse_length(s: &str) -> (r: LengthSpec)
    ensures
        length_view(r) == length_of(s@),
{
    let t = trim_chars(&chars_of(s));
    proof {
        reveal_strlit("0");
        reveal_strlit("%");
        reveal_strlit("rem");
        reveal_strlit("em");
        reveal_strlit("vw");
        reveal_strlit("vh");
        reveal_strlit("px");
    }
    if eq_lit(&t, "0") {
        LengthSpec::Px("0".to_owned())
    } else if eq_lit(&t, "auto") {
        LengthSpec::Auto
    } else if starts_with_lit(&t, "calc(") {
        LengthSpec::Calc(parse_calc(string_from_chars(&t).as_str()))
    } else if ends_with_lit(&t, "%") {
        LengthSpec::Percent(string_from_chars(&before_suffix_exec(&t, 1)))
    } else if ends_with_lit(&t, "rem") {
        LengthSpec::Rem(string_from_chars(&before_suffix_exec(&t, 3)))
    } else if ends_with_lit(&t, "em") {
        LengthSpec::Em(string_from_chars(&before_suffix_exec(&t, 2)))
    } else if ends_with_lit(&t, "vw") {
        LengthSpec::Vw(string_from_chars(&before_suffix_exec(&t, 2)))
    } else if ends_with_lit(&t, "vh") {
        LengthSpec::Vh(string_from_chars(&before_suffix_exec(&t, 2)))
    } else if ends_with_lit(&t, "px") {
        LengthSpec::Px(string_from_chars(&before_suffix_exec(&t, 2)))
    } else {
        LengthSpec::Px(string_from_chars(&t))
    }
}

/// How many times `c` occurs in `s`.
pub open spec fn char_count(s: Seq<char>, c: char) -> int
    decreases s.len(),
{
    if s.len() == 0 {
        0
    } else {
        char_count(s.drop_last(), c) + if s.last() == c {
            1int
        } else {
            0int
        }
    }
}

/// The `*` or `/` that a product is split at stands outside parentheses:
/// after it, the search's `depth` plus the `)` it passed make up for the
/// `(`, so a parenthesised operand reads as a whole.
pub proof fn law_mul_split_outside_parens(t: Seq<char>, i: int, depth: int)
    ensures
        mul_split_from(t, i, depth) matches Some(p) ==> {
            &&& 0 <= p <= i < t.len()
            &&& (t[p] == '*' || t[p] == '/')
            &&& depth + char_count(t.subrange(p + 1, i + 1), ')') - char_count(t.subrange(p + 1, i + 1), '(') == 0
        },
    decreases i + 1,
{
    if 0 <= i < t.len() {
        law_mul_split_outside_parens(t, i - 1, depth + 1);
        law_mul_split_outside_parens(t, i - 1, depth - 1);
        law_mul_split_outside_parens(t, i - 1, depth);
        if let Some(p) = mul_split_from(t, i, depth) {
            if p < i {
                assert(t.subrange(p + 1, i + 1).drop_last() =~= t.subrange(p + 1, i));
                assert(t.subrange(p + 1, i + 1).last() == t[i]);
            } else {
                assert(t.subrange(p + 1, i + 1) =~= Seq::<char>::empty());
            }
        }
    }
}

/// The split of a whole product, searched from its end: its `*` or `/`
/// has as many `(` as `)` after it, e.g. `2 * (100% / 3)` splits at `*`.
pub proof fn law_product_split_balanced(t: Seq<char>)
    ensures
        mul_split_from(t, t.len() - 1, 0) matches Some(p) ==> (t[p] == '*' || t[p] == '/') && char_count(
            t.subrange(p + 1, t.len() as int),
            '(',
        ) == char_count(t.subrange(p + 1, t.len() as int), ')'),
{
    law_mul_split_outside_parens(t, t.len() - 1, 0);
}

/// The `+` or `-` that a sum is split at stands outside parentheses, in
/// the same sense as for products (see `law_mul_split_outside_parens`).
pub proof fn law_add_split_outside_parens(t: Seq<char>, i: int, depth: int)
    ensures
        add_split_from(t, i, depth) matches Some(p) ==> {
            &&& 0 <= p <= i < t.len()
            &&& (t[p] == '+' || t[p] == '-')
            &&& depth + char_count(t.subrange(p + 1, i + 1), ')') - char_count(t.subrange(p + 1, i + 1), '(') == 0
        },
    decreases i + 1,
{
    if 0 <= i < t.len() {
        law_add_split_outside_parens(t, i - 1, depth + 1);
        law_add_split_outside_parens(t, i - 1, depth - 1);
        law_add_split_outside_parens(t, i - 1, depth);
        if let Some(p) = add_split_from(t, i, depth) {
            if p < i {
                assert(t.subrange(p + 1, i + 1).drop_last() =~= t.subrange(p + 1, i));
                assert(t.subrange(p + 1, i + 1).last() == t[i]);
            } else {
                assert(t.subrange(p + 1, i + 1) =~= Seq::<char>::empty());
            }
        }
    }
}

} // verus!
