//! Decimal integer parsing with the grammar of std's `FromStr` for integers:
//! an optional sign, then one or more ASCII digits, within the type's range.
use vstd::prelude::*;

verus! {

/// `c` is an ASCII digit.
pub open spec fn is_digit(c: char) -> bool {
    '0' <= c && c <= '9'
}

/// Every character of `s` is an ASCII digit.
pub open spec fn all_digits(s: Seq<char>) -> bool {
    forall|i: int| 0 <= i < s.len() ==> is_digit(#[trigger] s[i])
}

/// The decimal value of a string of digits.
pub open spec fn digits_value(s: Seq<char>) -> int
    decreases s.len(),
{
    if s.len() == 0 {
        0
    } else {
        digits_value(s.drop_last()) * 10 + (s.last() as int - '0' as int)
    }
}

/// The value of `s` as an unsigned integer no larger than `max`: an optional
/// `+`, then one or more digits.
pub open spec fn parse_unsigned(s: Seq<char>, max: int) -> Option<int> {
    let d = if s.len() > 0 && s[0] == '+' {
        s.drop_first()
    } else {
        s
    };
    if d.len() > 0 && all_digits(d) && digits_value(d) <= max {
        Some(digits_value(d))
    } else {
        None
    }
}

/// The value of `s` as a signed integer in `min..=max`: an optional `+` or
/// `-`, then one or more digits.
pub open spec fn parse_signed(s: Seq<char>, min: int, max: int) -> Option<int> {
    let neg = s.len() > 0 && s[0] == '-';
    let d = if s.len() > 0 && (s[0] == '+' || s[0] == '-') {
        s.drop_first()
    } else {
        s
    };
    let v = if neg {
        -digits_value(d)
    } else {
        digits_value(d)
    };
    if d.len() > 0 && all_digits(d) && min <= v <= max {
        Some(v)
    } else {
        None
    }
}

proof fn lemma_digits_nonneg(s: Seq<char>)
    requires
        all_digits(s),
    ensures
        digits_value(s) >= 0,
    decreases s.len(),
{
    if s.len() > 0 {
        assert(all_digits(s.drop_last())) by {
            assert forall|i: int| 0 <= i < s.drop_last().len() implies is_digit(
                #[trigger] s.drop_last()[i],
            ) by {
                assert(s.drop_last()[i] == s[i]);
            }
        }
        lemma_digits_nonneg(s.drop_last());
        assert(is_digit(s[s.len() - 1]));
    }
}

/// A longer digit string is worth at least as much as its prefix.
proof fn lemma_digits_prefix_le(s: Seq<char>, k: int)
    requires
        all_digits(s),
        0 <= k <= s.len(),
    ensures
        digits_value(s.take(k)) <= digits_value(s),
    decreases s.len() - k,
{
    if k < s.len() {
        lemma_digits_prefix_le(s, k + 1);
        assert(s.take(k + 1).drop_last() == s.take(k));
        assert(all_digits(s.take(k))) by {
            assert forall|i: int| 0 <= i < s.take(k).len() implies is_digit(
                #[trigger] s.take(k)[i],
            ) by {
                assert(s.take(k)[i] == s[i]);
            }
        }
        lemma_digits_nonneg(s.take(k));
        assert(is_digit(s[k]));
        assert(s.take(k + 1).last() == s[k]);
    } else {
        assert(s.take(k) == s);
    }
}

/// Value of the digit string `d` if it is one and its value is at most
/// `max`.
fn digits_upto(d: &[char], max: u64) -> (r: Option<u64>)
    ensures
        match r {
            Some(v) => d@.len() > 0 && all_digits(d@) && digits_value(d@) == v && v <= max,
            None => !(d@.len() > 0 && all_digits(d@) && digits_value(d@) <= max),
        },
{
    let n = d.len();
    if n == 0 {
        return None;
    }
    let mut v: u64 = 0;
    let mut i: usize = 0;
    while i < n
        invariant
            n == d@.len(),
            i <= n,
            all_digits(d@.take(i as int)),
            v == digits_value(d@.take(i as int)),
            v <= max,
        decreases n - i,
    {
        let c = d[i];
        assert(d@.take(i + 1).drop_last() == d@.take(i as int));
        if !('0' <= c && c <= '9') {
            assert(!is_digit(d@[i as int]));
            return None;
        }
        let dv = (c as u32 - '0' as u32) as u64;
        assert(all_digits(d@.take(i + 1))) by {
            assert forall|j: int| 0 <= j < d@.take(i + 1).len() implies is_digit(
                #[trigger] d@.take(i + 1)[j],
            ) by {
                if j < i {
                    assert(d@.take(i + 1)[j] == d@.take(i as int)[j]);
                }
            }
        }
        if dv > max || v > (max - dv) / 10 {
            proof {
                if dv <= max {
                    assert(v * 10 + dv > max) by (nonlinear_arith)
                        requires
                            v > (max - dv) / 10,
                            dv <= max,
                    ;
                }
                if all_digits(d@) {
                    lemma_digits_prefix_le(d@, i + 1);
                }
            }
            return None;
        }
        proof {
            assert(v * 10 + dv <= max) by (nonlinear_arith)
                requires
                    v <= (max - dv) / 10,
                    dv <= max,
            ;
        }
        v = v * 10 + dv;
        i = i + 1;
    }
    assert(d@.take(n as int) == d@);
    Some(v)
}

/// Parses an unsigned decimal integer no larger than `max`.
pub fn parse_uint(s: &[char], max: u64) -> (r: Option<u64>)
    ensures
        match r {
            Some(v) => parse_unsigned(s@, max as int) == Some(v as int),
            None => parse_unsigned(s@, max as int) is None,
        },
{
    if s.len() > 0 && s[0] == '+' {
        let d = crate::text::copy_range(s, 1, s.len());
        assert(d@ == s@.drop_first());
        digits_upto(&d, max)
    } else {
        digits_upto(s, max)
    }
}

/// Parses a signed decimal integer in `-neg_max..=max`.
pub fn parse_int(s: &[char], neg_max: u64, max: u64) -> (r: Option<i128>)
    requires
        neg_max <= 0x8000_0000_0000_0000,
        max <= 0x7fff_ffff_ffff_ffff,
    ensures
        match r {
            Some(v) => parse_signed(s@, -(neg_max as int), max as int) == Some(v as int),
            None => parse_signed(s@, -(neg_max as int), max as int) is None,
        },
{
    if s.len() > 0 && s[0] == '-' {
        let d = crate::text::copy_range(s, 1, s.len());
        assert(d@ == s@.drop_first());
        match digits_upto(&d, neg_max) {
            Some(v) => Some(-(v as i128)),
            None => None,
        }
    } else if s.len() > 0 && s[0] == '+' {
        let d = crate::text::copy_range(s, 1, s.len());
        assert(d@ == s@.drop_first());
        match digits_upto(&d, max) {
            Some(v) => Some(v as i128),
            None => None,
        }
    } else {
        match digits_upto(s, max) {
            Some(v) => Some(v as i128),
            None => None,
        }
    }
}

} // verus!
