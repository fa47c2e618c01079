//! Decimal integers: the syntax that `i64::from_str` and `u64::from_str`
//! accept, and the rendering that `Display` gives.
use crate::text::{digit_char, digit_of, digit_value, is_digit};
use vstd::prelude::*;

verus! {

pub open spec fn all_digits(s: Seq<char>) -> bool {
    forall|i: int| 0 <= i < s.len() ==> is_digit(#[trigger] s[i])
}

/// The value of a string of decimal digits.
pub open spec fn digits_value(s: Seq<char>) -> int
    decreases s.len(),
{
    if s.len() == 0 {
        0
    } else {
        digits_value(s.drop_last()) * 10 + digit_value(s.last())
    }
}

/// The integer that `s` denotes: an optional sign, then at least one digit.
pub open spec fn signed_value(s: Seq<char>) -> Option<int> {
    if s.len() > 1 && (s[0] == '+' || s[0] == '-') && all_digits(s.drop_first()) {
        if s[0] == '-' {
            Some(-digits_value(s.drop_first()))
        } else {
            Some(digits_value(s.drop_first()))
        }
    } else if s.len() > 0 && all_digits(s) {
        Some(digits_value(s))
    } else {
        None
    }
}

/// What `s.parse::<i64>()` gives, as an option.
pub open spec fn i64_of(s: Seq<char>) -> Option<i64> {
    match signed_value(s) {
        Some(v) => if i64::MIN <= v <= i64::MAX {
            Some(v as i64)
        } else {
            None
        },
        None => None,
    }
}

/// The integer that `s` denotes without a minus sign: an optional `+`, then
/// at least one digit.
pub open spec fn unsigned_value(s: Seq<char>) -> Option<int> {
    if s.len() > 1 && s[0] == '+' && all_digits(s.drop_first()) {
        Some(digits_value(s.drop_first()))
    } else if s.len() > 0 && all_digits(s) {
        Some(digits_value(s))
    } else {
        None
    }
}

/// What `s.parse::<u64>()` gives, as an option.
pub open spec fn u64_of(s: Seq<char>) -> Option<u64> {
    match unsigned_value(s) {
        Some(v) => if v <= u64::MAX {
            Some(v as u64)
        } else {
            None
        },
        None => None,
    }
}

proof fn lemma_prefix_value(t: Seq<char>, k: int)
    requires
        all_digits(t),
        0 <= k <= t.len(),
    ensures
        0 <= digits_value(t.subrange(0, k)) <= digits_value(t),
    decreases t.len(),
{
    if k == t.len() {
        assert(t.subrange(0, k) =~= t);
        if t.len() > 0 {
            lemma_prefix_value(t.drop_last(), k - 1);
            assert(t.drop_last().subrange(0, k - 1) =~= t.drop_last());
        }
    } else {
        lemma_prefix_value(t.drop_last(), k);
        assert(t.drop_last().subrange(0, k) =~= t.subrange(0, k));
        lemma_prefix_value(t.drop_last(), t.len() - 1);
        assert(t.drop_last().subrange(0, t.len() - 1) =~= t.drop_last());
    }
}

/// Reads the digits `s[from..]` as a `u64`; `None` where one is not a digit or
/// the value does not fit.
fn digits_u64(s: &Vec<char>, from: usize) -> (r: Option<u64>)
    requires
        from < s@.len(),
    ensures
        ({
            let t = s@.subrange(from as int, s@.len() as int);
            match r {
                Some(v) => all_digits(t) && v == digits_value(t),
                None => !(all_digits(t) && digits_value(t) <= u64::MAX),
            }
        }),
{
    let ghost t = s@.subrange(from as int, s@.len() as int);
    let mut acc: u64 = 0;
    let mut i: usize = from;
    assert(s@.subrange(from as int, from as int) =~= Seq::<char>::empty());
    while i < s.len()
        invariant
            from <= i <= s@.len(),
            t == s@.subrange(from as int, s@.len() as int),
            all_digits(s@.subrange(from as int, i as int)),
            acc == digits_value(s@.subrange(from as int, i as int)),
        decreases s@.len() - i,
    {
        let c = s[i];
        if !('0' <= c && c <= '9') {
            assert(t[i - from] == c);
            return None;
        }
        let d = ((c as u32) - ('0' as u32)) as u64;
        let ghost next = s@.subrange(from as int, i + 1);
        assert(next.drop_last() =~= s@.subrange(from as int, i as int));
        assert(all_digits(next)) by {
            assert forall|m: int| 0 <= m < next.len() implies is_digit(#[trigger] next[m]) by {
                if m < next.len() - 1 {
                    assert(next[m] == s@.subrange(from as int, i as int)[m]);
                }
            }
        }
        match acc.checked_mul(10) {
            Some(m) => match m.checked_add(d) {
                Some(v) => {
                    acc = v;
                },
                None => {
                    proof {
                        if all_digits(t) {
                            lemma_prefix_value(t, i + 1 - from);
                            assert(t.subrange(0, i + 1 - from) =~= next);
                        }
                    }
                    return None;
                },
            },
            None => {
                proof {
                    if all_digits(t) {
                        lemma_prefix_value(t, i + 1 - from);
                        assert(t.subrange(0, i + 1 - from) =~= next);
                    }
                }
                return None;
            },
        }
        i += 1;
    }
    Some(acc)
}

/// Parses a signed decimal integer as `str::parse::<i64>` does.
pub fn parse_i64(s: &Vec<char>) -> (r: Option<i64>)
    ensures
        r == i64_of(s@),
{
    if s.len() == 0 {
        return None;
    }
    let c = s[0];
    if c == '+' || c == '-' {
        assert(!is_digit(s@[0]));
        if s.len() == 1 {
            return None;
        }
        assert(s@.subrange(1, s@.len() as int) =~= s@.drop_first());
        match digits_u64(s, 1) {
            None => None,
            Some(m) => {
                if c == '-' {
                    if m == 9223372036854775808u64 {
                        Some(i64::MIN)
                    } else if m < 9223372036854775808u64 {
                        Some(-(m as i64))
                    } else {
                        None
                    }
                } else if m <= 9223372036854775807u64 {
                    Some(m as i64)
                } else {
                    None
                }
            },
        }
    } else {
        assert(s@.subrange(0, s@.len() as int) =~= s@);
        match digits_u64(s, 0) {
            None => None,
            Some(m) => if m <= 9223372036854775807u64 {
                Some(m as i64)
            } else {
                None
            },
        }
    }
}

/// Parses an unsigned decimal integer as `str::parse::<u64>` does.
pub fn parse_u64(s: &Vec<char>) -> (r: Option<u64>)
    ensures
        r == u64_of(s@),
{
    if s.len() == 0 {
        return None;
    }
    if s[0] == '+' {
        assert(!is_digit(s@[0]));
        if s.len() == 1 {
            return None;
        }
        assert(s@.subrange(1, s@.len() as int) =~= s@.drop_first());
        digits_u64(s, 1)
    } else {
        assert(s@.subrange(0, s@.len() as int) =~= s@);
        digits_u64(s, 0)
    }
}

/// The decimal digits of `n`, without leading zeros.
pub open spec fn decimal(n: nat) -> Seq<char>
    decreases n,
{
    if n < 10 {
        seq![digit_of(n as int)]
    } else {
        decimal(n / 10).push(digit_of((n % 10) as int))
    }
}

/// How `Display` writes the integer `v`.
pub open spec fn signed_decimal(v: int) -> Seq<char> {
    if v < 0 {
        seq!['-'] + decimal((-v) as nat)
    } else {
        decimal(v as nat)
    }
}

pub fn push_decimal(n: u64, out: &mut Vec<char>)
    ensures
        final(out)@ == old(out)@ + decimal(n as nat),
    decreases n,
{
    if n >= 10 {
        push_decimal(n / 10, out);
    }
    out.push(digit_char(n % 10));
    assert(final(out)@ =~= old(out)@ + decimal(n as nat));
}

/// The decimal text of `v`, as `v.to_string()` gives it.
pub fn render_i64(v: i64) -> (r: Vec<char>)
    ensures
        r@ == signed_decimal(v as int),
{
    let mut r: Vec<char> = Vec::new();
    if v < 0 {
        r.push('-');
        let m: u64 = (0i128 - (v as i128)) as u64;
        push_decimal(m, &mut r);
    } else {
        push_decimal(v as u64, &mut r);
    }
    r
}

} // verus!
