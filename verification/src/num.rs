//! Decimal integer parsing with the grammar of std's `FromStr` for integers: an optional sign
//! (`+`, and `-` for signed types) followed by one or more ASCII digits, refused when the value
//! does not fit the type.
use vstd::prelude::*;

verus! {

pub open spec fn is_digit(c: char) -> bool {
    '0' <= c <= '9'
}

pub open spec fn all_digits(d: Seq<char>) -> bool {
    forall|k: int| 0 <= k < d.len() ==> is_digit(#[trigger] d[k])
}

pub open spec fn digit_val(c: char) -> int {
    c as int - '0' as int
}

/// The value of a string of decimal digits.
pub open spec fn digits_val(d: Seq<char>) -> int
    decreases d.len(),
{
    if d.len() == 0 {
        0
    } else {
        10 * digits_val(d.drop_last()) + digit_val(d.last())
    }
}

/// `s` read as a decimal magnitude with an optional leading `+` (and `-` when `signed`):
/// the sign, and the digits.
pub open spec fn sign_and_digits(s: Seq<char>, signed: bool) -> (bool, Seq<char>) {
    if s.len() > 0 && s[0] == '+' {
        (false, s.skip(1))
    } else if signed && s.len() > 0 && s[0] == '-' {
        (true, s.skip(1))
    } else {
        (false, s)
    }
}

/// `s.parse::<i64>()`.
pub open spec fn parse_i64(s: Seq<char>) -> Option<int> {
    let (neg, d) = sign_and_digits(s, true);
    if d.len() == 0 || !all_digits(d) {
        None
    } else {
        let v = if neg {
            -digits_val(d)
        } else {
            digits_val(d)
        };
        if i64::MIN <= v <= i64::MAX {
            Some(v)
        } else {
            None
        }
    }
}

/// `s.parse::<u32>()` (and any unsigned type whose maximum is `max`).
pub open spec fn parse_unsigned(s: Seq<char>, max: int) -> Option<int> {
    let (_, d) = sign_and_digits(s, false);
    if d.len() == 0 || !all_digits(d) {
        None
    } else if digits_val(d) <= max {
        Some(digits_val(d))
    } else {
        None
    }
}

pub proof fn lemma_digits_val_nonneg(d: Seq<char>)
    requires
        all_digits(d),
    ensures
        digits_val(d) >= 0,
    decreases d.len(),
{
    if d.len() > 0 {
        assert(all_digits(d.drop_last()));
        lemma_digits_val_nonneg(d.drop_last());
        assert(is_digit(d[d.len() - 1]));
    }
}

/// A longer digit string has at least the value of its prefix.
pub proof fn lemma_digits_val_prefix(d: Seq<char>, k: int)
    requires
        all_digits(d),
        0 <= k <= d.len(),
    ensures
        digits_val(d.take(k)) <= digits_val(d),
    decreases d.len(),
{
    if k == d.len() {
        assert(d.take(k) =~= d);
    } else {
        assert(all_digits(d.drop_last()));
        assert(d.drop_last().take(k) =~= d.take(k));
        lemma_digits_val_prefix(d.drop_last(), k);
        lemma_digits_val_nonneg(d.drop_last());
        assert(is_digit(d[d.len() - 1]));
    }
}

/// The magnitude of the digits of `v[from..]`, or `None` when a character is not a digit,
/// there are no digits, or the magnitude exceeds `limit`.
fn magnitude(v: &Vec<char>, from: usize, limit: u64) -> (r: Option<u64>)
    requires
        from <= v.len(),
        limit >= 9,
    ensures
        r matches Some(m) ==> v@.skip(from as int).len() > 0 && all_digits(v@.skip(from as int))
            && m == digits_val(v@.skip(from as int)) && m <= limit,
        r is None ==> v@.skip(from as int).len() == 0 || !all_digits(v@.skip(from as int))
            || digits_val(v@.skip(from as int)) > limit,
{
    let ghost d = v@.skip(from as int);
    if from == v.len() {
        return None;
    }
    let mut acc: u64 = 0;
    let mut i = from;
    while i < v.len()
        invariant
            from <= i <= v.len(),
            d == v@.skip(from as int),
            all_digits(d.take(i - from)),
            acc == digits_val(d.take(i - from)),
            acc <= limit,
            limit >= 9,
        decreases v.len() - i,
    {
        let c = v[i];
        if !('0' <= c && c <= '9') {
            assert(d[i - from] == c);
            return None;
        }
        let dv = (c as u64) - ('0' as u64);
        proof {
            assert(d.take(i - from + 1).drop_last() =~= d.take(i - from));
            assert(d.take(i - from + 1).last() == c);
            assert(all_digits(d.take(i - from + 1)));
        }
        if acc > (limit - dv) / 10 {
            proof {
                assert(10 * acc + dv > limit) by (nonlinear_arith)
                    requires
                        acc > (limit - dv) / 10,
                        dv <= 9,
                        limit >= 9,
                ;
                // every later digit only grows the value
                let k = i - from + 1;
                assert(digits_val(d.take(k)) == 10 * acc + dv);
                if all_digits(d) {
                    lemma_digits_val_prefix(d, k);
                }
            }
            return None;
        }
        acc = acc * 10 + dv;
        i = i + 1;
    }
    assert(d.take(i - from) =~= d);
    Some(acc)
}

/// `s.parse::<i64>()` on characters.
pub fn parse_i64_exec(v: &Vec<char>) -> (r: Option<i64>)
    ensures
        r matches Some(n) ==> parse_i64(v@) == Some(n as int),
        r is None ==> parse_i64(v@) is None,
{
    let mut from: usize = 0;
    let mut neg = false;
    if v.len() > 0 && v[0] == '+' {
        from = 1;
    } else if v.len() > 0 && v[0] == '-' {
        from = 1;
        neg = true;
    }
    assert(v@.skip(0) =~= v@);
    let limit: u64 = if neg {
        9223372036854775808
    } else {
        9223372036854775807
    };
    match magnitude(v, from, limit) {
        None => None,
        Some(m) => {
            if neg {
                if m == 9223372036854775808 {
                    Some(-9223372036854775807i64 - 1)
                } else {
                    Some(-(m as i64))
                }
            } else {
                Some(m as i64)
            }
        },
    }
}

/// `s.parse::<u16>()` on characters.
pub fn parse_u16_exec(v: &Vec<char>) -> (r: Option<u16>)
    ensures
        r matches Some(n) ==> parse_unsigned(v@, u16::MAX as int) == Some(n as int),
        r is None ==> parse_unsigned(v@, u16::MAX as int) is None,
{
    let mut from: usize = 0;
    if v.len() > 0 && v[0] == '+' {
        from = 1;
    }
    assert(v@.skip(0) =~= v@);
    match magnitude(v, from, 65535) {
        None => None,
        Some(m) => Some(m as u16),
    }
}

/// `s.parse::<u32>()` on characters.
pub fn parse_u32_exec(v: &Vec<char>) -> (r: Option<u32>)
    ensures
        r matches Some(n) ==> parse_unsigned(v@, u32::MAX as int) == Some(n as int),
        r is None ==> parse_unsigned(v@, u32::MAX as int) is None,
{
    let mut from: usize = 0;
    if v.len() > 0 && v[0] == '+' {
        from = 1;
    }
    assert(v@.skip(0) =~= v@);
    match magnitude(v, from, 4294967295) {
        None => None,
        Some(m) => Some(m as u32),
    }
}

/// `s.parse::<u64>()` on characters.
pub fn parse_u64_exec(v: &Vec<char>) -> (r: Option<u64>)
    ensures
        r matches Some(n) ==> parse_unsigned(v@, u64::MAX as int) == Some(n as int),
        r is None ==> parse_unsigned(v@, u64::MAX as int) is None,
{
    let mut from: usize = 0;
    if v.len() > 0 && v[0] == '+' {
        from = 1;
    }
    assert(v@.skip(0) =~= v@);
    magnitude(v, from, 18446744073709551615)
}

} // verus!
