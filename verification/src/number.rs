//! Decimal integers as `from_str_radix(s, 10)` reads them: an optional sign
//! (`'-'` only for signed types), then one or more ASCII digits, the value in
//! the range of the type.

use vstd::prelude::*;

verus! {

pub open spec fn is_digit(c: char) -> bool {
    48 <= (c as u32) <= 57
}

pub open spec fn digit_value(c: char) -> int {
    (c as u32) - 48
}

pub open spec fn all_digits(s: Seq<char>) -> bool {
    forall|i: int| 0 <= i < s.len() ==> is_digit(#[trigger] s[i])
}

/// The number that a sequence of decimal digits denotes.
pub open spec fn digits_value(s: Seq<char>) -> int
    decreases s.len(),
{
    if s.len() == 0 {
        0
    } else {
        digits_value(s.drop_last()) * 10 + digit_value(s.last())
    }
}

/// The sign (`true` for negative) and the digit part of `s`, or `None` when
/// `s` is empty or only a sign.
pub open spec fn sign_and_digits(s: Seq<char>, signed: bool) -> Option<(bool, Seq<char>)> {
    if s.len() == 0 {
        None
    } else if s.len() == 1 && (s[0] == '+' || s[0] == '-') {
        None
    } else if s[0] == '+' {
        Some((false, s.drop_first()))
    } else if s[0] == '-' && signed {
        Some((true, s.drop_first()))
    } else {
        Some((false, s))
    }
}

/// The integer that `s` denotes, whatever its size.
pub open spec fn decimal_value(s: Seq<char>, signed: bool) -> Option<int> {
    match sign_and_digits(s, signed) {
        None => None,
        Some((neg, ds)) => if all_digits(ds) {
            Some(
                if neg {
                    -digits_value(ds)
                } else {
                    digits_value(ds)
                },
            )
        } else {
            None
        },
    }
}

/// The integer that `s` denotes when it lies in `lo..=hi`, else `None`.
pub open spec fn decimal_in(s: Seq<char>, signed: bool, lo: int, hi: int) -> Option<int> {
    match decimal_value(s, signed) {
        Some(v) => if lo <= v <= hi {
            Some(v)
        } else {
            None
        },
        None => None,
    }
}

proof fn lemma_digits_value_nonneg(s: Seq<char>)
    requires
        all_digits(s),
    ensures
        digits_value(s) >= 0,
    decreases s.len(),
{
    if s.len() > 0 {
        assert(all_digits(s.drop_last()));
        lemma_digits_value_nonneg(s.drop_last());
        assert(is_digit(s[s.len() - 1]));
    }
}

/// Appending digits never makes the value smaller.
proof fn lemma_digits_value_grows(s: Seq<char>, i: int)
    requires
        all_digits(s),
        0 <= i <= s.len(),
    ensures
        digits_value(s.take(i)) <= digits_value(s),
    decreases s.len() - i,
{
    if i < s.len() {
        lemma_digits_value_grows(s, i + 1);
        let t = s.take(i + 1);
        assert(t.drop_last() =~= s.take(i));
        assert(all_digits(s.take(i)));
        lemma_digits_value_nonneg(s.take(i));
        assert(is_digit(s[i]));
    } else {
        assert(s.take(i) =~= s);
    }
}

/// The digit value of `c` when it is an ASCII digit.
fn digit_of(c: char) -> (r: Option<u64>)
    ensures
        r is Some <==> is_digit(c),
        r matches Some(d) ==> d == digit_value(c) && d < 10,
{
    let u = c as u32;
    if 48 <= u && u <= 57 {
        Some((u - 48) as u64)
    } else {
        None
    }
}

/// Reads the digits `s[start..]` into a number no larger than `max`.
fn digits_up_to(s: &Vec<char>, start: usize, max: u64) -> (r: Option<u64>)
    requires
        start <= s.len(),
    ensures
        ({
            let ds = s@.skip(start as int);
            match r {
                Some(v) => all_digits(ds) && digits_value(ds) == v && v <= max,
                None => !all_digits(ds) || digits_value(ds) > max,
            }
        }),
{
    let ghost ds = s@.skip(start as int);
    let mut acc: u64 = 0;
    let mut i: usize = start;
    while i < s.len()
        invariant
            start <= i <= s.len(),
            ds == s@.skip(start as int),
            all_digits(ds.take(i - start)),
            digits_value(ds.take(i - start)) == acc,
            acc <= max,
        decreases s.len() - i,
    {
        let k: Ghost<int> = Ghost(i - start);
        assert(ds.take(k@ + 1).drop_last() =~= ds.take(k@));
        assert(ds[k@] == s@[i as int]);
        match digit_of(s[i]) {
            None => {
                assert(!is_digit(ds[k@]));
                return None;
            },
            Some(d) => {
                assert(all_digits(ds.take(k@ + 1)));
                if acc > max / 10 {
                    assert(acc * 10 > max) by (nonlinear_arith)
                        requires
                            acc > max / 10,
                    {
                    }
                    proof {
                        if all_digits(ds) {
                            lemma_digits_value_grows(ds, k@ + 1);
                        }
                    }
                    return None;
                }
                assert(acc * 10 <= max) by (nonlinear_arith)
                    requires
                        acc <= max / 10,
                {
                }
                if d > max - acc * 10 {
                    proof {
                        if all_digits(ds) {
                            lemma_digits_value_grows(ds, k@ + 1);
                        }
                    }
                    return None;
                }
                acc = acc * 10 + d;
            },
        }
        i = i + 1;
    }
    assert(ds.take(i - start) =~= ds);
    Some(acc)
}

/// Reads an unsigned decimal no larger than `max`.
pub fn parse_unsigned(s: &Vec<char>, max: u64) -> (r: Option<u64>)
    ensures
        match r {
            Some(v) => decimal_in(s@, false, 0, max as int) == Some(v as int),
            None => decimal_in(s@, false, 0, max as int) is None,
        },
{
    let n = s.len();
    if n == 0 {
        return None;
    }
    if n == 1 && (s[0] == '+' || s[0] == '-') {
        return None;
    }
    let start: usize = if s[0] == '+' {
        1
    } else {
        0
    };
    assert(s@.skip(1) =~= s@.drop_first());
    assert(s@.skip(0) =~= s@);
    let r = digits_up_to(s, start, max);
    proof {
        let ds = s@.skip(start as int);
        if all_digits(ds) {
            lemma_digits_value_nonneg(ds);
        }
    }
    r
}

/// Reads a signed decimal in `min..=max`.
pub fn parse_signed(s: &Vec<char>, min: i64, max: i64) -> (r: Option<i64>)
    requires
        min <= 0 <= max,
    ensures
        match r {
            Some(v) => decimal_in(s@, true, min as int, max as int) == Some(v as int),
            None => decimal_in(s@, true, min as int, max as int) is None,
        },
{
    let n = s.len();
    if n == 0 {
        return None;
    }
    if n == 1 && (s[0] == '+' || s[0] == '-') {
        return None;
    }
    let neg = s[0] == '-';
    let start: usize = if s[0] == '+' || neg {
        1
    } else {
        0
    };
    assert(s@.skip(1) =~= s@.drop_first());
    assert(s@.skip(0) =~= s@);
    let limit: u64 = if neg {
        (0i128 - (min as i128)) as u64
    } else {
        max as u64
    };
    let r = digits_up_to(s, start, limit);
    proof {
        let ds = s@.skip(start as int);
        if all_digits(ds) {
            lemma_digits_value_nonneg(ds);
        }
    }
    match r {
        None => None,
        Some(m) => if neg {
            Some((0i128 - (m as i128)) as i64)
        } else {
            Some(m as i64)
        },
    }
}

/// `u64::from_str_radix(s, 10)`.
pub fn parse_u64(s: &Vec<char>) -> (r: Option<u64>)
    ensures
        match r {
            Some(v) => decimal_in(s@, false, 0, u64::MAX as int) == Some(v as int),
            None => decimal_in(s@, false, 0, u64::MAX as int) is None,
        },
{
    parse_unsigned(s, u64::MAX)
}

/// `u32::from_str_radix(s, 10)`.
pub fn parse_u32(s: &Vec<char>) -> (r: Option<u32>)
    ensures
        match r {
            Some(v) => decimal_in(s@, false, 0, u32::MAX as int) == Some(v as int),
            None => decimal_in(s@, false, 0, u32::MAX as int) is None,
        },
{
    match parse_unsigned(s, u32::MAX as u64) {
        Some(v) => Some(v as u32),
        None => None,
    }
}

/// `i64::from_str_radix(s, 10)`.
pub fn parse_i64(s: &Vec<char>) -> (r: Option<i64>)
    ensures
        match r {
            Some(v) => decimal_in(s@, true, i64::MIN as int, i64::MAX as int) == Some(v as int),
            None => decimal_in(s@, true, i64::MIN as int, i64::MAX as int) is None,
        },
{
    parse_signed(s, i64::MIN, i64::MAX)
}

/// `i32::from_str_radix(s, 10)`.
pub fn parse_i32(s: &Vec<char>) -> (r: Option<i32>)
    ensures
        match r {
            Some(v) => decimal_in(s@, true, i32::MIN as int, i32::MAX as int) == Some(v as int),
            None => decimal_in(s@, true, i32::MIN as int, i32::MAX as int) is None,
        },
{
    match parse_signed(s, i32::MIN as i64, i32::MAX as i64) {
        Some(v) => Some(v as i32),
        None => None,
    }
}

/// The decimal digits of `n`, most significant first, without leading zeros.
pub open spec fn decimal_digits(n: nat) -> Seq<char>
    decreases n,
{
    if n < 10 {
        seq![(n + 48) as char]
    } else {
        decimal_digits(n / 10).push(((n % 10) + 48) as char)
    }
}

proof fn lemma_decimal_digits(n: nat)
    ensures
        all_digits(decimal_digits(n)),
        digits_value(decimal_digits(n)) == n,
        decimal_digits(n).len() >= 1,
    decreases n,
{
    let d = decimal_digits(n);
    if n < 10 {
        let c = (n + 48) as char;
        assert(c as u32 == n + 48);
        assert(d.drop_last() =~= Seq::<char>::empty());
        assert(digits_value(d.drop_last()) == 0);
        assert(digits_value(d) == digits_value(d.drop_last()) * 10 + digit_value(d.last()));
    } else {
        lemma_decimal_digits(n / 10);
        let c = ((n % 10) + 48) as char;
        assert(c as u32 == (n % 10) + 48);
        assert(d.drop_last() =~= decimal_digits(n / 10));
        assert(d.last() == c);
        assert((n / 10) * 10 + n % 10 == n) by (nonlinear_arith);
        assert(digits_value(d) == digits_value(d.drop_last()) * 10 + digit_value(d.last()));
        assert forall|i: int| 0 <= i < d.len() implies is_digit(#[trigger] d[i]) by {
            if i < d.len() - 1 {
                assert(d[i] == decimal_digits(n / 10)[i]);
            }
        }
    }
}

/// A number written in decimal reads back as the same number.
pub proof fn law_decimal_round_trip(n: nat)
    ensures
        decimal_value(decimal_digits(n), false) == Some(n as int),
        decimal_value(decimal_digits(n), true) == Some(n as int),
        n <= u64::MAX ==> decimal_in(decimal_digits(n), false, 0, u64::MAX as int) == Some(
            n as int,
        ),
{
    lemma_decimal_digits(n);
    let d = decimal_digits(n);
    assert(is_digit(d[0]));
}

} // verus!
