//! Exact decimal numbers in fixed point.
//!
//! Every quantity and every price is held as a whole number of
//! hundred-millionths: `units == value * 10^8`. A text is read exactly or not
//! at all, so sums and products of what was read carry no rounding error.

use vstd::prelude::*;
use crate::text::chars_of;

verus! {

/// How many digits may follow the decimal point.
pub const FRACTION_DIGITS: usize = 8;

/// How many units make one: `10^FRACTION_DIGITS`.
pub const SCALE: i64 = 100_000_000;

/// `10^n`.
pub open spec fn pow10(n: nat) -> nat
    decreases n,
{
    if n == 0 {
        1
    } else {
        10 * pow10((n - 1) as nat)
    }
}

pub open spec fn is_digit(c: char) -> bool {
    '0' <= c <= '9'
}

/// The number that the digit `c` stands for.
pub open spec fn digit_value(c: char) -> nat {
    (c as u32 - '0' as u32) as nat
}

pub open spec fn all_digits(s: Seq<char>) -> bool {
    forall|i: int| 0 <= i < s.len() ==> is_digit(#[trigger] s[i])
}

/// The number read when the digits of `s` are appended to the decimal
/// numeral of `acc`.
pub open spec fn read_digits(acc: nat, s: Seq<char>) -> nat
    decreases s.len(),
{
    if s.len() == 0 {
        acc
    } else {
        read_digits(acc, s.drop_last()) * 10 + digit_value(s.last())
    }
}

/// The text without its sign, if it has one.
pub open spec fn unsigned_part(s: Seq<char>) -> Seq<char> {
    if s.len() > 0 && (s[0] == '+' || s[0] == '-') {
        s.skip(1)
    } else {
        s
    }
}

/// Where the first decimal point of `s` stands; `s.len()` if it has none.
pub open spec fn point_index(s: Seq<char>) -> int
    decreases s.len(),
{
    if s.len() == 0 || s[0] == '.' {
        0
    } else {
        1 + point_index(s.skip(1))
    }
}

/// What stands before the first decimal point.
pub open spec fn whole_part(body: Seq<char>) -> Seq<char> {
    body.take(point_index(body))
}

/// What stands after the first decimal point.
pub open spec fn fraction_part(body: Seq<char>) -> Seq<char> {
    if point_index(body) < body.len() {
        body.skip(point_index(body) + 1)
    } else {
        Seq::empty()
    }
}

/// `s` is a decimal numeral: an optional sign, then digits with at most one
/// decimal point among them, at least one digit in all and at most
/// [`FRACTION_DIGITS`] of them after the point.
pub open spec fn is_decimal(s: Seq<char>) -> bool {
    let body = unsigned_part(s);
    &&& all_digits(whole_part(body))
    &&& all_digits(fraction_part(body))
    &&& whole_part(body).len() + fraction_part(body).len() >= 1
    &&& fraction_part(body).len() <= FRACTION_DIGITS
}

/// The absolute value of the numeral `s`, in units.
pub open spec fn magnitude(s: Seq<char>) -> nat {
    let body = unsigned_part(s);
    read_digits(0, whole_part(body) + fraction_part(body)) * pow10(
        (FRACTION_DIGITS - fraction_part(body).len()) as nat,
    )
}

/// The value of the text `s` in units, where `s` is a decimal numeral whose
/// value lies within `-i64::MAX ..= i64::MAX` units.
pub open spec fn decimal_units(s: Seq<char>) -> Option<int> {
    if is_decimal(s) && magnitude(s) <= i64::MAX {
        if s[0] == '-' {
            Some(-(magnitude(s) as int))
        } else {
            Some(magnitude(s) as int)
        }
    } else {
        None
    }
}

/// The value of `s` in units, and zero where `s` has none.
pub open spec fn units_or_zero(s: Seq<char>) -> int {
    match decimal_units(s) {
        Some(u) => u,
        None => 0,
    }
}

pub proof fn lemma_point_index_bounds(s: Seq<char>)
    ensures
        0 <= point_index(s) <= s.len(),
        forall|k: int| 0 <= k < point_index(s) ==> s[k] != '.',
        point_index(s) < s.len() ==> s[point_index(s)] == '.',
    decreases s.len(),
{
    if s.len() == 0 || s[0] == '.' {
    } else {
        lemma_point_index_bounds(s.skip(1));
        assert forall|k: int| 0 <= k < point_index(s) implies s[k] != '.' by {
            if k > 0 {
                assert(s[k] == s.skip(1)[k - 1]);
            }
        }
        if point_index(s) < s.len() {
            assert(s[point_index(s)] == s.skip(1)[point_index(s) - 1]);
        }
    }
}

/// The first decimal point is where no point stands before and one stands at.
pub proof fn lemma_point_index_is(s: Seq<char>, p: int)
    requires
        0 <= p <= s.len(),
        forall|k: int| 0 <= k < p ==> s[k] != '.',
        p < s.len() ==> s[p] == '.',
    ensures
        point_index(s) == p,
{
    lemma_point_index_bounds(s);
    let q = point_index(s);
    if q < p {
        assert(s[q] == '.');
    } else if p < q {
        assert(s[p] == '.');
    }
}

/// Reading more digits never gives a smaller number.
pub proof fn lemma_read_digits_grows(acc: nat, s: Seq<char>, k: int)
    requires
        0 <= k <= s.len(),
    ensures
        read_digits(acc, s.take(k)) <= read_digits(acc, s),
    decreases s.len(),
{
    if k == s.len() {
        assert(s.take(k) =~= s);
    } else {
        assert(s.drop_last().take(k) =~= s.take(k));
        lemma_read_digits_grows(acc, s.drop_last(), k);
    }
}

/// Reading `a` and then `b` is reading `a + b`.
pub proof fn lemma_read_digits_concat(acc: nat, a: Seq<char>, b: Seq<char>)
    ensures
        read_digits(acc, a + b) == read_digits(read_digits(acc, a), b),
    decreases b.len(),
{
    if b.len() == 0 {
        assert(a + b =~= a);
    } else {
        assert((a + b).drop_last() =~= a + b.drop_last());
        assert((a + b).last() == b.last());
        lemma_read_digits_concat(acc, a, b.drop_last());
    }
}

pub proof fn lemma_pow10_positive(n: nat)
    ensures
        pow10(n) >= 1,
    decreases n,
{
    if n > 0 {
        lemma_pow10_positive((n - 1) as nat);
    }
}

/// One is `10^FRACTION_DIGITS` units.
pub proof fn lemma_scale_is_power()
    ensures
        pow10(FRACTION_DIGITS as nat) == SCALE,
{
    reveal_with_fuel(pow10, 9);
}

/// Whether `c` is one of the digits `0` to `9`.
pub fn is_digit_exec(c: char) -> (r: bool)
    ensures
        r == is_digit(c),
{
    '0' <= c && c <= '9'
}

/// Reads `chars[from..to]` as digits appended to the numeral of `acc`.
/// Gives no number where a character is no digit or the number read would
/// exceed `i64::MAX`.
pub fn append_digits(chars: &Vec<char>, from: usize, to: usize, acc: u64) -> (r: Option<u64>)
    requires
        from <= to <= chars@.len(),
        acc <= i64::MAX,
    ensures
        match r {
            Some(v) => {
                &&& all_digits(chars@.subrange(from as int, to as int))
                &&& v == read_digits(acc as nat, chars@.subrange(from as int, to as int))
                &&& v <= i64::MAX
            },
            None => {
                ||| !all_digits(chars@.subrange(from as int, to as int))
                ||| read_digits(acc as nat, chars@.subrange(from as int, to as int)) > i64::MAX
            },
        },
{
    let ghost run = chars@.subrange(from as int, to as int);
    let limit: u64 = 0x7fff_ffff_ffff_ffff;
    let mut cur: u64 = acc;
    let mut k: usize = from;
    while k < to
        invariant
            from <= k <= to <= chars@.len(),
            run == chars@.subrange(from as int, to as int),
            limit == i64::MAX,
            cur <= limit,
            cur == read_digits(acc as nat, run.take(k - from)),
            all_digits(run.take(k - from)),
        decreases to - k,
    {
        let c: char = chars[k];
        proof {
            assert(run[k - from] == c);
            assert(run.take(k - from + 1).drop_last() =~= run.take(k - from));
            assert(run.take(k - from + 1).last() == c);
        }
        if !is_digit_exec(c) {
            return None;
        }
        let d: u64 = (c as u32 - '0' as u32) as u64;
        if cur > (limit - d) / 10 {
            proof {
                lemma_read_digits_grows(acc as nat, run, k - from + 1);
            }
            return None;
        }
        cur = cur * 10 + d;
        k += 1;
    }
    proof {
        assert(run.take(to - from) =~= run);
    }
    Some(cur)
}

/// `10^n` for the few `n` that a fraction can be short of its full length.
fn pow10_exec(n: usize) -> (r: u64)
    requires
        n <= FRACTION_DIGITS,
    ensures
        r == pow10(n as nat),
        1 <= r <= SCALE,
{
    let mut r: u64 = 1;
    let mut k: usize = 0;
    proof {
        lemma_scale_is_power();
    }
    while k < n
        invariant
            k <= n <= FRACTION_DIGITS,
            r == pow10(k as nat),
            r * pow10((FRACTION_DIGITS - k) as nat) == pow10(FRACTION_DIGITS as nat),
            pow10(FRACTION_DIGITS as nat) == SCALE,
        decreases n - k,
    {
        proof {
            lemma_pow10_positive((FRACTION_DIGITS - k - 1) as nat);
            assert(r * (10 * pow10((FRACTION_DIGITS - k - 1) as nat)) == (r * 10) * pow10(
                (FRACTION_DIGITS - k - 1) as nat,
            )) by (nonlinear_arith);
            assert(r * 10 <= (r * 10) * pow10((FRACTION_DIGITS - k - 1) as nat))
                by (nonlinear_arith)
                requires
                    pow10((FRACTION_DIGITS - k - 1) as nat) >= 1,
            ;
        }
        r = r * 10;
        k += 1;
    }
    proof {
        lemma_pow10_positive((FRACTION_DIGITS - n) as nat);
        lemma_pow10_positive(n as nat);
        assert(r <= r * pow10((FRACTION_DIGITS - n) as nat)) by (nonlinear_arith)
            requires
                pow10((FRACTION_DIGITS - n) as nat) >= 1,
        ;
    }
    r
}

/// Reads a decimal numeral exactly: its value in units, or nothing where the
/// text is no numeral or its value lies outside `-i64::MAX ..= i64::MAX`.
pub fn parse_decimal(text: &str) -> (r: Option<i64>)
    ensures
        match r {
            Some(u) => decimal_units(text@) == Some(u as int),
            None => decimal_units(text@) is None,
        },
{
    let chars = chars_of(text);
    let n: usize = chars.len();
    let mut start: usize = 0;
    let mut negative = false;
    if n > 0 && (chars[0] == '+' || chars[0] == '-') {
        negative = chars[0] == '-';
        start = 1;
    }
    let ghost body = unsigned_part(text@);
    assert(body =~= chars@.skip(start as int));
    let mut p: usize = start;
    while p < n && chars[p] != '.'
        invariant
            start <= p <= n == chars@.len(),
            forall|k: int| start <= k < p ==> chars@[k] != '.',
        decreases n - p,
    {
        p += 1;
    }
    proof {
        lemma_point_index_is(body, p - start);
        assert(whole_part(body) =~= chars@.subrange(start as int, p as int));
        if p < n {
            assert(fraction_part(body) =~= chars@.subrange(p + 1, n as int));
        }
    }
    let fraction_len: usize = if p < n { n - p - 1 } else { 0 };
    if fraction_len > FRACTION_DIGITS || (p - start) + fraction_len == 0 {
        return None;
    }
    let whole: u64 = match append_digits(&chars, start, p, 0) {
        Some(v) => v,
        None => {
            proof {
                lemma_read_digits_grows(
                    0,
                    whole_part(body) + fraction_part(body),
                    whole_part(body).len() as int,
                );
                assert((whole_part(body) + fraction_part(body)).take(
                    whole_part(body).len() as int,
                ) =~= whole_part(body));
                lemma_pow10_positive((FRACTION_DIGITS - fraction_part(body).len()) as nat);
                assert(magnitude(text@) >= read_digits(
                    0,
                    whole_part(body) + fraction_part(body),
                )) by (nonlinear_arith)
                    requires
                        magnitude(text@) == read_digits(
                            0,
                            whole_part(body) + fraction_part(body),
                        ) * pow10((FRACTION_DIGITS - fraction_part(body).len()) as nat),
                        pow10((FRACTION_DIGITS - fraction_part(body).len()) as nat) >= 1,
                ;
            }
            return None;
        },
    };
    proof {
        lemma_read_digits_concat(0, whole_part(body), fraction_part(body));
        lemma_pow10_positive((FRACTION_DIGITS - fraction_part(body).len()) as nat);
    }
    let digits: u64 = if p < n {
        match append_digits(&chars, p + 1, n, whole) {
            Some(v) => v,
            None => {
                proof {
                    assert(all_digits(fraction_part(body)) ==> magnitude(text@) >= read_digits(
                        0,
                        whole_part(body) + fraction_part(body),
                    )) by (nonlinear_arith)
                        requires
                            magnitude(text@) == read_digits(
                                0,
                                whole_part(body) + fraction_part(body),
                            ) * pow10((FRACTION_DIGITS - fraction_part(body).len()) as nat),
                            pow10((FRACTION_DIGITS - fraction_part(body).len()) as nat) >= 1,
                    ;
                }
                return None;
            },
        }
    } else {
        whole
    };
    let factor: u64 = pow10_exec(FRACTION_DIGITS - fraction_len);
    assert(digits * factor <= i64::MAX * SCALE) by (nonlinear_arith)
        requires
            digits <= i64::MAX,
            factor <= SCALE,
    ;
    let units: u128 = (digits as u128) * (factor as u128);
    if units > 0x7fff_ffff_ffff_ffff {
        return None;
    }
    if negative {
        Some(-(units as i64))
    } else {
        Some(units as i64)
    }
}

/// The value of `text` in units, and zero where it has none.
pub fn parse_or_zero(text: &str) -> (u: i64)
    ensures
        u == units_or_zero(text@),
{
    match parse_decimal(text) {
        Some(u) => u,
        None => 0,
    }
}

} // verus!
