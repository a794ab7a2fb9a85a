//! Decimal integers: rendering them, and reading them the way the
//! integer `FromStr` impls do (optional sign, ASCII digits, no overflow).
use vstd::prelude::*;

verus! {

/// The character of decimal digit `d`.
pub open spec fn digit_char(d: int) -> char {
    (48 + d) as char
}

/// Whether `c` is an ASCII decimal digit.
pub open spec fn is_digit(c: char) -> bool {
    48 <= (c as u32) <= 57
}

/// The value of digit character `c`.
pub open spec fn digit_value(c: char) -> int {
    (c as u32) - 48
}

/// Decimal rendering of `n`, without leading zeros.
pub open spec fn decimal(n: nat) -> Seq<char>
    decreases n,
{
    if n < 10 {
        seq![digit_char(n as int)]
    } else {
        decimal(n / 10).push(digit_char((n % 10) as int))
    }
}

/// Decimal rendering of a signed integer.
pub open spec fn signed_decimal(n: int) -> Seq<char> {
    if n < 0 {
        seq!['-'] + decimal((-n) as nat)
    } else {
        decimal(n as nat)
    }
}

fn digit(d: u64) -> (c: char)
    requires
        d < 10,
    ensures
        c == digit_char(d as int),
{
    let b: u8 = 48u8 + (d as u8);
    b as char
}

/// Decimal digits of `n`.
pub fn u64_chars(n: u64) -> (r: Vec<char>)
    ensures
        r@ == decimal(n as nat),
    decreases n,
{
    if n < 10 {
        let mut v: Vec<char> = Vec::new();
        v.push(digit(n));
        assert(v@ =~= decimal(n as nat));
        v
    } else {
        let mut v = u64_chars(n / 10);
        v.push(digit(n % 10));
        v
    }
}

/// Decimal digits of `n`, with a leading `-` when negative.
pub fn i64_chars(n: i64) -> (r: Vec<char>)
    ensures
        r@ == signed_decimal(n as int),
{
    if n < 0 {
        let m: u64 = ((-(n + 1)) as u64) + 1;
        let digits = u64_chars(m);
        let mut v: Vec<char> = Vec::new();
        v.push('-');
        crate::text::append_chars(&mut v, &digits);
        assert(v@ =~= signed_decimal(n as int));
        v
    } else {
        u64_chars(n as u64)
    }
}

/// Whether every character of `s` is a digit.
pub open spec fn all_digits(s: Seq<char>) -> bool {
    forall|i: int| 0 <= i < s.len() ==> is_digit(#[trigger] s[i])
}

/// The number written by the digit string `s` (0 when empty).
pub open spec fn digits_value(s: Seq<char>) -> nat
    decreases s.len(),
{
    if s.len() == 0 {
        0
    } else {
        (digits_value(s.drop_last()) * 10 + digit_value(s.last())) as nat
    }
}

proof fn lemma_digits_value_grows(s: Seq<char>, i: int)
    requires
        0 <= i <= s.len(),
        all_digits(s),
    ensures
        digits_value(s.take(i)) <= digits_value(s),
    decreases s.len() - i,
{
    if i < s.len() {
        lemma_digits_value_grows(s, i + 1);
        assert(s.take(i + 1).drop_last() =~= s.take(i));
    } else {
        assert(s.take(i) =~= s);
    }
}

/// The value of the digit string `s`, when it is non-empty, all digits, and
/// at most `limit`.
pub open spec fn bounded_digits(s: Seq<char>, limit: nat) -> Option<nat> {
    if s.len() > 0 && all_digits(s) && digits_value(s) <= limit {
        Some(digits_value(s))
    } else {
        None
    }
}

/// Reads the digits `s[from..]`; `None` unless they are non-empty, all
/// digits, and their value is at most `limit`.
fn read_digits(s: &Vec<char>, from: usize, limit: u64) -> (r: Option<u64>)
    requires
        from <= s@.len(),
    ensures
        r == (match bounded_digits(s@.subrange(from as int, s@.len() as int), limit as nat) {
            Some(v) => Some(v as u64),
            None => None::<u64>,
        }),
{
    let ghost t = s@.subrange(from as int, s@.len() as int);
    let n: usize = s.len();
    if from == n {
        return None;
    }
    let mut acc: u128 = 0;
    let mut i: usize = from;
    while i < n
        invariant
            from <= i <= n == s@.len(),
            t == s@.subrange(from as int, n as int),
            all_digits(t.take(i - from)),
            acc == digits_value(t.take(i - from)),
            acc <= limit,
        decreases n - i,
    {
        let c = s[i];
        let u: u32 = c as u32;
        if u < 48 || u > 57 {
            assert(t[i - from] == c);
            assert(!all_digits(t));
            return None;
        }
        let d: u128 = (u - 48) as u128;
        proof {
            assert(t.take(i - from + 1).drop_last() =~= t.take(i - from));
            assert(t.take(i - from + 1).last() == c);
        }
        let next: u128 = acc * 10 + d;
        assert(next == digits_value(t.take(i - from + 1)));
        if next > limit as u128 {
            proof {
                assert(all_digits(t.take(i - from + 1)));
                if all_digits(t) {
                    lemma_digits_value_grows(t, i - from + 1);
                }
            }
            return None;
        }
        acc = next;
        i = i + 1;
    }
    assert(t.take(n - from) =~= t);
    Some(acc as u64)
}

/// What `s.parse::<u64>()` (or another unsigned type bounded by `limit`)
/// gives: an optional `+`, then at least one digit, value at most `limit`.
pub open spec fn parse_unsigned(s: Seq<char>, limit: nat) -> Option<nat> {
    if s.len() > 0 && s[0] == '+' {
        bounded_digits(s.drop_first(), limit)
    } else {
        bounded_digits(s, limit)
    }
}

/// What `s.parse::<i64>()` (or another signed type with maximum `max`) gives:
/// an optional sign, then at least one digit, the value in `-max-1..=max`.
pub open spec fn parse_signed(s: Seq<char>, max: nat) -> Option<int> {
    if s.len() > 0 && s[0] == '-' {
        match bounded_digits(s.drop_first(), max + 1) {
            Some(v) => Some(-v),
            None => None,
        }
    } else {
        match parse_unsigned(s, max) {
            Some(v) => Some(v as int),
            None => None,
        }
    }
}

fn parse_unsigned_chars(s: &Vec<char>, limit: u64) -> (r: Option<u64>)
    ensures
        r == (match parse_unsigned(s@, limit as nat) {
            Some(v) => Some(v as u64),
            None => None::<u64>,
        }),
{
    if s.len() > 0 && s[0] == '+' {
        assert(s@.subrange(1, s@.len() as int) =~= s@.drop_first());
        read_digits(s, 1, limit)
    } else {
        assert(s@.subrange(0, s@.len() as int) =~= s@);
        read_digits(s, 0, limit)
    }
}

/// `s.parse::<u64>().ok()`.
pub fn parse_u64(s: &str) -> (r: Option<u64>)
    ensures
        r == (match parse_unsigned(s@, u64::MAX as nat) {
            Some(v) => Some(v as u64),
            None => None::<u64>,
        }),
{
    let v = crate::text::chars_of(s);
    parse_unsigned_chars(&v, u64::MAX)
}

/// `s.parse::<usize>().ok()`.
pub fn parse_usize(s: &str) -> (r: Option<usize>)
    ensures
        r == (match parse_unsigned(s@, usize::MAX as nat) {
            Some(v) => Some(v as usize),
            None => None::<usize>,
        }),
{
    let v = crate::text::chars_of(s);
    match parse_unsigned_chars(&v, usize::MAX as u64) {
        Some(x) => Some(x as usize),
        None => None,
    }
}

fn parse_signed_chars(s: &Vec<char>, max: u64) -> (r: Option<i128>)
    requires
        max < u64::MAX,
    ensures
        r == (match parse_signed(s@, max as nat) {
            Some(v) => Some(v as i128),
            None => None::<i128>,
        }),
{
    if s.len() > 0 && s[0] == '-' {
        assert(s@.subrange(1, s@.len() as int) =~= s@.drop_first());
        match read_digits(s, 1, max + 1) {
            Some(v) => Some(-(v as i128)),
            None => None,
        }
    } else {
        match parse_unsigned_chars(s, max) {
            Some(v) => Some(v as i128),
            None => None,
        }
    }
}

/// `s.parse::<i64>().ok()`.
pub fn parse_i64(s: &str) -> (r: Option<i64>)
    ensures
        r == (match parse_signed(s@, i64::MAX as nat) {
            Some(v) => Some(v as i64),
            None => None::<i64>,
        }),
{
    let v = crate::text::chars_of(s);
    match parse_signed_chars(&v, i64::MAX as u64) {
        Some(x) => Some(x as i64),
        None => None,
    }
}

/// `s.parse::<i32>().ok()`.
pub fn parse_i32(s: &str) -> (r: Option<i32>)
    ensures
        r == (match parse_signed(s@, i32::MAX as nat) {
            Some(v) => Some(v as i32),
            None => None::<i32>,
        }),
{
    let v = crate::text::chars_of(s);
    match parse_signed_chars(&v, i32::MAX as u64) {
        Some(x) => Some(x as i32),
        None => None,
    }
}


/// The decimal rendering of `m` is a non-empty digit string worth `m`.
pub proof fn lemma_decimal_digits(m: nat)
    ensures
        decimal(m).len() > 0,
        all_digits(decimal(m)),
        digits_value(decimal(m)) == m,
    decreases m,
{
    let d = (m % 10) as int;
    assert(digit_value(digit_char(d)) == d);
    if m >= 10 {
        lemma_decimal_digits(m / 10);
        let s = decimal(m);
        assert(s.last() == digit_char(d));
        assert(digits_value(s) == digits_value(s.drop_last()) * 10 + digit_value(s.last()));
        assert(s.drop_last() =~= decimal(m / 10));
        assert forall|i: int| 0 <= i < s.len() implies is_digit(#[trigger] s[i]) by {
            if i < s.len() - 1 {
                assert(s[i] == decimal(m / 10)[i]);
            }
        }
        assert(digits_value(decimal(m / 10)) == m / 10);
        assert((m / 10) * 10 + d == m);
    } else {
        assert(decimal(m).drop_last() =~= Seq::<char>::empty());
        assert(digits_value(decimal(m).drop_last()) == 0);
        assert(decimal(m).last() == digit_char(d));
    }
}

/// Reading back a rendered `i64` gives the same number.
pub proof fn lemma_parse_signed_decimal(n: i64)
    ensures
        parse_signed(signed_decimal(n as int), i64::MAX as nat) == Some(n as int),
{
    if n < 0 {
        let m = (-(n as int)) as nat;
        lemma_decimal_digits(m);
        let s = signed_decimal(n as int);
        assert(s.drop_first() =~= decimal(m));
    } else {
        lemma_decimal_digits(n as nat);
        let s = decimal(n as nat);
        assert(is_digit(s[0]));
    }
}
/// A number written in decimal reads back as itself.
pub proof fn lemma_parse_unsigned_decimal(n: nat, limit: nat)
    requires
        n <= limit,
    ensures
        parse_unsigned(decimal(n), limit) == Some(n),
{
    lemma_decimal_digits(n);
    assert(is_digit(decimal(n)[0]));
}
} // verus!
