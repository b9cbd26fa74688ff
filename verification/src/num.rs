//! Decimal integers: parsing as `str::parse` does for the integer types, and
//! writing as their `Display` does.

use vstd::prelude::*;
use crate::text::{to_chars, push_char};

verus! {

/// Why a string is not an integer of the requested type.
#[derive(PartialEq, Eq, Structural, Clone, Copy, Debug)]
pub enum IntErrorKind {
    /// The string is empty.
    Empty,
    /// A character is not a digit (a lone sign counts as one).
    InvalidDigit,
    /// The value is above the type's maximum.
    PosOverflow,
    /// The value is below the type's minimum.
    NegOverflow,
}

pub open spec fn is_digit(c: char) -> bool {
    '0' <= c && c <= '9'
}

pub open spec fn digit_value(c: char) -> int {
    (c as int) - ('0' as int)
}

/// Reads the digits `d` left to right onto `acc`, failing at the first
/// non-digit or the first step that leaves `lo..=hi`.
pub open spec fn scan_digits(d: Seq<char>, acc: int, neg: bool, lo: int, hi: int) -> Result<int, IntErrorKind>
    decreases d.len(),
{
    if d.len() == 0 {
        Ok(acc)
    } else if !is_digit(d[0]) {
        Err(IntErrorKind::InvalidDigit)
    } else {
        let next = if neg {
            acc * 10 - digit_value(d[0])
        } else {
            acc * 10 + digit_value(d[0])
        };
        if next > hi {
            Err(IntErrorKind::PosOverflow)
        } else if next < lo {
            Err(IntErrorKind::NegOverflow)
        } else {
            scan_digits(d.drop_first(), next, neg, lo, hi)
        }
    }
}

/// What `s.parse()` gives for an integer type with range `lo..=hi`: an optional
/// `+` (or `-` where the type is signed) followed by decimal digits.
pub open spec fn parse_int_spec(s: Seq<char>, signed: bool, lo: int, hi: int) -> Result<int, IntErrorKind> {
    if s.len() == 0 {
        Err(IntErrorKind::Empty)
    } else if s.len() == 1 && (s[0] == '+' || s[0] == '-') {
        Err(IntErrorKind::InvalidDigit)
    } else if s[0] == '+' {
        scan_digits(s.drop_first(), 0, false, lo, hi)
    } else if s[0] == '-' && signed {
        scan_digits(s.drop_first(), 0, true, lo, hi)
    } else {
        scan_digits(s, 0, false, lo, hi)
    }
}

pub open spec fn parse_usize_spec(s: Seq<char>) -> Result<int, IntErrorKind> {
    parse_int_spec(s, false, 0, usize::MAX as int)
}

pub open spec fn parse_u64_spec(s: Seq<char>) -> Result<int, IntErrorKind> {
    parse_int_spec(s, false, 0, u64::MAX as int)
}

pub open spec fn parse_i64_spec(s: Seq<char>) -> Result<int, IntErrorKind> {
    parse_int_spec(s, true, i64::MIN as int, i64::MAX as int)
}

pub open spec fn parse_i32_spec(s: Seq<char>) -> Result<int, IntErrorKind> {
    parse_int_spec(s, true, i32::MIN as int, i32::MAX as int)
}

proof fn lemma_scan_in_range(d: Seq<char>, acc: int, neg: bool, lo: int, hi: int)
    requires
        lo <= acc <= hi,
    ensures
        scan_digits(d, acc, neg, lo, hi) matches Ok(v) ==> lo <= v <= hi,
    decreases d.len(),
{
    if d.len() > 0 && is_digit(d[0]) {
        let next = if neg {
            acc * 10 - digit_value(d[0])
        } else {
            acc * 10 + digit_value(d[0])
        };
        if lo <= next <= hi {
            lemma_scan_in_range(d.drop_first(), next, neg, lo, hi);
        }
    }
}

/// Parses `chars[start..]` as digits onto 0 (negated when `neg`).
fn scan_exec(chars: &Vec<char>, start: usize, neg: bool, lo: i128, hi: i128) -> (r: Result<i128, IntErrorKind>)
    requires
        start <= chars.len(),
        i64::MIN <= lo <= 0,
        0 <= hi <= u64::MAX,
    ensures
        match scan_digits(chars@.skip(start as int), 0, neg, lo as int, hi as int) {
            Ok(v) => r == Ok::<i128, IntErrorKind>(v as i128),
            Err(e) => r == Err::<i128, IntErrorKind>(e),
        },
{
    let mut acc: i128 = 0;
    let mut i: usize = start;
    while i < chars.len()
        invariant
            start <= i <= chars.len(),
            i64::MIN <= lo <= 0,
            0 <= hi <= u64::MAX,
            lo <= acc <= hi,
            scan_digits(chars@.skip(start as int), 0, neg, lo as int, hi as int) == scan_digits(
                chars@.skip(i as int),
                acc as int,
                neg,
                lo as int,
                hi as int,
            ),
        decreases chars.len() - i,
    {
        let c = chars[i];
        let ghost rest = chars@.skip(i as int);
        assert(rest[0] == c);
        assert(rest.drop_first() =~= chars@.skip(i + 1));
        if !('0' <= c && c <= '9') {
            return Err(IntErrorKind::InvalidDigit);
        }
        let d: i128 = (c as u32 - '0' as u32) as i128;
        assert(d as int == digit_value(c));
        let next: i128 = if neg {
            acc * 10 - d
        } else {
            acc * 10 + d
        };
        if next > hi {
            return Err(IntErrorKind::PosOverflow);
        }
        if next < lo {
            return Err(IntErrorKind::NegOverflow);
        }
        acc = next;
        i += 1;
    }
    assert(chars@.skip(i as int).len() == 0);
    Ok(acc)
}

/// Parses `s` as an integer in `lo..=hi`, signed or not, as `str::parse` does.
pub fn parse_int(s: &str, signed: bool, lo: i128, hi: i128) -> (r: Result<i128, IntErrorKind>)
    requires
        i64::MIN <= lo <= 0,
        0 <= hi <= u64::MAX,
    ensures
        match parse_int_spec(s@, signed, lo as int, hi as int) {
            Ok(v) => r == Ok::<i128, IntErrorKind>(v as i128),
            Err(e) => r == Err::<i128, IntErrorKind>(e),
        },
        r matches Ok(v) ==> lo <= v <= hi,
        parse_int_spec(s@, signed, lo as int, hi as int) matches Ok(v) ==> lo <= v <= hi,
{
    let chars = to_chars(s);
    proof {
        lemma_scan_in_range(s@.drop_first(), 0, false, lo as int, hi as int);
        lemma_scan_in_range(s@.drop_first(), 0, true, lo as int, hi as int);
        lemma_scan_in_range(s@, 0, false, lo as int, hi as int);
    }
    if chars.len() == 0 {
        return Err(IntErrorKind::Empty);
    }
    let first = chars[0];
    if chars.len() == 1 && (first == '+' || first == '-') {
        return Err(IntErrorKind::InvalidDigit);
    }
    assert(chars@.skip(1) =~= s@.drop_first());
    assert(chars@.skip(0) =~= s@);
    if first == '+' {
        scan_exec(&chars, 1, false, lo, hi)
    } else if first == '-' && signed {
        scan_exec(&chars, 1, true, lo, hi)
    } else {
        scan_exec(&chars, 0, false, lo, hi)
    }
}

/// `s.parse::<usize>()`.
pub fn parse_usize(s: &str) -> (r: Result<usize, IntErrorKind>)
    ensures
        match parse_usize_spec(s@) {
            Ok(v) => r == Ok::<usize, IntErrorKind>(v as usize),
            Err(e) => r == Err::<usize, IntErrorKind>(e),
        },
        parse_usize_spec(s@) matches Ok(v) ==> usize::MIN <= v <= usize::MAX,
{
    match parse_int(s, false, 0, usize::MAX as i128) {
        Ok(v) => Ok(v as usize),
        Err(e) => Err(e),
    }
}

/// `s.parse::<u64>()`.
pub fn parse_u64(s: &str) -> (r: Result<u64, IntErrorKind>)
    ensures
        match parse_u64_spec(s@) {
            Ok(v) => r == Ok::<u64, IntErrorKind>(v as u64),
            Err(e) => r == Err::<u64, IntErrorKind>(e),
        },
        parse_u64_spec(s@) matches Ok(v) ==> u64::MIN <= v <= u64::MAX,
{
    match parse_int(s, false, 0, u64::MAX as i128) {
        Ok(v) => Ok(v as u64),
        Err(e) => Err(e),
    }
}

/// `s.parse::<i64>()`.
pub fn parse_i64(s: &str) -> (r: Result<i64, IntErrorKind>)
    ensures
        match parse_i64_spec(s@) {
            Ok(v) => r == Ok::<i64, IntErrorKind>(v as i64),
            Err(e) => r == Err::<i64, IntErrorKind>(e),
        },
        parse_i64_spec(s@) matches Ok(v) ==> i64::MIN <= v <= i64::MAX,
{
    match parse_int(s, true, i64::MIN as i128, i64::MAX as i128) {
        Ok(v) => Ok(v as i64),
        Err(e) => Err(e),
    }
}

/// `s.parse::<i32>()`.
pub fn parse_i32(s: &str) -> (r: Result<i32, IntErrorKind>)
    ensures
        match parse_i32_spec(s@) {
            Ok(v) => r == Ok::<i32, IntErrorKind>(v as i32),
            Err(e) => r == Err::<i32, IntErrorKind>(e),
        },
        parse_i32_spec(s@) matches Ok(v) ==> i32::MIN <= v <= i32::MAX,
{
    match parse_int(s, true, i32::MIN as i128, i32::MAX as i128) {
        Ok(v) => Ok(v as i32),
        Err(e) => Err(e),
    }
}

/// The character of a decimal digit.
pub open spec fn digit_char(d: int) -> char {
    (('0' as int) + d) as char
}

/// The decimal digits of `n`, most significant first, as `Display` writes them.
pub open spec fn decimal(n: nat) -> Seq<char>
    decreases n,
{
    if n < 10 {
        seq![digit_char(n as int)]
    } else {
        decimal(n / 10).push(digit_char((n % 10) as int))
    }
}

/// How `Display` writes a signed integer.
pub open spec fn signed_decimal(i: int) -> Seq<char> {
    if i < 0 {
        seq!['-'] + decimal((-i) as nat)
    } else {
        decimal(i as nat)
    }
}

/// The digit characters are digits with the expected values.
pub proof fn lemma_digit_char(d: int)
    requires
        0 <= d < 10,
    ensures
        is_digit(digit_char(d)),
        digit_value(digit_char(d)) == d,
{
}

/// Reading `s.push(c)` is reading `s`, then one more digit step.
pub proof fn lemma_scan_push(s: Seq<char>, c: char, acc: int, neg: bool, lo: int, hi: int)
    ensures
        scan_digits(s.push(c), acc, neg, lo, hi) == match scan_digits(s, acc, neg, lo, hi) {
            Ok(v) => scan_digits(seq![c], v, neg, lo, hi),
            Err(e) => Err(e),
        },
    decreases s.len(),
{
    if s.len() > 0 {
        assert(s.push(c).drop_first() =~= s.drop_first().push(c));
        assert(s.push(c)[0] == s[0]);
        if is_digit(s[0]) {
            let next = if neg {
                acc * 10 - digit_value(s[0])
            } else {
                acc * 10 + digit_value(s[0])
            };
            lemma_scan_push(s.drop_first(), c, next, neg, lo, hi);
        }
    } else {
        assert(s.push(c) =~= seq![c]);
    }
}

/// The digits of `n` read back (negated when `neg`) give `n` (or `-n`)
/// whenever that value lies in `lo..=hi`, with `lo <= 0 <= hi`.
pub proof fn lemma_decimal_scan(n: nat, neg: bool, lo: int, hi: int)
    requires
        lo <= 0 <= hi,
        neg ==> lo <= -n,
        !neg ==> n <= hi,
    ensures
        scan_digits(decimal(n), 0, neg, lo, hi) == Ok::<int, IntErrorKind>(if neg { -n } else { n as int }),
        decimal(n).len() > 0,
        is_digit(decimal(n)[0]),
        is_digit(decimal(n).last()),
    decreases n,
{
    if n < 10 {
        lemma_digit_char(n as int);
        let d = seq![digit_char(n as int)];
        assert(d.drop_first() =~= Seq::<char>::empty());
        let v: int = if neg { -n } else { n as int };
        assert(scan_digits(d.drop_first(), v, neg, lo, hi) == Ok::<int, IntErrorKind>(v));
    } else {
        let m = n / 10;
        lemma_decimal_scan(m, neg, lo, hi);
        let c = digit_char((n % 10) as int);
        lemma_digit_char((n % 10) as int);
        lemma_scan_push(decimal(m), c, 0, neg, lo, hi);
        assert(seq![c].drop_first() =~= Seq::<char>::empty());
        assert(m * 10 + (n % 10) == n);
        let v: int = if neg { -n } else { n as int };
        let w: int = if neg { -m } else { m as int };
        assert(scan_digits(seq![c].drop_first(), v, neg, lo, hi) == Ok::<int, IntErrorKind>(v));
        assert(scan_digits(seq![c], w, neg, lo, hi) == Ok::<int, IntErrorKind>(v));
    }
}

/// `n.to_string()` for an unsigned integer.
pub fn u64_to_string(n: u64) -> (s: String)
    ensures
        s@ == decimal(n as nat),
{
    let mut digits: Vec<char> = Vec::new();
    let mut m: u64 = n;
    // digits holds the decimal digits of n below those of m, least significant first
    while m >= 10
        invariant
            m <= n,
            decimal(n as nat) == decimal(m as nat) + digits@.reverse(),
        decreases m,
    {
        let c = char_of_digit(m % 10);
        proof {
            let rev_old = digits@.reverse();
            assert(decimal(m as nat) == decimal((m / 10) as nat).push(c));
            assert(digits@.push(c).reverse() =~= seq![c] + rev_old);
            assert(decimal(m as nat) + rev_old =~= decimal((m / 10) as nat) + (seq![c] + rev_old));
        }
        digits.push(c);
        m = m / 10;
    }
    let c = char_of_digit(m);
    proof {
        let rev_old = digits@.reverse();
        assert(decimal(m as nat) == seq![c]);
        assert(digits@.push(c).reverse() =~= seq![c] + rev_old);
    }
    digits.push(c);
    let mut s = String::new();
    let mut i: usize = digits.len();
    proof {
        assert(decimal(n as nat) =~= digits@.reverse());
    }
    while i > 0
        invariant
            i <= digits.len(),
            s@ == digits@.reverse().take((digits.len() - i) as int),
            decimal(n as nat) == digits@.reverse(),
        decreases i,
    {
        i -= 1;
        proof {
            let r = digits@.reverse();
            assert(r[(digits.len() - i - 1) as int] == digits@[i as int]);
            assert(r.take((digits.len() - i) as int) =~= r.take((digits.len() - i - 1) as int).push(
                digits@[i as int],
            ));
        }
        push_char(&mut s, digits[i]);
    }
    assert(digits@.reverse().take(digits.len() as int) =~= digits@.reverse());
    s
}

fn char_of_digit(d: u64) -> (c: char)
    requires
        d < 10,
    ensures
        c == digit_char(d as int),
{
    if d == 0 { '0' }
    else if d == 1 { '1' }
    else if d == 2 { '2' }
    else if d == 3 { '3' }
    else if d == 4 { '4' }
    else if d == 5 { '5' }
    else if d == 6 { '6' }
    else if d == 7 { '7' }
    else if d == 8 { '8' }
    else { '9' }
}

/// `n.to_string()` for a `usize`.
pub fn usize_to_string(n: usize) -> (s: String)
    ensures
        s@ == decimal(n as nat),
{
    u64_to_string(n as u64)
}

/// `i.to_string()` for a signed integer.
pub fn i64_to_string(i: i64) -> (s: String)
    ensures
        s@ == signed_decimal(i as int),
{
    if i < 0 {
        let mag: u64 = if i == i64::MIN {
            9223372036854775808u64
        } else {
            (-i) as u64
        };
        let mut s = String::new();
        push_char(&mut s, '-');
        let d = u64_to_string(mag);
        s.append(d.as_str());
        assert(s@ =~= seq!['-'] + decimal((-(i as int)) as nat));
        s
    } else {
        u64_to_string(i as u64)
    }
}

} // verus!
