//! Unsigned integers written in decimal, as the store's JSON carries large
//! amounts and timestamps: reading follows the rules of std's `str::parse`
//! for unsigned types, writing gives the shortest form without sign.

use vstd::prelude::*;
use crate::text::{push_char, char_count, char_at};

verus! {

/// Why a text is not an unsigned number (the kinds of std's `ParseIntError`).
#[derive(Debug, Clone, Copy, PartialEq, Eq, Structural)]
pub enum DecError {
    /// The text is empty.
    Empty,
    /// A character is not a decimal digit (or the text is a lone sign).
    InvalidDigit,
    /// The number does not fit in the target type.
    PosOverflow,
}

pub open spec fn is_digit(c: char) -> bool {
    '0' <= c && c <= '9'
}

pub open spec fn digit_value(c: char) -> nat {
    (c as int - '0' as int) as nat
}

pub open spec fn digit_char(d: nat) -> char {
    if d == 0 { '0' } else if d == 1 { '1' } else if d == 2 { '2' } else if d == 3 { '3' }
    else if d == 4 { '4' } else if d == 5 { '5' } else if d == 6 { '6' } else if d == 7 { '7' }
    else if d == 8 { '8' } else { '9' }
}

/// Reads a run of digits from left to right, stopping at the first
/// character that is no digit or at the first step past `max`.
pub open spec fn read_digits(d: Seq<char>, max: nat) -> Result<nat, DecError>
    decreases d.len(),
{
    if d.len() == 0 {
        Ok(0)
    } else {
        match read_digits(d.drop_last(), max) {
            Err(e) => Err(e),
            Ok(v) => if !is_digit(d.last()) {
                Err(DecError::InvalidDigit)
            } else if v * 10 + digit_value(d.last()) > max {
                Err(DecError::PosOverflow)
            } else {
                Ok(v * 10 + digit_value(d.last()))
            },
        }
    }
}

/// What parsing `s` as an unsigned integer whose largest value is `max` gives:
/// an optional leading `+`, then digits.
pub open spec fn parse_unsigned(s: Seq<char>, max: nat) -> Result<nat, DecError> {
    if s.len() == 0 {
        Err(DecError::Empty)
    } else if s.len() == 1 && (s[0] == '+' || s[0] == '-') {
        Err(DecError::InvalidDigit)
    } else if s[0] == '+' {
        read_digits(s.drop_first(), max)
    } else {
        read_digits(s, max)
    }
}

/// The decimal digits of `n`, most significant first, without leading zeros.
pub open spec fn dec_digits(n: nat) -> Seq<char>
    decreases n,
{
    if n < 10 {
        seq![digit_char(n)]
    } else {
        dec_digits(n / 10).push(digit_char(n % 10))
    }
}

fn digit_to_char(d: u8) -> (c: char)
    requires
        d < 10,
    ensures
        c == digit_char(d as nat),
        is_digit(c),
        digit_value(c) == d,
{
    if d == 0 { '0' } else if d == 1 { '1' } else if d == 2 { '2' } else if d == 3 { '3' }
    else if d == 4 { '4' } else if d == 5 { '5' } else if d == 6 { '6' } else if d == 7 { '7' }
    else if d == 8 { '8' } else { '9' }
}

fn char_to_digit(c: char) -> (r: Option<u8>)
    ensures
        r is Some <==> is_digit(c),
        r matches Some(d) ==> d as nat == digit_value(c) && d < 10,
{
    if '0' <= c && c <= '9' {
        Some(((c as u32) - 48) as u8)
    } else {
        None
    }
}

fn push_dec(out: &mut String, n: u128)
    ensures
        final(out)@ == old(out)@ + dec_digits(n as nat),
    decreases n,
{
    if n >= 10 {
        push_dec(out, n / 10);
    }
    let d = (n % 10) as u8;
    push_char(out, digit_to_char(d));
    assert(final(out)@ =~= old(out)@ + dec_digits(n as nat));
}

/// Writes `n` in decimal.
pub fn u128_to_dec(n: u128) -> (s: String)
    ensures
        s@ == dec_digits(n as nat),
{
    let mut s = String::new();
    push_dec(&mut s, n);
    assert(s@ =~= dec_digits(n as nat));
    s
}

/// Writes `n` in decimal.
pub fn u64_to_dec(n: u64) -> (s: String)
    ensures
        s@ == dec_digits(n as nat),
{
    u128_to_dec(n as u128)
}

/// Reads `s` as an unsigned number no larger than `max`, as std's
/// `from_str` does for an unsigned type whose largest value is `max`.
fn parse_bounded(s: &str, max: u128) -> (r: Result<u128, DecError>)
    ensures
        match r {
            Ok(v) => parse_unsigned(s@, max as nat) == Ok::<nat, DecError>(v as nat) && v <= max,
            Err(e) => parse_unsigned(s@, max as nat) == Err::<nat, DecError>(e),
        },
{
    let n = char_count(s);
    if n == 0 {
        return Err(DecError::Empty);
    }
    let first = char_at(s, 0);
    if n == 1 && (first == '+' || first == '-') {
        return Err(DecError::InvalidDigit);
    }
    let start: usize = if first == '+' { 1 } else { 0 };
    let ghost digits = if first == '+' { s@.drop_first() } else { s@ };
    assert(digits =~= s@.subrange(start as int, n as int));
    assert(parse_unsigned(s@, max as nat) == read_digits(digits, max as nat));
    let mut acc: u128 = 0;
    let mut i: usize = start;
    assert(s@.subrange(start as int, start as int) =~= Seq::<char>::empty());
    while i < n
        invariant
            n == s@.len(),
            start <= i <= n,
            start <= 1,
            digits =~= s@.subrange(start as int, n as int),
            parse_unsigned(s@, max as nat) == read_digits(digits, max as nat),
            read_digits(s@.subrange(start as int, i as int), max as nat) == Ok::<nat, DecError>(acc as nat),
            acc <= max,
        decreases n - i,
    {
        let c = char_at(s, i);
        let ghost pre = s@.subrange(start as int, i as int);
        assert(s@.subrange(start as int, i + 1).drop_last() =~= pre);
        assert(s@.subrange(start as int, i + 1).last() == c);
        match char_to_digit(c) {
            None => {
                assert(s@.subrange(start as int, i + 1) =~= digits.subrange(0, (i + 1 - start) as int));
                proof {
                    assert(read_digits(s@.subrange(start as int, i + 1), max as nat) == Err::<nat, DecError>(DecError::InvalidDigit));
                    lemma_read_digits_prefix_err(digits, (i + 1 - start) as nat, max as nat);
                    assert(read_digits(digits, max as nat) == Err::<nat, DecError>(DecError::InvalidDigit));
                }
                return Err(DecError::InvalidDigit);
            },
            Some(d) => {
                match acc.checked_mul(10) {
                    None => {
                        assert(s@.subrange(start as int, i + 1) =~= digits.subrange(0, (i + 1 - start) as int));
                        proof {
                            assert(read_digits(s@.subrange(start as int, i + 1), max as nat) == Err::<nat, DecError>(DecError::PosOverflow));
                            lemma_read_digits_prefix_err(digits, (i + 1 - start) as nat, max as nat);
                            assert(read_digits(digits, max as nat) == Err::<nat, DecError>(DecError::PosOverflow));
                        }
                        return Err(DecError::PosOverflow);
                    },
                    Some(m) => {
                        match m.checked_add(d as u128) {
                            None => {
                                assert(s@.subrange(start as int, i + 1) =~= digits.subrange(0, (i + 1 - start) as int));
                                proof {
                                    assert(read_digits(s@.subrange(start as int, i + 1), max as nat) == Err::<nat, DecError>(DecError::PosOverflow));
                                    lemma_read_digits_prefix_err(digits, (i + 1 - start) as nat, max as nat);
                                    assert(read_digits(digits, max as nat) == Err::<nat, DecError>(DecError::PosOverflow));
                                }
                                return Err(DecError::PosOverflow);
                            },
                            Some(v) => {
                                if v > max {
                                    assert(s@.subrange(start as int, i + 1) =~= digits.subrange(0, (i + 1 - start) as int));
                                    proof {
                                        assert(read_digits(s@.subrange(start as int, i + 1), max as nat) == Err::<nat, DecError>(DecError::PosOverflow));
                                        lemma_read_digits_prefix_err(digits, (i + 1 - start) as nat, max as nat);
                                    }
                                    return Err(DecError::PosOverflow);
                                }
                                acc = v;
                            },
                        }
                    },
                }
            },
        }
        i = i + 1;
    }
    assert(s@.subrange(start as int, n as int) =~= digits);
    Ok(acc)
}

/// Reads `s` as a `u128` (std's `u128::from_str`).
pub fn parse_u128(s: &str) -> (r: Result<u128, DecError>)
    ensures
        match r {
            Ok(v) => parse_unsigned(s@, u128::MAX as nat) == Ok::<nat, DecError>(v as nat),
            Err(e) => parse_unsigned(s@, u128::MAX as nat) == Err::<nat, DecError>(e),
        },
{
    parse_bounded(s, u128::MAX)
}

/// Reads `s` as a `u64` (std's `u64::from_str`).
pub fn parse_u64(s: &str) -> (r: Result<u64, DecError>)
    ensures
        match r {
            Ok(v) => parse_unsigned(s@, u64::MAX as nat) == Ok::<nat, DecError>(v as nat),
            Err(e) => parse_unsigned(s@, u64::MAX as nat) == Err::<nat, DecError>(e),
        },
{
    match parse_bounded(s, u64::MAX as u128) {
        Ok(v) => Ok(v as u64),
        Err(e) => Err(e),
    }
}

/// Once reading a prefix of `d` fails, reading all of `d` fails the same way.
proof fn lemma_read_digits_prefix_err(d: Seq<char>, k: nat, max: nat)
    requires
        k <= d.len(),
        read_digits(d.subrange(0, k as int), max) is Err,
    ensures
        read_digits(d, max) == read_digits(d.subrange(0, k as int), max),
    decreases d.len() - k,
{
    if k < d.len() {
        assert(d.subrange(0, (k + 1) as int).drop_last() =~= d.subrange(0, k as int));
        lemma_read_digits_prefix_err(d, k + 1, max);
    } else {
        assert(d.subrange(0, k as int) =~= d);
    }
}

proof fn lemma_dec_digits_shape(n: nat)
    ensures
        dec_digits(n).len() >= 1,
        forall|i: int| 0 <= i < dec_digits(n).len() ==> is_digit(#[trigger] dec_digits(n)[i]),
    decreases n,
{
    if n >= 10 {
        lemma_dec_digits_shape(n / 10);
    }
}

proof fn lemma_read_dec_digits(n: nat, max: nat)
    requires
        n <= max,
    ensures
        read_digits(dec_digits(n), max) == Ok::<nat, DecError>(n),
    decreases n,
{
    if n < 10 {
        assert(digit_value(digit_char(n)) == n);
        assert(dec_digits(n).drop_last() =~= Seq::<char>::empty());
        assert(read_digits(Seq::<char>::empty(), max) == Ok::<nat, DecError>(0));
    } else {
        lemma_read_dec_digits(n / 10, max);
        assert(dec_digits(n).drop_last() =~= dec_digits(n / 10));
    }
}

/// Reading back what was written gives the number again: for every `n`
/// that fits the target type, parsing `dec_digits(n)` succeeds with `n`.
pub proof fn law_dec_round_trip(n: nat, max: nat)
    requires
        n <= max,
    ensures
        parse_unsigned(dec_digits(n), max) == Ok::<nat, DecError>(n),
{
    lemma_dec_digits_shape(n);
    lemma_read_dec_digits(n, max);
    assert(is_digit(dec_digits(n)[0]));
}

} // verus!
