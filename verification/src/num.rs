//! Decimal digit strings.
//!
//! Directory names in the store (years, months, days) and the numeric part of
//! log file names are decimal digit strings. This module defines their
//! mathematical value, a verified parser and a verified formatter.

use vstd::prelude::*;

verus! {

/// True when `c` is an ASCII decimal digit.
pub open spec fn is_digit(c: char) -> bool {
    '0' <= c && c <= '9'
}

/// True when `s` is made of ASCII decimal digits only.
pub open spec fn all_digits(s: Seq<char>) -> bool {
    forall|i: int| 0 <= i < s.len() ==> is_digit(#[trigger] s[i])
}

/// Numeric value of one digit.
pub open spec fn digit_value(c: char) -> nat
    recommends
        is_digit(c),
{
    (c as nat - '0' as nat) as nat
}

/// Numeric value of a digit string, most significant digit first.
pub open spec fn digits_value(s: Seq<char>) -> nat
    recommends
        all_digits(s),
    decreases s.len(),
{
    if s.len() == 0 {
        0
    } else {
        digits_value(s.drop_last()) * 10 + digit_value(s.last())
    }
}

/// A digit string's value is below ten to the power of its length, so one
/// of at most [`MAX_NUMERIC_LEN`] digits fits in a `u64`.
pub proof fn lemma_digits_value_bound(s: Seq<char>)
    requires
        all_digits(s),
    ensures
        digits_value(s) < pow10(s.len() as nat),
    decreases s.len(),
{
    if s.len() > 0 {
        assert(all_digits(s.drop_last()));
        lemma_digits_value_bound(s.drop_last());
        assert(digit_value(s.last()) <= 9);
    }
}

/// `10^n`.
pub open spec fn pow10(n: nat) -> nat
    decreases n,
{
    if n == 0 {
        1
    } else {
        10 * pow10((n - 1) as nat)
    }
}

/// The numeric component of a date or file name: at most this many digits.
pub const MAX_NUMERIC_LEN: usize = 19;

/// Parses a digit string of at most [`MAX_NUMERIC_LEN`] digits into its value.
///
/// Returns `None` exactly when `s` is empty, holds a non-digit character, or
/// is longer than [`MAX_NUMERIC_LEN`].
pub fn parse_numeric(s: &Vec<char>) -> (r: Option<u64>)
    ensures
        match r {
            Some(v) => s@.len() > 0 && s@.len() <= MAX_NUMERIC_LEN && all_digits(s@)
                && v == digits_value(s@),
            None => s@.len() == 0 || s@.len() > MAX_NUMERIC_LEN || !all_digits(s@),
        },
{
    if s.len() == 0 || s.len() > MAX_NUMERIC_LEN {
        return None;
    }
    let mut v: u64 = 0;
    let mut i: usize = 0;
    proof {
        assert(s@.subrange(0, 0) =~= Seq::<char>::empty());
    }
    while i < s.len()
        invariant
            0 <= i <= s@.len(),
            s@.len() <= MAX_NUMERIC_LEN,
            all_digits(s@.subrange(0, i as int)),
            v == digits_value(s@.subrange(0, i as int)),
            v < pow10(i as nat),
        decreases s@.len() - i,
    {
        let c = s[i];
        if c < '0' || c > '9' {
            return None;
        }
        proof {
            lemma_digits_value_bound(s@.subrange(0, i as int));
            assert(pow10(i as nat) <= pow10((MAX_NUMERIC_LEN - 1) as nat)) by {
                lemma_pow10_increases(i as nat, (MAX_NUMERIC_LEN - 1) as nat);
            }
            assert(pow10((MAX_NUMERIC_LEN - 1) as nat) == 1000000000000000000) by {
                reveal_with_fuel(pow10, 20);
            }
        }
        let d: u64 = ((c as u32) - ('0' as u32)) as u64;
        v = v * 10 + d;
        proof {
            assert(s@.subrange(0, i + 1).drop_last() =~= s@.subrange(0, i as int));
            assert(s@.subrange(0, i + 1).last() == c);
        }
        i = i + 1;
    }
    proof {
        assert(s@.subrange(0, s@.len() as int) =~= s@);
    }
    Some(v)
}

/// `10^a <= 10^b` when `a <= b`.
pub proof fn lemma_pow10_increases(a: nat, b: nat)
    requires
        a <= b,
    ensures
        pow10(a) <= pow10(b),
    decreases b,
{
    if a < b {
        lemma_pow10_increases(a, (b - 1) as nat);
        assert(pow10(b) == 10 * pow10((b - 1) as nat));
    }
}

/// The decimal digit string of `n`, most significant digit first, with no
/// leading zero (`0` reads as `"0"`).
pub open spec fn dec_digits(n: nat) -> Seq<char>
    decreases n,
{
    if n < 10 {
        seq![spec_digit_char(n)]
    } else {
        dec_digits(n / 10).push(spec_digit_char(n % 10))
    }
}

/// The digit character of a value below ten.
pub open spec fn spec_digit_char(d: nat) -> char {
    (('0' as u8) + d) as char
}

/// Formats `n` as its decimal digit string, most significant digit first,
/// with no leading zero (`0` formats as `"0"`).
pub fn format_numeric(n: usize) -> (r: Vec<char>)
    ensures
        r@ == dec_digits(n as nat),
        all_digits(r@),
        r@.len() > 0,
        digits_value(r@) == n,
        r@[0] != '0' || r@.len() == 1,
    decreases n,
{
    if n < 10 {
        let mut r: Vec<char> = Vec::new();
        r.push(digit_char(n as u8));
        proof {
            assert(r@.drop_last() =~= Seq::<char>::empty());
            assert(digits_value(Seq::<char>::empty()) == 0);
            assert(digits_value(r@) == digit_value(r@.last()));
        }
        r
    } else {
        let mut r = format_numeric(n / 10);
        let d: usize = n % 10;
        let ghost prefix = r@;
        r.push(digit_char(d as u8));
        proof {
            assert(r@.drop_last() =~= prefix);
            assert(digits_value(r@) == digits_value(prefix) * 10 + digit_value(r@.last()));
            assert(digits_value(r@) == (n / 10) * 10 + n % 10);
            assert(r@[0] == prefix[0]);
            if prefix.len() == 1 {
                assert(prefix.drop_last() =~= Seq::<char>::empty());
                assert(digits_value(Seq::<char>::empty()) == 0);
                assert(prefix.last() == prefix[0]);
                assert(digits_value(prefix) == digit_value(prefix[0]));
                assert(digit_value(prefix[0]) >= 1);
                assert(prefix[0] != '0');
            }
        }
        r
    }
}

/// The digit character for a value below ten.
pub fn digit_char(d: u8) -> (c: char)
    requires
        d < 10,
    ensures
        is_digit(c),
        digit_value(c) == d,
        c == spec_digit_char(d as nat),
{
    (('0' as u8) + d) as char
}

} // verus!
