//! Small verified text helpers: decimal rendering for instruction labels, and
//! the first-letter capitalization the driver's banner uses.

use vstd::prelude::*;
use vstd::string::StrSliceExecFns;
use vstd::string::StringExecFns;
use crate::chars::{push_char, uppercase_of, spec_uppercase_of};

verus! {

/// The ASCII digit character for one decimal digit value.
pub open spec fn spec_digit_char(d: int) -> char {
    if d == 0 {
        '0'
    } else if d == 1 {
        '1'
    } else if d == 2 {
        '2'
    } else if d == 3 {
        '3'
    } else if d == 4 {
        '4'
    } else if d == 5 {
        '5'
    } else if d == 6 {
        '6'
    } else if d == 7 {
        '7'
    } else if d == 8 {
        '8'
    } else {
        '9'
    }
}

/// The decimal numeral of a number, most significant digit first.
pub open spec fn spec_dec_digits(n: int) -> Seq<char>
    decreases n,
{
    if n < 10 {
        seq![spec_digit_char(n)]
    } else {
        spec_dec_digits(n / 10).push(spec_digit_char(n % 10))
    }
}

fn digit_char(d: usize) -> (c: char)
    requires
        d < 10,
    ensures
        c == spec_digit_char(d as int),
{
    match d {
        0 => '0',
        1 => '1',
        2 => '2',
        3 => '3',
        4 => '4',
        5 => '5',
        6 => '6',
        7 => '7',
        8 => '8',
        _ => '9',
    }
}

/// Appends the decimal numeral of `n` to `s`.
pub fn append_decimal(s: &mut String, n: usize)
    ensures
        final(s)@ == old(s)@ + spec_dec_digits(n as int),
    decreases n,
{
    if n < 10 {
        push_char(s, digit_char(n));
        proof {
            assert(s@ =~= old(s)@ + spec_dec_digits(n as int));
        }
    } else {
        append_decimal(s, n / 10);
        push_char(s, digit_char(n % 10));
        proof {
            assert(s@ =~= old(s)@ + spec_dec_digits(n as int));
        }
    }
}

/// The label an emitted instruction gets: the prefix, an underscore, and the
/// decimal value of the per-compilation counter.
pub open spec fn spec_temp_name(prefix: Seq<char>, n: int) -> Seq<char> {
    prefix + seq!['_'] + spec_dec_digits(n)
}

/// Builds a unique human-readable label from a prefix and a counter value.
pub fn temp_name(prefix: &str, n: usize) -> (r: String)
    ensures
        r@ == spec_temp_name(prefix@, n as int),
{
    let mut r = String::from_str(prefix);
    push_char(&mut r, '_');
    append_decimal(&mut r, n);
    proof {
        assert(r@ =~= spec_temp_name(prefix@, n as int));
    }
    r
}

pub proof fn lemma_dec_digits_len(n: int)
    requires
        n >= 0,
    ensures
        spec_dec_digits(n).len() >= 1,
        n >= 10 ==> spec_dec_digits(n).len() >= 2,
    decreases n,
{
    if n >= 10 {
        lemma_dec_digits_len(n / 10);
    }
}

/// Decimal rendering is injective: distinct numbers get distinct numerals.
pub proof fn lemma_dec_digits_injective(m: int, n: int)
    requires
        m >= 0,
        n >= 0,
        spec_dec_digits(m) == spec_dec_digits(n),
    ensures
        m == n,
    decreases m,
{
    lemma_dec_digits_len(m);
    lemma_dec_digits_len(n);
    if m < 10 && n < 10 {
        assert(spec_dec_digits(m)[0] == spec_digit_char(m));
        assert(spec_dec_digits(n)[0] == spec_digit_char(n));
    } else if m < 10 || n < 10 {
        assert(false);
    } else {
        assert(spec_dec_digits(m).last() == spec_digit_char(m % 10));
        assert(spec_dec_digits(n).last() == spec_digit_char(n % 10));
        assert(m % 10 == n % 10);
        assert(spec_dec_digits(m).drop_last() =~= spec_dec_digits(m / 10));
        assert(spec_dec_digits(n).drop_last() =~= spec_dec_digits(n / 10));
        lemma_dec_digits_injective(m / 10, n / 10);
    }
}

/// What `capitalize_first` yields: the Unicode uppercase mapping of the first
/// character, followed by the rest of the string unchanged.
pub open spec fn spec_capitalize_first(s: Seq<char>) -> Seq<char> {
    if s.len() == 0 {
        s
    } else {
        spec_uppercase_of(s[0]) + s.skip(1)
    }
}

/// Uppercases the first character of a string, leaving the rest unchanged.
pub fn capitalize_first(s: &str) -> (r: String)
    ensures
        r@ == spec_capitalize_first(s@),
{
    let n = s.unicode_len();
    if n == 0 {
        String::new()
    } else {
        let mut r = uppercase_of(s.get_char(0));
        let mut i: usize = 1;
        while i < n
            invariant
                1 <= i <= n,
                n == s@.len(),
                r@ == spec_uppercase_of(s@[0]) + s@.subrange(1, i as int),
            decreases n - i,
        {
            push_char(&mut r, s.get_char(i));
            i = i + 1;
            proof {
                assert(r@ =~= spec_uppercase_of(s@[0]) + s@.subrange(1, i as int));
            }
        }
        proof {
            assert(s@.subrange(1, n as int) =~= s@.skip(1));
            assert(r@ =~= spec_capitalize_first(s@));
        }
        r
    }
}

} // verus!
