//! Whole numbers as decimal text.
use vstd::prelude::*;
use crate::text::{chars_of, is_digit, part_of, string_of};

verus! {

/// The digit that stands for `n`, which is below ten.
pub open spec fn digit_char(n: nat) -> char {
    (48 + n) as char
}

/// The number that the digit `c` stands for.
pub open spec fn digit_value(c: char) -> nat {
    (c as int - 48) as nat
}

/// `n` in decimal, without leading zeros.
pub open spec fn decimal(n: nat) -> Seq<char>
    decreases n,
{
    if n < 10 {
        seq![digit_char(n)]
    } else {
        decimal(n / 10).push(digit_char(n % 10))
    }
}

/// `n` in decimal, with at least two digits.
pub open spec fn two_digits(n: nat) -> Seq<char> {
    if n < 10 {
        seq!['0'] + decimal(n)
    } else {
        decimal(n)
    }
}

/// The number that a string of digits writes.
pub open spec fn digits_value(s: Seq<char>) -> nat
    decreases s.len(),
{
    if s.len() == 0 {
        0
    } else {
        digits_value(s.drop_last()) * 10 + digit_value(s.last())
    }
}

/// Whether `s` is made of digits, at least one.
pub open spec fn is_number(s: Seq<char>) -> bool {
    s.len() > 0 && forall|i: int| 0 <= i < s.len() ==> is_digit(#[trigger] s[i])
}

/// `s` without one plus sign at its start.
pub open spec fn unsigned_part(s: Seq<char>) -> Seq<char> {
    if s.len() > 0 && s[0] == '+' {
        s.drop_first()
    } else {
        s
    }
}

/// The number that `s` writes: digits after an optional plus sign, of a value not above
/// `max`.
pub open spec fn parsed(s: Seq<char>, max: nat) -> Option<nat> {
    let digits = unsigned_part(s);
    if is_number(digits) && digits_value(digits) <= max {
        Some(digits_value(digits))
    } else {
        None
    }
}

pub fn digit_of(n: u8) -> (c: char)
    requires
        n < 10,
    ensures
        c == digit_char(n as nat),
{
    (48 + n) as char
}

/// `u128::to_string`.
pub fn to_wide_decimal(n: u128) -> (s: String)
    ensures
        s@ == decimal(n as nat),
    decreases n,
{
    let mut s = if n < 10 {
        String::new()
    } else {
        to_wide_decimal(n / 10)
    };
    s.push(digit_of((n % 10) as u8));
    s
}

/// `u64::to_string`.
pub fn to_decimal(n: u64) -> (s: String)
    ensures
        s@ == decimal(n as nat),
{
    to_wide_decimal(n as u128)
}

/// `format!("{n:02}")`.
pub fn to_two_digits(n: u64) -> (s: String)
    ensures
        s@ == two_digits(n as nat),
{
    if n < 10 {
        let mut s = String::new();
        s.push('0');
        s.append(to_decimal(n).as_str());
        assert(s@ == seq!['0'] + decimal(n as nat));
        s
    } else {
        to_decimal(n)
    }
}

proof fn digits_value_grows(s: Seq<char>, i: int)
    requires
        0 <= i <= s.len(),
    ensures
        digits_value(s.take(i)) <= digits_value(s),
    decreases s.len() - i,
{
    if i < s.len() {
        digits_value_grows(s, i + 1);
        assert(s.take(i + 1).drop_last() == s.take(i));
    } else {
        assert(s.take(i) == s);
    }
}

/// `parse` to an unsigned type of up to 128 bits whose greatest value is `max`.
pub fn parse_wide(text: &str, max: u128) -> (r: Option<u128>)
    ensures
        match r {
            Some(n) => parsed(text@, max as nat) == Some(n as nat),
            None => parsed(text@, max as nat) is None,
        },
{
    let v = chars_of(text);
    let start: usize = if v.len() > 0 && v[0] == '+' {
        1
    } else {
        0
    };
    let ghost digits = v@.skip(start as int);
    assert(digits == unsigned_part(text@));
    if start == v.len() {
        assert(digits.len() == 0);
        return None;
    }
    let mut n: u128 = 0;
    let mut i: usize = start;
    assert(digits.take(0) == Seq::<char>::empty());
    while i < v.len()
        invariant
            start <= i <= v.len(),
            digits == v@.skip(start as int),
            digits == unsigned_part(text@),
            n == digits_value(digits.take(i - start)),
            n <= max,
            forall|j: int| 0 <= j < i - start ==> is_digit(#[trigger] digits[j]),
        decreases v.len() - i,
    {
        let c = v[i];
        assert(digits[i - start] == c);
        if !('0' <= c && c <= '9') {
            assert(!is_number(digits));
            return None;
        }
        let d: u128 = (c as u32 - 48) as u128;
        let ghost upto = digits.take(i + 1 - start);
        assert(upto.drop_last() == digits.take(i - start));
        assert(upto.last() == c);
        proof {
            digits_value_grows(digits, i + 1 - start);
        }
        if d > max || n > max / 10 || n * 10 > max - d {
            assert(digits_value(digits) > max);
            return None;
        }
        n = n * 10 + d;
        i = i + 1;
    }
    assert(digits.take(i - start) == digits);
    Some(n)
}

/// `parse` to an unsigned type whose greatest value is `max`.
pub fn parse_unsigned(text: &str, max: u64) -> (r: Option<u64>)
    ensures
        match r {
            Some(n) => parsed(text@, max as nat) == Some(n as nat),
            None => parsed(text@, max as nat) is None,
        },
{
    match parse_wide(text, max as u128) {
        Some(n) => Some(n as u64),
        None => None,
    }
}

/// A decimal text is made of digits, and they write the number.
pub proof fn decimal_is_number(n: nat)
    ensures
        is_number(decimal(n)),
        digits_value(decimal(n)) == n,
        decimal(n)[0] != '+',
    decreases n,
{
    let s = decimal(n);
    if n < 10 {
        assert(s.drop_last() == Seq::<char>::empty());
        assert(digits_value(s.drop_last()) == 0);
    } else {
        decimal_is_number(n / 10);
        assert(s.drop_last() == decimal(n / 10));
        assert(forall|i: int| 0 <= i < s.len() - 1 ==> s[i] == decimal(n / 10)[i]);
    }
}

/// A number in decimal starts with zero only where it is zero.
pub proof fn decimal_has_no_zero_in_front(n: nat)
    ensures
        decimal(n).len() > 1 ==> decimal(n)[0] != '0',
        n > 0 ==> decimal(n)[0] != '0',
    decreases n,
{
    if n >= 10 {
        decimal_has_no_zero_in_front(n / 10);
        decimal_is_number(n / 10);
        assert(decimal(n)[0] == decimal(n / 10)[0]);
    }
}

/// Reading a number back from its decimal text gives the number.
pub proof fn parse_reads_back_decimal(n: nat, max: nat)
    requires
        n <= max,
    ensures
        parsed(decimal(n), max) == Some(n),
{
    decimal_is_number(n);
}

// ------------------------------------------------------------------ signed numbers

/// `n` in decimal, filled with zeros up to two characters, the sign among them.
pub open spec fn signed_two_digits(n: int) -> Seq<char> {
    if n < 0 {
        seq!['-'] + decimal((-n) as nat)
    } else {
        two_digits(n as nat)
    }
}

/// The number that `s` writes: digits after an optional sign, within the range of `i64`.
pub open spec fn parsed_signed(s: Seq<char>) -> Option<int> {
    if s.len() > 0 && s[0] == '-' {
        let digits = s.drop_first();
        if is_number(digits) && digits_value(digits) <= 0x8000_0000_0000_0000 {
            Some(-(digits_value(digits) as int))
        } else {
            None
        }
    } else {
        match parsed(s, 0x7fff_ffff_ffff_ffff) {
            Some(n) => Some(n as int),
            None => None,
        }
    }
}

/// `parse` to `i64`.
pub fn parse_signed(text: &str) -> (r: Option<i64>)
    ensures
        match r {
            Some(n) => parsed_signed(text@) == Some(n as int),
            None => parsed_signed(text@) is None,
        },
{
    let v = chars_of(text);
    if v.len() > 0 && v[0] == '-' {
        if v.len() > 1 && v[1] == '+' {
            assert(!is_number(text@.drop_first())) by {
                assert(text@.drop_first()[0] == '+');
            }
            return None;
        }
        let rest = part_of(&v, 1, v.len());
        let digits = string_of(&rest);
        assert(digits@ == text@.drop_first());
        match parse_unsigned(digits.as_str(), 0x8000_0000_0000_0000) {
            Some(n) => {
                if n == 0x8000_0000_0000_0000 {
                    Some(i64::MIN)
                } else {
                    Some(-(n as i64))
                }
            },
            None => None,
        }
    } else {
        match parse_unsigned(text, 0x7fff_ffff_ffff_ffff) {
            Some(n) => Some(n as i64),
            None => None,
        }
    }
}

/// `format!("{n:02}")`.
pub fn to_signed_two_digits(n: i64) -> (s: String)
    ensures
        s@ == signed_two_digits(n as int),
{
    if n < 0 {
        let magnitude: u64 = if n == i64::MIN {
            0x8000_0000_0000_0000
        } else {
            (-n) as u64
        };
        let mut s = String::new();
        s.push('-');
        s.append(to_decimal(magnitude).as_str());
        assert(s@ == seq!['-'] + decimal((-n) as nat));
        s
    } else {
        to_two_digits(n as u64)
    }
}

/// A number in two digits at least is still that number.
pub proof fn two_digits_are_the_number(n: nat)
    ensures
        is_number(two_digits(n)),
        two_digits(n).len() >= 2,
        digits_value(two_digits(n)) == n,
        two_digits(n)[0] != '+' && two_digits(n)[0] != '-',
{
    decimal_is_number(n);
    reveal_with_fuel(decimal, 2);
    reveal_with_fuel(digits_value, 3);
    if n < 10 {
        let s = two_digits(n);
        assert(s =~= seq!['0', digit_char(n)]);
        assert(s.drop_last() =~= seq!['0']);
        assert(s.drop_last().drop_last() =~= Seq::<char>::empty());
    } else {
        assert(decimal(n / 10).len() >= 1);
    }
}

/// Reading a signed number gives back the one that was written.
pub proof fn signed_numbers_read_back(n: int)
    requires
        -0x8000_0000_0000_0000 <= n <= 0x7fff_ffff_ffff_ffff,
    ensures
        parsed_signed(signed_two_digits(n)) == Some(n),
{
    if n < 0 {
        decimal_is_number((-n) as nat);
        let s = signed_two_digits(n);
        assert(s.drop_first() =~= decimal((-n) as nat));
    } else {
        two_digits_are_the_number(n as nat);
    }
}

/// Two different numbers are never written alike.
pub proof fn numbers_are_told_apart(a: nat, b: nat)
    requires
        a != b,
    ensures
        decimal(a) != decimal(b),
        two_digits(a) != two_digits(b),
{
    decimal_is_number(a);
    decimal_is_number(b);
    two_digits_are_the_number(a);
    two_digits_are_the_number(b);
}

/// A number is read exactly up to the largest that is allowed.
pub proof fn a_number_is_read_up_to_the_largest(n: nat, max: nat)
    ensures
        parsed(decimal(n), max) == (if n <= max {
            Some(n)
        } else {
            None
        }),
        parsed(seq!['+'] + decimal(n), max) == parsed(decimal(n), max),
{
    decimal_is_number(n);
    let signed = seq!['+'] + decimal(n);
    assert(signed.drop_first() =~= decimal(n));
}

} // verus!
