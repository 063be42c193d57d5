//! Moments and lengths of time, counted in attoseconds.
//!
//! Seconds come as decimal numbers. Eighteen places of them count, and what stands behind is
//! dropped: from a tenth of a second on, numbers of seventeen digits that differ are different
//! times, while shorter times fall together where they differ by less than the unit.
use vstd::prelude::*;
use crate::number::{
    decimal, decimal_is_number, digit_char, digit_of, digit_value, digits_value, is_number, parse_wide, parsed,
    to_decimal, to_two_digits, to_wide_decimal, two_digits, unsigned_part,
};
use crate::text::{
    chars_of, equal_to, is_digit, part_of, split, split_at, split_by, split_chars_by,
    split_is_never_empty, split_of_one_piece, string_of, texts,
};

verus! {

/// A point or a length of time, in attoseconds.
pub type Time = i128;

/// How many decimal places of a second the unit of time has.
pub const PLACES: u64 = 18;

/// One second.
pub const SECOND: Time = 1_000_000_000_000_000_000;

/// One nanosecond.
pub const NANOSECOND: Time = 1_000_000_000;

/// One microsecond.
pub const MICROSECOND: Time = 1_000_000_000_000;

pub open spec fn is_exponent_mark(c: char) -> bool {
    c == 'e' || c == 'E'
}

/// The decimal exponent that stands after the mark.
pub open spec fn exponent(parts: Seq<Seq<char>>) -> int {
    if parts.len() < 2 {
        0
    } else if parts[1].len() > 0 && parts[1][0] == '-' {
        let digits = parts[1].drop_first();
        if is_number(digits) {
            -(digits_value(digits) as int)
        } else {
            0
        }
    } else {
        let digits = unsigned_part(parts[1]);
        if is_number(digits) {
            digits_value(digits) as int
        } else {
            0
        }
    }
}

/// `digits` cut or filled with zeros to `count` digits.
pub open spec fn to_length(digits: Seq<char>, count: int) -> Seq<char> {
    if count <= 0 {
        Seq::<char>::empty()
    } else if count <= digits.len() {
        digits.take(count)
    } else {
        digits + Seq::new((count - digits.len()) as nat, |i: int| '0')
    }
}

/// The digits of the number of units of time in the unsigned decimal number of seconds `s`.
pub open spec fn unit_digits(s: Seq<char>) -> Seq<char> {
    let parts = split_by(s, |c: char| is_exponent_mark(c));
    let halves = split_at(parts[0], '.');
    let fraction = if halves.len() >= 2 {
        halves[1]
    } else {
        Seq::<char>::empty()
    };
    to_length(halves[0] + fraction, halves[0].len() + exponent(parts) + PLACES)
}

/// The number of units of time in the unsigned decimal number of seconds `s`, rounded down,
/// and no more than an `i128` holds.
pub open spec fn units(s: Seq<char>) -> int {
    capped_value(unit_digits(s))
}

/// The number that digits write, no more than an `i128` holds. What is no number counts as
/// zero.
pub open spec fn capped_value(digits: Seq<char>) -> int {
    match parsed(digits, i128::MAX as nat) {
        Some(n) => n as int,
        None => if is_number(unsigned_part(digits)) {
            i128::MAX as int
        } else {
            0
        },
    }
}

/// The time that a decimal number of seconds writes.
pub open spec fn seconds_written(s: Seq<char>) -> int {
    if s.len() > 0 && s[0] == '-' {
        -units(s.drop_first())
    } else {
        units(s)
    }
}

/// Seconds that were read can be written again: the least length of time is never read.
pub proof fn seconds_that_were_read(s: Seq<char>)
    ensures
        i128::MIN < seconds_written(s) <= i128::MAX,
{
}

fn is_mark(c: char) -> (r: bool)
    ensures
        r == is_exponent_mark(c),
{
    c == 'e' || c == 'E'
}

/// No text is so long that an exponent beyond this would not shift all of its digits away, or
/// as many zeros behind them as no time can have.
const FARTHEST: u128 = 0x40_0000_0000_0000_0000;

fn read_size(text: &str) -> (r: u128)
    ensures
        ({
            let digits = unsigned_part(text@);
            r == if !is_number(digits) {
                0
            } else if digits_value(digits) > FARTHEST {
                FARTHEST as nat
            } else {
                digits_value(digits)
            }
        }),
{
    match parse_wide(text, FARTHEST) {
        Some(n) => n,
        None => if only_digits(text) {
            FARTHEST
        } else {
            0
        },
    }
}

fn read_exponent(parts: &Vec<String>) -> (r: i128)
    ensures
        ({
            let e = exponent(texts(parts@));
            r == if e > FARTHEST {
                FARTHEST as int
            } else if e < -(FARTHEST as int) {
                -(FARTHEST as int)
            } else {
                e
            }
        }),
{
    if parts.len() < 2 {
        return 0;
    }
    let v = chars_of(parts[1].as_str());
    if v.len() > 0 && v[0] == '-' {
        let rest = part_of(&v, 1, v.len());
        let digits = string_of(&rest);
        assert(digits@ == parts@[1]@.drop_first());
        if rest.len() > 0 && rest[0] == '+' {
            assert(!is_number(digits@)) by {
                assert(digits@[0] == '+');
            }
            return 0;
        }
        -(read_size(digits.as_str()) as i128)
    } else {
        read_size(parts[1].as_str()) as i128
    }
}

spec fn power_of_ten(k: nat) -> nat
    decreases k,
{
    if k == 0 {
        1
    } else {
        10 * power_of_ten((k - 1) as nat)
    }
}

proof fn powers_grow(k: nat)
    requires
        k >= 39,
    ensures
        power_of_ten(k) > i128::MAX,
    decreases k,
{
    if k == 39 {
        reveal_with_fuel(power_of_ten, 40);
    } else {
        powers_grow((k - 1) as nat);
    }
}

spec fn zeros(k: nat) -> Seq<char> {
    Seq::new(k, |i: int| '0')
}

proof fn value_with_zeros(s: Seq<char>, k: nat)
    ensures
        digits_value(s) == 0 ==> digits_value(s + zeros(k)) == 0,
        digits_value(s) > 0 ==> digits_value(s + zeros(k)) >= power_of_ten(k),
    decreases k,
{
    let longer = s + zeros(k);
    if k == 0 {
        assert(longer =~= s);
    } else {
        value_with_zeros(s, (k - 1) as nat);
        assert(longer.drop_last() =~= s + zeros((k - 1) as nat));
        assert(longer.last() == '0');
    }
}

/// With so many zeros behind them, digits are nothing or more than any time.
proof fn many_zeros(s: Seq<char>, k: nat)
    requires
        k >= 39,
    ensures
        ({
            let bare = unsigned_part(s);
            capped_value(s + zeros(k)) == if (forall|i: int|
                0 <= i < bare.len() ==> is_digit(#[trigger] bare[i])) && digits_value(bare) > 0 {
                i128::MAX as int
            } else {
                0
            }
        }),
{
    let bare = unsigned_part(s);
    let all = s + zeros(k);
    let longer = bare + zeros(k);
    assert(unsigned_part(all) =~= longer) by {
        if s.len() > 0 && s[0] == '+' {
            assert(all.drop_first() =~= bare + zeros(k));
        } else {
            assert(all[0] == if s.len() > 0 {
                s[0]
            } else {
                '0'
            });
        }
    }
    value_with_zeros(bare, k);
    powers_grow(k);
    if forall|i: int| 0 <= i < bare.len() ==> is_digit(#[trigger] bare[i]) {
        assert forall|i: int| 0 <= i < longer.len() implies is_digit(#[trigger] longer[i]) by {
            if i < bare.len() {
                assert(longer[i] == bare[i]);
            }
        }
    } else {
        let i = choose|i: int| 0 <= i < bare.len() && !is_digit(#[trigger] bare[i]);
        assert(longer[i] == bare[i]);
    }
}

/// How many zeros stand behind digits does not matter once they are many.
proof fn far_shifts_are_alike(digits: Seq<char>, a: int, b: int)
    requires
        a >= digits.len() + 39,
        b >= digits.len() + 39,
    ensures
        capped_value(to_length(digits, a)) == capped_value(to_length(digits, b)),
{
    let x = (a - digits.len()) as nat;
    let y = (b - digits.len()) as nat;
    many_zeros(digits, x);
    many_zeros(digits, y);
    assert(to_length(digits, a) =~= digits + zeros(x));
    assert(to_length(digits, b) =~= digits + zeros(y));
}

fn resized(digits: &Vec<char>, count: i128) -> (r: Vec<char>)
    requires
        count <= digits.len() + 1000,
    ensures
        r@ == to_length(digits@, count as int),
{
    let mut r: Vec<char> = Vec::new();
    let mut i: i128 = 0;
    while i < count
        invariant
            0 <= i,
            count > 0 ==> i <= count,
            count <= 0 ==> i == 0,
            i == r.len(),
            forall|j: int|
                0 <= j < i ==> r@[j] == (if j < digits.len() {
                    digits@[j]
                } else {
                    '0'
                }),
        decreases count - i,
    {
        if i < digits.len() as i128 {
            r.push(digits[i as usize]);
        } else {
            r.push('0');
        }
        i = i + 1;
    }
    assert(r@ =~= to_length(digits@, count as int));
    r
}

fn read_units(s: &Vec<char>) -> (r: i128)
    ensures
        r == units(s@),
        r >= 0,
{
    let parts = split_chars_by(s, is_mark, Ghost(|c: char| is_exponent_mark(c)));
    proof {
        split_is_never_empty(s@, |c: char| is_exponent_mark(c));
    }
    assert(parts@.len() == texts(parts@).len());
    let power = read_exponent(&parts);
    let halves = split(parts[0].as_str(), '.');
    proof {
        split_is_never_empty(parts@[0]@, equal_to('.'));
    }
    assert(halves@.len() == texts(halves@).len());
    let mut digits = chars_of(halves[0].as_str());
    let whole = digits.len();
    if halves.len() >= 2 {
        let mut fraction = chars_of(halves[1].as_str());
        digits.append(&mut fraction);
    } else {
        assert(digits@ =~= halves@[0]@ + Seq::<char>::empty());
    }
    let wanted: i128 = whole as i128 + power + PLACES as i128;
    let most: i128 = digits.len() as i128 + 39;
    let shifted = resized(&digits, if wanted < most {
        wanted
    } else {
        most
    });
    let text = string_of(&shifted);
    proof {
        let count = whole + exponent(texts(parts@)) + PLACES;
        assert(unit_digits(s@) == to_length(digits@, count));
        if wanted >= most {
            far_shifts_are_alike(digits@, count, most as int);
        }
        assert(capped_value(text@) == units(s@));
    }
    match parse_wide(text.as_str(), i128::MAX as u128) {
        Some(n) => n as i128,
        None => if only_digits(text.as_str()) {
            i128::MAX
        } else {
            0
        },
    }
}

/// Whether a text is a number once an optional plus sign is taken off.
fn only_digits(text: &str) -> (r: bool)
    ensures
        r == is_number(unsigned_part(text@)),
{
    let v = chars_of(text);
    let start: usize = if v.len() > 0 && v[0] == '+' {
        1
    } else {
        0
    };
    let ghost digits = v@.skip(start as int);
    assert(digits == unsigned_part(text@));
    let mut i: usize = start;
    while i < v.len()
        invariant
            start <= i <= v.len(),
            digits == v@.skip(start as int),
            digits == unsigned_part(text@),
            forall|j: int| 0 <= j < i - start ==> is_digit(#[trigger] digits[j]),
        decreases v.len() - i,
    {
        assert(digits[i - start] == v@[i as int]);
        if !('0' <= v[i] && v[i] <= '9') {
            return false;
        }
        i = i + 1;
    }
    i > start
}

/// The time that a decimal number of seconds writes.
pub fn parse_seconds(text: &str) -> (r: Time)
    ensures
        r == seconds_written(text@),
{
    let v = chars_of(text);
    if v.len() > 0 && v[0] == '-' {
        let rest = part_of(&v, 1, v.len());
        assert(rest@ == text@.drop_first());
        -read_units(&rest)
    } else {
        read_units(&v)
    }
}

// ------------------------------------------------------------------- arithmetic

/// `a + b`, held within the range of times.
pub open spec fn time_sum(a: int, b: int) -> int {
    if a + b > i128::MAX {
        i128::MAX as int
    } else if a + b < i128::MIN {
        i128::MIN as int
    } else {
        a + b
    }
}

pub fn add_times(a: Time, b: Time) -> (r: Time)
    ensures
        r == time_sum(a as int, b as int),
{
    if b > 0 && a > i128::MAX - b {
        i128::MAX
    } else if b < 0 && a < i128::MIN - b {
        i128::MIN
    } else {
        a + b
    }
}

/// A number of nanoseconds, as a time.
pub fn from_nanos(t: u64) -> (r: Time)
    ensures
        r == t * NANOSECOND,
{
    t as i128 * NANOSECOND
}

// ------------------------------------------------------------------------ clock

/// A moment to the nearest second, at least zero, and no more than a `u64` holds.
pub open spec fn whole_seconds(t: int) -> nat {
    let near = (t + SECOND / 2) / (SECOND as int);
    if t <= 0 {
        0
    } else if near > u64::MAX {
        u64::MAX as nat
    } else {
        near as nat
    }
}

/// `h:mm:ss`, or `m:ss` below an hour.
pub open spec fn clock_text(t: int) -> Seq<char> {
    let total = whole_seconds(t);
    let hours = total / 3600;
    let minutes = (total % 3600) / 60;
    let seconds = total % 60;
    if hours > 0 {
        decimal(hours) + ":"@ + two_digits(minutes) + ":"@ + two_digits(seconds)
    } else {
        decimal(minutes) + ":"@ + two_digits(seconds)
    }
}

/// `h:mm:ss` for a time offset.
pub fn clock(t: Time) -> (r: String)
    ensures
        r@ == clock_text(t as int),
{
    let total: u64 = if t <= 0 {
        0
    } else {
        let near: u128 = (t as u128 + SECOND as u128 / 2) / SECOND as u128;
        if near > u64::MAX as u128 {
            u64::MAX
        } else {
            near as u64
        }
    };
    let hours: u64 = total / 3600;
    let minutes: u64 = (total % 3600) / 60;
    let seconds: u64 = total % 60;
    if hours > 0 {
        to_decimal(hours).concat(":").concat(to_two_digits(minutes).as_str()).concat(":").concat(
            to_two_digits(seconds).as_str(),
        )
    } else {
        to_decimal(minutes).concat(":").concat(to_two_digits(seconds).as_str())
    }
}

// -------------------------------------------------------------------------- writing

/// The last digits of a number, in decimal.
pub open spec fn last_digits(t: nat, count: nat) -> Seq<char>
    decreases count,
{
    if count == 0 {
        Seq::<char>::empty()
    } else {
        last_digits(t / 10, (count - 1) as nat).push(digit_char(t % 10))
    }
}

/// What is left of a number without its last digits.
pub open spec fn without_last_digits(t: nat, count: nat) -> nat
    decreases count,
{
    if count == 0 {
        t
    } else {
        without_last_digits(t / 10, (count - 1) as nat)
    }
}

/// Digits without the zeros at their end, but for the first digit.
pub open spec fn without_last_zeros(digits: Seq<char>) -> Seq<char>
    decreases digits.len(),
{
    if digits.len() > 1 && digits.last() == '0' {
        without_last_zeros(digits.drop_last())
    } else {
        digits
    }
}

/// The decimal places of a time in seconds: no more than it needs, and one at least.
pub open spec fn places_of(t: nat) -> Seq<char> {
    without_last_zeros(last_digits(t, PLACES as nat))
}

/// A time of zero or more in seconds.
pub open spec fn seconds_text_of(t: nat) -> Seq<char> {
    decimal(without_last_digits(t, PLACES as nat)) + "."@ + places_of(t)
}

/// A time in seconds, in the number that writes it exactly.
pub open spec fn seconds_text(t: int) -> Seq<char> {
    if t < 0 {
        "-"@ + seconds_text_of((-t) as nat)
    } else {
        seconds_text_of(t as nat)
    }
}

fn take_digits(t: u128, count: u64) -> (r: (Vec<char>, u128))
    ensures
        r.0@ == last_digits(t as nat, count as nat),
        r.1 == without_last_digits(t as nat, count as nat),
    decreases count,
{
    if count == 0 {
        return (Vec::new(), t);
    }
    let (mut digits, rest) = take_digits(t / 10, count - 1);
    digits.push(digit_of((t % 10) as u8));
    (digits, rest)
}

fn write_magnitude(t: u128) -> (r: String)
    ensures
        r@ == seconds_text_of(t as nat),
{
    let (mut digits, whole) = take_digits(t, PLACES);
    while digits.len() > 1 && digits[digits.len() - 1] == '0'
        invariant
            without_last_zeros(digits@) == places_of(t as nat),
        decreases digits.len(),
    {
        let ghost before = digits@;
        digits.truncate(digits.len() - 1);
        assert(digits@ =~= before.drop_last());
    }
    to_wide_decimal(whole).concat(".").concat(string_of(&digits).as_str())
}

pub fn write_seconds_text(t: Time) -> (r: String)
    ensures
        r@ == seconds_text(t as int),
{
    if t >= 0 {
        return write_magnitude(t as u128);
    }
    let size: u128 = (-(t + 1)) as u128 + 1;
    "-".to_owned().concat(write_magnitude(size).as_str())
}

proof fn split_in_two(a: Seq<char>, c: char, b: Seq<char>, p: spec_fn(char) -> bool)
    requires
        p(c),
        forall|i: int| 0 <= i < a.len() ==> !p(#[trigger] a[i]),
        forall|i: int| 0 <= i < b.len() ==> !p(#[trigger] b[i]),
    ensures
        split_by(a.push(c) + b, p) == seq![a, b],
    decreases b.len(),
{
    let s = a.push(c) + b;
    if b.len() == 0 {
        assert(s =~= a.push(c));
        assert(s.drop_last() =~= a);
        split_of_one_piece(a, p);
        assert(b =~= Seq::<char>::empty());
        assert(split_by(s, p) =~= seq![a, b]);
    } else {
        assert(s.drop_last() =~= a.push(c) + b.drop_last());
        assert(s.last() == b.last());
        assert forall|i: int| 0 <= i < b.drop_last().len() implies !p(#[trigger] b.drop_last()[i]) by {
            assert(b.drop_last()[i] == b[i]);
        }
        split_in_two(a, c, b.drop_last(), p);
        assert(!p(b[b.len() - 1]));
        assert(b.drop_last().push(b.last()) =~= b);
        assert(split_by(s, p) =~= seq![a, b]);
    }
}

/// A number is its last digits behind the rest of it.
proof fn digits_make_the_number(t: nat, count: nat)
    ensures
        ({
            let digits = decimal(without_last_digits(t, count)) + last_digits(t, count);
            &&& digits_value(digits) == t
            &&& is_number(digits)
        }),
        last_digits(t, count).len() == count,
    decreases count,
{
    let whole = decimal(without_last_digits(t, count));
    let digits = whole + last_digits(t, count);
    if count == 0 {
        decimal_is_number(t);
        assert(digits =~= whole);
    } else {
        let shorter = last_digits(t / 10, (count - 1) as nat);
        digits_make_the_number(t / 10, (count - 1) as nat);
        assert(digits =~= (whole + shorter).push(digit_char(t % 10)));
        assert(digits.drop_last() =~= whole + shorter);
        assert forall|i: int| 0 <= i < digits.len() implies is_digit(#[trigger] digits[i]) by {
            if i < digits.len() - 1 {
                assert(digits[i] == (whole + shorter)[i]);
            }
        }
    }
}

/// The places of seconds are digits, one at least.
pub proof fn places_are_digits(t: nat)
    ensures
        is_number(places_of(t)),
{
    let all = last_digits(t, PLACES as nat);
    let whole = decimal(without_last_digits(t, PLACES as nat));
    digits_make_the_number(t, PLACES as nat);
    zeros_are_filled_in(Seq::<char>::empty(), all);
    assert forall|i: int| 0 <= i < places_of(t).len() implies is_digit(
        #[trigger] places_of(t)[i],
    ) by {
        assert(places_of(t)[i] == all[i]);
        assert((whole + all)[whole.len() + i] == all[i]);
    }
}

/// The zeros that are left out are filled in again.
proof fn zeros_are_filled_in(whole: Seq<char>, digits: Seq<char>)
    requires
        digits.len() > 0,
    ensures
        0 < without_last_zeros(digits).len() <= digits.len(),
        to_length(whole + without_last_zeros(digits), (whole.len() + digits.len()) as int) == whole
            + digits,
        forall|i: int|
            0 <= i < without_last_zeros(digits).len() ==> #[trigger] without_last_zeros(digits)[i]
                == digits[i],
    decreases digits.len(),
{
    let short = without_last_zeros(digits);
    if digits.len() > 1 && digits.last() == '0' {
        let before = digits.drop_last();
        zeros_are_filled_in(whole, before);
        let shorter = to_length(whole + short, (whole.len() + before.len()) as int);
        let all = to_length(whole + short, (whole.len() + digits.len()) as int);
        assert forall|i: int| 0 <= i < all.len() implies all[i] == (whole + digits)[i] by {
            if i < whole.len() + before.len() {
                assert(all[i] == shorter[i]);
                assert((whole + before)[i] == (whole + digits)[i]);
            }
        }
        assert(all =~= whole + digits);
        assert forall|i: int| 0 <= i < short.len() implies #[trigger] short[i] == digits[i] by {
            assert(short[i] == before[i]);
        }
    } else {
        assert(to_length(whole + digits, (whole.len() + digits.len()) as int) =~= whole + digits);
    }
}

/// Reading a time back from its text gives it, for any time but the least that there is.
pub proof fn seconds_read_back(t: int)
    requires
        i128::MIN < t <= i128::MAX,
    ensures
        seconds_written(seconds_text(t)) == t,
{
    let size: nat = if t < 0 {
        (-t) as nat
    } else {
        t as nat
    };
    let s = seconds_text_of(size);
    let whole = decimal(without_last_digits(size, PLACES as nat));
    let all = last_digits(size, PLACES as nat);
    let fraction = places_of(size);
    let digits = whole + all;
    reveal_strlit(".");
    reveal_strlit("-");
    decimal_is_number(without_last_digits(size, PLACES as nat));
    digits_make_the_number(size, PLACES as nat);
    places_are_digits(size);
    zeros_are_filled_in(whole, all);
    assert("."@ =~= seq!['.']);
    assert(s =~= whole.push('.') + fraction);
    let marks = |ch: char| is_exponent_mark(ch);
    split_of_one_piece(s, marks);
    split_in_two(whole, '.', fraction, equal_to('.'));
    assert(split_by(s, |ch: char| is_exponent_mark(ch)) == seq![s]);
    assert(to_length(whole + fraction, (whole.len() + PLACES) as int) == digits);
    assert(unit_digits(s) == digits);
    assert(digits[0] == whole[0]);
    assert(unsigned_part(digits) == digits);
    assert(units(s) == size);
    if t < 0 {
        assert("-"@ =~= seq!['-']);
        assert(seconds_text(t).drop_first() =~= s);
    } else {
        assert(is_digit(s[0]));
    }
}

/// A clock shows the nearest whole second, as hours, minutes and seconds of less than sixty.
pub proof fn a_clock_counts_seconds(t: int) -> (hms: (nat, nat, nat))
    requires
        0 <= t,
        t + SECOND / 2 <= u64::MAX * SECOND,
    ensures
        hms.1 < 60,
        hms.2 < 60,
        -SECOND <= 2 * ((hms.0 * 3600 + hms.1 * 60 + hms.2) * SECOND - t) <= SECOND,
        clock_text(t) == (if hms.0 > 0 {
            decimal(hms.0) + ":"@ + two_digits(hms.1)
        } else {
            decimal(hms.1)
        }) + ":"@ + two_digits(hms.2),
{
    let total = whole_seconds(t);
    let hms = (total / 3600, (total % 3600) / 60, total % 60);
    assert(hms.0 * 3600 + hms.1 * 60 + hms.2 == total);
    hms
}

/// Later moments never show an earlier second.
pub proof fn clocks_do_not_run_back(a: int, b: int)
    requires
        a <= b,
    ensures
        whole_seconds(a) <= whole_seconds(b),
{
}

/// Adding times is adding numbers as far as the sum can be held.
pub proof fn times_add_up(a: int, b: int)
    requires
        i128::MIN <= a + b <= i128::MAX,
    ensures
        time_sum(a, b) == a + b,
        time_sum(a, b) == time_sum(b, a),
        time_sum(a, 0) == a || !(i128::MIN <= a <= i128::MAX),
{
}

/// A whole number of seconds is read as that many seconds.
#[verifier::spinoff_prover]
pub proof fn whole_seconds_are_read(n: nat)
    requires
        n * SECOND <= i128::MAX,
    ensures
        seconds_written(decimal(n)) == n * SECOND,
{
    let s = decimal(n);
    decimal_is_number(n);
    let p = |c: char| is_exponent_mark(c);
    assert forall|i: int| 0 <= i < s.len() implies !p(#[trigger] s[i]) by {
        assert(is_digit(s[i]));
    }
    split_of_one_piece(s, p);
    let q = equal_to('.');
    assert forall|i: int| 0 <= i < s.len() implies !q(#[trigger] s[i]) by {
        assert(is_digit(s[i]));
    }
    split_of_one_piece(s, q);
    let parts = split_by(s, p);
    assert(parts[0] == s);
    let halves = split_at(parts[0], '.');
    assert(halves[0] == s);
    assert(s + Seq::<char>::empty() =~= s);
    let all = unit_digits(s);
    assert(all =~= s + zeros(18));
    zeros_multiply(s, 18);
    reveal_with_fuel(power_of_ten, 19);
    assert(power_of_ten(18) == SECOND);
    assert forall|i: int| 0 <= i < all.len() implies is_digit(#[trigger] all[i]) by {
        if i < s.len() {
            assert(is_digit(s[i]));
        }
    }
    assert(is_digit(s[0]));
    assert(all[0] == s[0]);
    assert(digits_value(all) == n * SECOND);
}

proof fn zeros_multiply(s: Seq<char>, k: nat)
    ensures
        digits_value(s + zeros(k)) == digits_value(s) * power_of_ten(k),
    decreases k,
{
    let longer = s + zeros(k);
    if k == 0 {
        assert(longer =~= s);
        assert(power_of_ten(0) == 1);
        assert(digits_value(s) * 1 == digits_value(s));
    } else {
        let fewer = (k - 1) as nat;
        zeros_multiply(s, fewer);
        assert(longer.drop_last() =~= s + zeros(fewer));
        assert(longer.last() == '0');
        let v = digits_value(s);
        let t = power_of_ten(fewer);
        assert(power_of_ten(k) == 10 * t);
        assert(digits_value(longer) == v * t * 10 + digit_value('0'));
        assert(v * t * 10 == v * (10 * t)) by (nonlinear_arith);
    }
}

} // verus!
