//! Whether a newer release is published.
use vstd::prelude::*;
use crate::chat::{is_success, succeeded};
use crate::json::Json;
use crate::number::{
    decimal, decimal_is_number, digits_value, parse_unsigned, parsed, to_decimal,
};
use crate::text::{
    chars_of, is_digit, part_of, split_by, split_chars_by, split_of_one_piece,
    splitting_goes_piece_by_piece, texts, trim_front, trim_front_by,
};

verus! {

#[derive(Debug, Clone, PartialEq, Eq)]
pub enum UpdateStatus {
    UpToDate { version: String },
    Available { current: String, latest: String },
    NoReleases,
}

pub open spec fn is_version_break(c: char) -> bool {
    c == '.' || c == '-' || c == '+'
}

/// The number that a segment of a version writes. One that is no number counts as zero.
pub open spec fn segment_number(part: Seq<char>) -> nat {
    match parsed(part, u64::MAX as nat) {
        Some(n) => n,
        None => 0,
    }
}

/// The numbers of a version, without the `v` in front.
pub open spec fn version_numbers(s: Seq<char>) -> Seq<nat> {
    split_by(trim_front(s, |c: char| c == 'v'), |c: char| is_version_break(c)).map_values(
        |part: Seq<char>| segment_number(part),
    )
}

/// The number at a place, or zero beyond the end.
pub open spec fn number_at(v: Seq<nat>, i: int) -> nat {
    if 0 <= i < v.len() {
        v[i]
    } else {
        0
    }
}

/// Whether `a` is above `b` at the first place, from `i` on, where they differ.
pub open spec fn above_from(a: Seq<nat>, b: Seq<nat>, i: int) -> bool
    decreases a.len() + b.len() - i,
{
    if i >= a.len() && i >= b.len() {
        false
    } else if number_at(a, i) != number_at(b, i) {
        number_at(a, i) > number_at(b, i)
    } else {
        above_from(a, b, i + 1)
    }
}

/// Whether one version is newer than another.
pub open spec fn newer(candidate: Seq<char>, current: Seq<char>) -> bool {
    above_from(version_numbers(candidate), version_numbers(current), 0)
}

fn breaks_version(c: char) -> (r: bool)
    ensures
        r == is_version_break(c),
{
    c == '.' || c == '-' || c == '+'
}

fn is_v(c: char) -> (r: bool)
    ensures
        r == (c == 'v'),
{
    c == 'v'
}

pub open spec fn as_nats(v: Seq<u64>) -> Seq<nat> {
    v.map_values(|n: u64| n as nat)
}

fn read_version(s: &str) -> (r: Vec<u64>)
    ensures
        as_nats(r@) == version_numbers(s@),
{
    let v = chars_of(s);
    let start = trim_front_by(&v, is_v, Ghost(|c: char| c == 'v'));
    let rest = part_of(&v, start, v.len());
    assert(rest@ == v@.skip(start as int));
    let parts = split_chars_by(&rest, breaks_version, Ghost(|c: char| is_version_break(c)));
    let mut r: Vec<u64> = Vec::new();
    let mut i: usize = 0;
    while i < parts.len()
        invariant
            i <= parts.len(),
            r.len() == i,
            forall|j: int| 0 <= j < i ==> #[trigger] r@[j] == segment_number(parts@[j]@),
        decreases parts.len() - i,
    {
        let n: u64 = match parse_unsigned(parts[i].as_str(), 0xffff_ffff_ffff_ffff) {
            Some(n) => n,
            None => 0,
        };
        r.push(n);
        i = i + 1;
    }
    assert(as_nats(r@) =~= texts(parts@).map_values(|part: Seq<char>| segment_number(part)));
    r
}

/// Compares dotted numeric versions. Segments that are no numbers count as 0.
pub fn is_newer(candidate: &str, current: &str) -> (r: bool)
    ensures
        r == newer(candidate@, current@),
{
    let a = read_version(candidate);
    let b = read_version(current);
    let ghost p = as_nats(a@);
    let ghost q = as_nats(b@);
    let mut i: usize = 0;
    while i < a.len() || i < b.len()
        invariant
            p == as_nats(a@),
            q == as_nats(b@),
            newer(candidate@, current@) == above_from(p, q, i as int),
        decreases a.len() + b.len() - i,
    {
        let x: u64 = if i < a.len() {
            a[i]
        } else {
            0
        };
        let y: u64 = if i < b.len() {
            b[i]
        } else {
            0
        };
        assert(x == number_at(p, i as int) && y == number_at(q, i as int));
        if x != y {
            return x > y;
        }
        i = i + 1;
    }
    false
}

/// What the reply of the release service means.
pub fn release_status(status: u16, body: &Json, current: &str) -> (r: Result<UpdateStatus, String>)
    ensures
        match r {
            Ok(UpdateStatus::NoReleases) => status == 404 || is_success(status) && body@.text_at(
                "tag_name"@,
            ) is None,
            Ok(UpdateStatus::Available { current: c, latest }) => is_success(status)
                && body@.text_at("tag_name"@) == Some(latest@) && c@ == current@ && newer(
                latest@,
                current@,
            ),
            Ok(UpdateStatus::UpToDate { version }) => is_success(status) && version@ == current@
                && body@.text_at("tag_name"@) is Some && !newer(
                body@.text_at("tag_name"@)->0,
                current@,
            ),
            Err(e) => status != 404 && !is_success(status) && e@ == "Update check failed: HTTP "@
                + decimal(status as nat),
        },
{
    if status == 404 {
        return Ok(UpdateStatus::NoReleases);
    }
    if !succeeded(status) {
        return Err(
            "Update check failed: HTTP ".to_owned().concat(to_decimal(status as u64).as_str()),
        );
    }
    match body.text_at("tag_name") {
        Some(tag) => if is_newer(tag.as_str(), current) {
            Ok(UpdateStatus::Available { current: current.to_owned(), latest: tag.clone() })
        } else {
            Ok(UpdateStatus::UpToDate { version: current.to_owned() })
        },
        None => Ok(UpdateStatus::NoReleases),
    }
}

// --------------------------------------------------------------------------- laws

proof fn not_above_itself(a: Seq<nat>, i: int)
    ensures
        !above_from(a, a, i),
    decreases a.len() + a.len() - i,
{
    if i < a.len() {
        not_above_itself(a, i + 1);
    }
}

/// No version is newer than itself.
pub proof fn no_version_is_newer_than_itself(s: Seq<char>)
    ensures
        !newer(s, s),
{
    not_above_itself(version_numbers(s), 0);
}

proof fn not_above_both_ways(a: Seq<nat>, b: Seq<nat>, i: int)
    ensures
        !(above_from(a, b, i) && above_from(b, a, i)),
    decreases a.len() + b.len() - i,
{
    if i < a.len() || i < b.len() {
        not_above_both_ways(a, b, i + 1);
    }
}

/// Of two versions, at most one is newer than the other.
pub proof fn newer_goes_one_way(a: Seq<char>, b: Seq<char>)
    requires
        newer(a, b),
    ensures
        !newer(b, a),
{
    not_above_both_ways(version_numbers(a), version_numbers(b), 0);
}

proof fn zeros_are_not_above(a: Seq<nat>, b: Seq<nat>, i: int)
    requires
        i >= a.len(),
    ensures
        !above_from(a, b, i),
    decreases a.len() + b.len() - i,
{
    if i < b.len() {
        zeros_are_not_above(a, b, i + 1);
    }
}

proof fn above_is_transitive(a: Seq<nat>, b: Seq<nat>, c: Seq<nat>, i: int)
    requires
        above_from(a, b, i),
        above_from(b, c, i),
    ensures
        above_from(a, c, i),
    decreases a.len() + b.len() + c.len() - i,
{
    if i >= a.len() {
        zeros_are_not_above(a, b, i);
    }
    if i >= b.len() {
        zeros_are_not_above(b, c, i);
    }
    if number_at(a, i) == number_at(b, i) && number_at(b, i) == number_at(c, i) {
        above_is_transitive(a, b, c, i + 1);
    }
}

/// A version newer than a newer one is newer.
pub proof fn newer_is_transitive(a: Seq<char>, b: Seq<char>, c: Seq<char>)
    requires
        newer(a, b),
        newer(b, c),
    ensures
        newer(a, c),
{
    above_is_transitive(version_numbers(a), version_numbers(b), version_numbers(c), 0);
}

proof fn front_of_longer(s: Seq<char>, rest: Seq<char>, p: spec_fn(char) -> bool)
    requires
        rest.len() > 0,
        !p(rest[0]),
    ensures
        trim_front(s + rest, p) == trim_front(s, p) + rest,
    decreases s.len(),
{
    if s.len() == 0 {
        assert(s + rest =~= rest);
    } else if p(s[0]) {
        assert((s + rest).drop_first() =~= s.drop_first() + rest);
        front_of_longer(s.drop_first(), rest, p);
    }
}

proof fn a_zero_is_one_number_more(s: Seq<char>)
    ensures
        version_numbers(s + ".0"@) == version_numbers(s).push(0),
{
    let v = |c: char| c == 'v';
    let p = |c: char| is_version_break(c);
    let number = |part: Seq<char>| segment_number(part);
    reveal_strlit(".0");
    assert(".0"@ =~= seq!['.', '0']);
    front_of_longer(s, ".0"@, v);
    let bare = trim_front(s, v);
    let longer = bare + ".0"@;
    let empty = Seq::<char>::empty();
    assert(longer.drop_last() =~= bare.push('.'));
    assert(bare.push('.').drop_last() =~= bare);
    assert(split_by(bare.push('.'), p) == split_by(bare, p).push(empty));
    assert(split_by(longer, p) =~= split_by(bare, p).push(empty.push('0')));
    assert(segment_number(empty.push('0')) == 0) by {
        reveal_with_fuel(digits_value, 2);
        assert(empty.push('0').drop_last() =~= empty);
    }
    assert(split_by(longer, p).map_values(number) =~= split_by(bare, p).map_values(number).push(0));
}

/// Only the numbers that are not beyond the end count.
proof fn a_zero_more_is_as_new(a: Seq<nat>, b: Seq<nat>, i: int)
    requires
        i >= 0,
    ensures
        above_from(a.push(0), b, i) == above_from(a, b, i),
        above_from(b, a.push(0), i) == above_from(b, a, i),
    decreases a.len() + b.len() + 1 - i,
{
    assert(number_at(a.push(0), i) == number_at(a, i));
    if i <= a.len() || i < b.len() {
        a_zero_more_is_as_new(a, b, i + 1);
    }
}

/// A version is as new with a segment of zero more: `1.2` and `1.2.0` are the same.
pub proof fn a_zero_behind_changes_nothing(candidate: Seq<char>, current: Seq<char>)
    ensures
        newer(candidate + ".0"@, current) == newer(candidate, current),
        newer(candidate, current + ".0"@) == newer(candidate, current),
{
    a_zero_is_one_number_more(candidate);
    a_zero_is_one_number_more(current);
    a_zero_more_is_as_new(version_numbers(candidate), version_numbers(current), 0);
    a_zero_more_is_as_new(version_numbers(current), version_numbers(candidate), 0);
}

/// A version is newer where the first number in which the two differ is larger.
pub proof fn the_first_difference_decides(candidate: Seq<char>, current: Seq<char>, i: int)
    requires
        0 <= i,
        forall|k: int|
            0 <= k < i ==> #[trigger] number_at(version_numbers(candidate), k) == number_at(
                version_numbers(current),
                k,
            ),
        number_at(version_numbers(candidate), i) != number_at(version_numbers(current), i),
    ensures
        newer(candidate, current) <==> number_at(version_numbers(candidate), i) > number_at(
            version_numbers(current),
            i,
        ),
{
    differs_first_at(version_numbers(candidate), version_numbers(current), 0, i);
}

proof fn differs_first_at(a: Seq<nat>, b: Seq<nat>, from: int, i: int)
    requires
        0 <= from <= i,
        forall|k: int| from <= k < i ==> #[trigger] number_at(a, k) == number_at(b, k),
        number_at(a, i) != number_at(b, i),
    ensures
        above_from(a, b, from) <==> number_at(a, i) > number_at(b, i),
    decreases i - from,
{
    if from < i {
        assert(number_at(a, from) == number_at(b, from));
        differs_first_at(a, b, from + 1, i);
    }
}

/// The numbers of a version are those that are written in it, one after each dot, and a leading
/// letter does not count.
#[verifier::spinoff_prover]
pub proof fn a_version_has_the_numbers_written(s: Seq<char>, n: nat)
    requires
        n <= u64::MAX,
    ensures
        version_numbers(s + seq!['.'] + decimal(n)) == version_numbers(s).push(n),
        version_numbers(decimal(n)) == seq![n],
        version_numbers(seq!['v'] + decimal(n)) == seq![n],
{
    let v = |c: char| c == 'v';
    let p = |c: char| is_version_break(c);
    let f = |part: Seq<char>| segment_number(part);
    let digits = decimal(n);
    decimal_is_number(n);
    assert forall|i: int| 0 <= i < digits.len() implies !p(#[trigger] digits[i]) by {
        assert(is_digit(digits[i]));
    }
    assert(segment_number(digits) == n);
    let rest = seq!['.'] + digits;
    assert(s + seq!['.'] + digits =~= s + rest);
    front_of_longer(s, rest, v);
    let front = trim_front(s, v);
    assert(front + rest =~= front + seq!['.'] + digits);
    splitting_goes_piece_by_piece(front, '.', digits, p);
    assert(split_by(front, p).push(digits).map_values(f) =~= split_by(front, p).map_values(
        f,
    ).push(n));
    assert(is_digit(digits[0]));
    assert(trim_front(digits, v) == digits);
    let written = seq!['v'] + digits;
    assert(written.drop_first() =~= digits);
    assert(trim_front(written, v) == digits);
    split_of_one_piece(digits, p);
    assert(split_by(digits, p).map_values(f) =~= seq![n]);
}

} // verus!
