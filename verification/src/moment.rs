//! The present moment, and moments written as text.
use vstd::prelude::*;
use crate::text::is_digit;
use crate::time::{MICROSECOND, Time};

verus! {

/// What follows the year in a moment written to the millisecond.
pub const MILLIS_FORM: &'static str = "-00-00T00:00:00.000Z";

/// What follows the year in date and time of day written for a name.
pub const STAMP_FORM: &'static str = "0000-000000";

/// The same, with milliseconds.
pub const MILLIS_STAMP_FORM: &'static str = "0000-000000-000";

/// Whether a text has a form, in which `0` stands for any digit and everything else for
/// itself.
pub open spec fn fits(s: Seq<char>, form: Seq<char>) -> bool {
    &&& s.len() == form.len()
    &&& forall|i: int|
        0 <= i < s.len() ==> if form[i] == '0' {
            is_digit(#[trigger] s[i])
        } else {
            s[i] == form[i]
        }
}

/// Whether a text is a year as moments are written with: four digits, or, outside of the
/// years 0 to 9999, a sign and four digits or more.
pub open spec fn is_year(s: Seq<char>) -> bool {
    let first = if s.len() == 4 {
        0int
    } else {
        1int
    };
    &&& s.len() >= 4
    &&& s.len() > 4 ==> s[0] == '+' || s[0] == '-'
    &&& forall|i: int| first <= i < s.len() ==> is_digit(#[trigger] s[i])
}

/// Whether a text is a year followed by the rest of a written moment.
pub open spec fn is_moment(s: Seq<char>, form: Seq<char>) -> bool {
    let year = s.len() - form.len();
    &&& year >= 4
    &&& is_year(s.take(year))
    &&& fits(s.skip(year), form)
}

/// Whether a text is a moment of UTC with its offset, and as many digits behind the second
/// as the moment needs: none, three, six or nine.
pub open spec fn is_utc_moment(s: Seq<char>) -> bool {
    ||| is_moment(s, "-00-00T00:00:00+00:00"@)
    ||| is_moment(s, "-00-00T00:00:00.000+00:00"@)
    ||| is_moment(s, "-00-00T00:00:00.000000+00:00"@)
    ||| is_moment(s, "-00-00T00:00:00.000000000+00:00"@)
}

/// `chrono::Utc::now` written by `to_rfc3339_opts` with milliseconds and `Z`. Whatever the
/// time, the text is the year, then month, day, hour, minute and second with two digits each,
/// and the milliseconds with three.
#[verifier::external_body]
pub(crate) fn now_millis_text() -> (r: String)
    ensures
        is_moment(r@, MILLIS_FORM@),
{
    chrono::Utc::now().to_rfc3339_opts(chrono::SecondsFormat::Millis, true)
}

/// `chrono::Utc::now` written by `to_rfc3339`. Whatever the time, the text is the year, then
/// month, day, hour, minute and second with two digits each, the part of a second with three,
/// six or nine digits or left out, and the offset of UTC.
#[verifier::external_body]
pub(crate) fn now_text() -> (r: String)
    ensures
        is_utc_moment(r@),
{
    chrono::Utc::now().to_rfc3339()
}

/// `chrono::Utc::now` written with `format` as date and time of day. Whatever the time, the
/// year is followed by month and day, a hyphen, and hour, minute and second, each with two
/// digits.
#[verifier::external_body]
pub(crate) fn now_stamp() -> (r: String)
    ensures
        is_moment(r@, STAMP_FORM@),
{
    chrono::Utc::now().format("%Y%m%d-%H%M%S").to_string()
}

/// `chrono::Utc::now` written with `format` as date, time of day and milliseconds. Whatever
/// the time, the year is followed by month and day, a hyphen, hour, minute and second, each
/// with two digits, and behind another hyphen three digits.
#[verifier::external_body]
pub(crate) fn now_millis_stamp() -> (r: String)
    ensures
        is_moment(r@, MILLIS_STAMP_FORM@),
{
    chrono::Utc::now().format("%Y%m%d-%H%M%S-%3f").to_string()
}

/// `chrono::Utc::now` as microseconds since 1970. Nothing is claimed of the number, which
/// depends on the time alone.
#[verifier::external_body]
fn now_micros() -> (r: i64) {
    chrono::Utc::now().timestamp_micros()
}

/// What `chrono::DateTime::parse_from_rfc3339` reads out of a text, as microseconds since
/// 1970.
pub uninterp spec fn rfc3339_micros(text: Seq<char>) -> Option<i64>;

/// `chrono::DateTime::parse_from_rfc3339` and `timestamp_micros`. The outcome depends on
/// the text alone.
#[verifier::external_body]
fn parse_rfc3339(text: &str) -> (r: Option<i64>)
    ensures
        r == rfc3339_micros(text@),
{
    chrono::DateTime::parse_from_rfc3339(text).ok().map(|moment| moment.timestamp_micros())
}

/// `2026-07-23T12:14:23.794Z`: the present moment to the millisecond.
pub fn timestamp() -> (r: String)
    ensures
        is_moment(r@, MILLIS_FORM@),
        has_timestamp_marks(r@),
{
    let r = now_millis_text();
    proof {
        a_timestamp_has_its_marks(r@);
    }
    r
}

/// Whether the marks of a timestamp stand where they belong, and digits everywhere else, but
/// for the sign of a year outside of 0 to 9999. Places are counted from the end.
pub open spec fn has_timestamp_marks(s: Seq<char>) -> bool {
    let n = s.len() as int;
    &&& n >= 24
    &&& s[n - 20] == '-' && s[n - 17] == '-' && s[n - 14] == 'T'
    &&& s[n - 11] == ':' && s[n - 8] == ':' && s[n - 5] == '.' && s[n - 1] == 'Z'
    &&& forall|i: int|
        0 <= i < n ==> is_digit(#[trigger] s[i]) || i == n - 20 || i == n - 17 || i == n - 14
            || i == n - 11 || i == n - 8 || i == n - 5 || i == n - 1 || (i == 0 && n > 24 && (s[0]
            == '+' || s[0] == '-'))
}

/// A moment written to the millisecond reads the same from the end whatever its year is.
pub proof fn a_timestamp_has_its_marks(s: Seq<char>)
    requires
        is_moment(s, MILLIS_FORM@),
    ensures
        has_timestamp_marks(s),
{
    reveal_strlit("-00-00T00:00:00.000Z");
    let n = s.len() as int;
    let year = n - 20;
    let rest = s.skip(year);
    assert forall|i: int| 0 <= i < 20 implies rest[i] == s[n - 20 + i] by {}
    assert(rest[0] == '-' && rest[3] == '-' && rest[6] == 'T' && rest[9] == ':');
    assert(rest[12] == ':' && rest[15] == '.' && rest[19] == 'Z');
    assert forall|i: int| 0 <= i < n implies is_digit(#[trigger] s[i]) || i == n - 20 || i == n - 17
        || i == n - 14 || i == n - 11 || i == n - 8 || i == n - 5 || i == n - 1 || (i == 0 && n > 24
        && (s[0] == '+' || s[0] == '-')) by {
        if i < year {
            assert(s.take(year)[i] == s[i]);
        } else {
            assert(rest[i - year] == s[i]);
        }
    }
}

/// A moment written for a name is made of digits and signs alone.
pub proof fn a_stamp_is_digits_and_signs(s: Seq<char>, form: Seq<char>)
    requires
        is_moment(s, form),
        form == STAMP_FORM@ || form == MILLIS_STAMP_FORM@,
    ensures
        s.len() >= 15,
        forall|i: int|
            0 <= i < s.len() ==> is_digit(#[trigger] s[i]) || s[i] == '-' || s[i] == '+',
{
    reveal_strlit("0000-000000");
    reveal_strlit("0000-000000-000");
    let year = s.len() - form.len();
    assert forall|i: int| 0 <= i < s.len() implies is_digit(#[trigger] s[i]) || s[i] == '-' || s[i]
        == '+' by {
        if i < year {
            assert(s.take(year)[i] == s[i]);
        } else {
            assert(s.skip(year)[i - year] == s[i]);
        }
    }
}

/// One line of the log: plain text, with the moment in square brackets.
pub open spec fn log_text(stamp: Seq<char>, message: Seq<char>) -> Seq<char> {
    "["@ + stamp + "] "@ + message + "\n"@
}

/// The line that a message becomes in the log.
///
/// The file must stay plain text: it is searched for literal markers like
/// `Shortcut registered:`.
pub fn log_line(stamp: &str, message: &str) -> (r: String)
    ensures
        r@ == log_text(stamp@, message@),
{
    "[".to_owned().concat(stamp).concat("] ").concat(message).concat("\n")
}

/// The time of whole milliseconds from `started` to `now`, which count microseconds, and
/// never less than nothing. Nothing where the start is unknown.
pub open spec fn elapsed_from(started: Option<i64>, now: i64) -> int {
    match started {
        Some(t) => if now > t {
            (now - t) / 1000 * 1000 * MICROSECOND
        } else {
            0
        },
        None => 0,
    }
}

pub fn elapsed_between(started: Option<i64>, now: i64) -> (r: Time)
    ensures
        r == elapsed_from(started, now),
{
    match started {
        Some(t) => {
            let d: i128 = now as i128 - t as i128;
            if d > 0 {
                d / 1000 * 1000 * MICROSECOND
            } else {
                0
            }
        },
        None => 0,
    }
}

/// How long ago a written moment was. A text that is no moment counts as now.
pub fn elapsed_since(started: &str) -> (r: Time)
    ensures
        r >= 0,
        rfc3339_micros(started@) is None ==> r == 0,
        exists|now: i64| r == #[trigger] elapsed_from(rfc3339_micros(started@), now),
{
    let now = now_micros();
    let r = elapsed_between(parse_rfc3339(started), now);
    assert(r == elapsed_from(rfc3339_micros(started@), now));
    r
}

/// The time that has passed since a start is counted in whole milliseconds, and never below
/// none.
pub proof fn elapsed_time_is_what_has_passed(started: i64, now: i64)
    ensures
        now >= started ==> 0 <= (now - started) * MICROSECOND - elapsed_from(Some(started), now)
            < 1000 * MICROSECOND,
        now < started ==> elapsed_from(Some(started), now) == 0,
        elapsed_from(Some(started), now) % (1000 * MICROSECOND) == 0,
{
    let d = now - started;
    if now > started {
        assert(d / 1000 * 1000 * MICROSECOND % (1000 * MICROSECOND) == 0) by (nonlinear_arith)
            requires
                MICROSECOND == 1_000_000_000_000,
        ;
    }
}

/// A line of a log holds its moment in brackets and then the message, and ends the line.
pub proof fn a_log_line_holds_its_message(stamp: Seq<char>, message: Seq<char>)
    ensures
        ({
            let line = log_text(stamp, message);
            let n = stamp.len() as int;
            &&& line.len() == n + message.len() + 4
            &&& line[0] == '['
            &&& line.subrange(1, n + 1) == stamp
            &&& line[n + 1] == ']' && line[n + 2] == ' '
            &&& line.subrange(n + 3, n + 3 + message.len()) == message
            &&& line.last() == '\n'
        }),
{
    reveal_strlit("[");
    reveal_strlit("] ");
    reveal_strlit("\n");
    let line = log_text(stamp, message);
    let n = stamp.len() as int;
    assert(line.subrange(1, n + 1) =~= stamp);
    assert(line.subrange(n + 3, n + 3 + message.len()) =~= message);
}

} // verus!
