//! The four files a finished meeting leaves behind.
//!
//! Every claim about quality here is derived from something measured: job elapsed time,
//! timestamp coverage against the audio's own duration, segment and label counts. Nothing
//! invents an accuracy percentage, because nothing here can know one: language detection
//! says which language was heard, not whether the words are right.
use vstd::prelude::*;
use crate::number::{decimal, to_decimal};
use crate::order::{sorted, without_repeats};
use crate::sarvam_batch::Mode;
use crate::state::{ActiveMeeting, SourceLevel};
use crate::summary::{ActionItem, ActionItemView, Analysis, AnalysisView, Confidence, action_list};
use crate::text::{
    copy_list, copy_opt, has, is_space, join, join_texts, joining_keeps_every_part, opt_text,
    part_of_a_part, stands_at, stands_in_itself, stands_inside, stays_behind, stays_in_front, texts, texts_of_push, trim, trimmed,
    trimming_keeps_what_is_not_blank_at_its_ends,
};
use crate::time::{Time, clock, clock_text};
use crate::transcription::{
    Segment, SegmentView, Transcription, TranscriptionView, first_start, label_or_unknown, labels,
    last_end, overlaps, segment_list, shown_label, span,
};
use crate::wav::{LONGEST, WavInfo};

verus! {

broadcast use texts_of_push;

pub const NOTE_FILE: &'static str = "meeting-note.md";

pub const DIARIZED_FILE: &'static str = "full-diarized-transcript.md";

pub const PLAIN_FILE: &'static str = "full-transcript.txt";

pub const METADATA_FILE: &'static str = "processing-metadata.json";

/// Everything needed to write the deliverables.
pub struct Deliverable<'a> {
    pub meeting: &'a ActiveMeeting,
    pub audio: WavInfo,
    pub transcription: &'a Transcription,
    pub analysis: Option<&'a Analysis>,
    pub mode: Mode,
    pub batch_elapsed: Time,
    pub job_id: String,
    pub partial: bool,
    pub failed_inputs: Vec<String>,
}

// -------------------------------------------------------------------------- trust

/// A part of a whole, between nothing and all of it.
#[derive(Debug, Clone, Copy, PartialEq, Eq, Structural)]
pub struct Fraction {
    pub part: Time,
    pub whole: Time,
}

/// How much of the audio the timestamps span: the last one, held within the audio, against
/// its length. `None` where either is unknown.
pub open spec fn covered(segments: Seq<SegmentView>, length: int) -> Option<(int, int)> {
    match span(segments) {
        Some((_, last)) => if length <= 0 {
            None
        } else if last < 0 {
            Some((0, length))
        } else if last > length {
            Some((length, length))
        } else {
            Some((last, length))
        },
        None => None,
    }
}

/// How much of the audio the transcript's timestamps actually span.
///
/// A transcript that stops 40 minutes into a 60-minute recording is the clearest sign
/// something went wrong, and it is invisible unless measured.
pub fn coverage_fraction(transcription: &Transcription, audio: &WavInfo) -> (r: Option<Fraction>)
    ensures
        match r {
            Some(f) => covered(transcription@.segments, audio.length()) == Some(
                (f.part as int, f.whole as int),
            ),
            None => covered(transcription@.segments, audio.length()) is None,
        },
        r is Some ==> 0 <= r->0.part <= r->0.whole <= LONGEST,
{
    let whole = audio.duration();
    match transcription.coverage() {
        Some((_, last)) => if whole <= 0 {
            None
        } else if last < 0 {
            Some(Fraction { part: 0, whole })
        } else if last > whole {
            Some(Fraction { part: whole, whole })
        } else {
            Some(Fraction { part: last, whole })
        },
        None => None,
    }
}

/// How far the output can be trusted, based only on measured properties.
#[derive(Debug, Clone, Copy, PartialEq, Eq, Structural)]
pub enum Trust {
    /// Themes only. Something measurable is off.
    HighLevelOnly,
    /// Timestamped discussion points, once spot-checked.
    Medium,
}

impl Trust {
    pub open spec fn name(self) -> Seq<char> {
        match self {
            Trust::HighLevelOnly => "high-level only"@,
            Trust::Medium => "medium"@,
        }
    }

    pub fn label(&self) -> (r: &'static str)
        ensures
            r@ == self.name(),
    {
        match self {
            Trust::HighLevelOnly => "high-level only",
            Trust::Medium => "medium",
        }
    }
}

/// `100 * part / whole` to the nearest whole number, and to the even one of two that are
/// equally near.
pub open spec fn percent(part: int, whole: int) -> nat {
    let down = 100 * part / whole;
    let rest = 100 * part % whole;
    if 2 * rest > whole || 2 * rest == whole && down % 2 == 1 {
        (down + 1) as nat
    } else {
        down as nat
    }
}

fn to_percent(part: Time, whole: Time) -> (r: u64)
    requires
        0 <= part <= whole <= LONGEST,
        0 < whole,
    ensures
        r == percent(part as int, whole as int),
{
    let base: u128 = whole as u128;
    let tens: u128 = part as u128 * 10 / base;
    let left: u128 = part as u128 * 10 % base;
    let ones: u128 = left * 10 / base;
    let rest: u128 = left * 10 % base;
    proof {
        assert(tens <= 10 && ones < 10) by (nonlinear_arith)
            requires
                part * 10 <= 10 * base,
                left < base,
                base > 0,
                tens == part * 10 / (base as int),
                ones == left * 10 / (base as int),
        ;
        percent_in_steps(part as int, whole as int);
    }
    let down: u128 = tens * 10 + ones;
    if 2 * rest > base || 2 * rest == base && down % 2 == 1 {
        (down + 1) as u64
    } else {
        down as u64
    }
}

/// A division of a hundred times a part is made of two, of ten times the part and of ten times
/// what that leaves.
proof fn percent_in_steps(part: int, whole: int)
    requires
        part >= 0,
        whole > 0,
    ensures
        ({
            let left = part * 10 % whole;
            &&& 100 * part / whole == part * 10 / whole * 10 + left * 10 / whole
            &&& 100 * part % whole == left * 10 % whole
        }),
{
    let tens = part * 10 / whole;
    let left = part * 10 % whole;
    let ones = left * 10 / whole;
    let rest = left * 10 % whole;
    vstd::arithmetic::div_mod::lemma_fundamental_div_mod(part * 10, whole);
    vstd::arithmetic::div_mod::lemma_fundamental_div_mod(left * 10, whole);
    assert(100 * part == (tens * 10 + ones) * whole + rest) by (nonlinear_arith)
        requires
            part * 10 == whole * tens + left,
            left * 10 == whole * ones + rest,
    ;
    vstd::arithmetic::div_mod::lemma_fundamental_div_mod_converse(
        100 * part,
        whole,
        tens * 10 + ones,
        rest,
    );
}

/// A list of one text, or none.
pub open spec fn one_if(condition: bool, text: Seq<char>) -> Seq<Seq<char>> {
    if condition {
        seq![text]
    } else {
        Seq::<Seq<char>>::empty()
    }
}

/// Whether the timestamps stop before nine tenths of the recording.
pub open spec fn stops_early(coverage: Option<(int, int)>) -> bool {
    match coverage {
        Some((part, whole)) => part * 10 < whole * 9,
        None => false,
    }
}

pub open spec fn coverage_reason(coverage: Option<(int, int)>) -> Seq<char> {
    match coverage {
        Some((part, whole)) => "timestamps cover only "@ + decimal(percent(part, whole))
            + "% of the recording"@,
        None => "segments carry no timestamps, so coverage is unknown"@,
    }
}

pub open spec fn overlap_reason(segments: Seq<SegmentView>) -> Seq<char> {
    decimal(overlaps(segments)) + " of "@ + decimal(segments.len())
        + " segments overlap, which lowers attribution confidence"@
}

/// What was measured to be off, in the order in which it is told.
pub open spec fn concerns(segments: Seq<SegmentView>, length: int, partial: bool) -> Seq<
    Seq<char>,
> {
    let coverage = covered(segments, length);
    one_if(partial, "the transcription job only partly completed"@) + one_if(
        segments.len() == 0,
        "no diarized segments came back, so nothing is attributable"@,
    ) + one_if(
        stops_early(coverage) || coverage is None && segments.len() > 0,
        coverage_reason(coverage),
    ) + one_if(
        segments.len() > 0 && overlaps(segments) * 4 > segments.len(),
        overlap_reason(segments),
    )
}

/// The level that concerns leave: only two levels, and never a number.
pub open spec fn trust_level(reasons: Seq<Seq<char>>) -> Trust {
    if reasons.len() == 0 {
        Trust::Medium
    } else {
        Trust::HighLevelOnly
    }
}

/// Classifies without inventing precision.
///
/// A readable transcript can still corrupt names, amounts and commitments, and no
/// measurement available here distinguishes that.
pub fn trust(transcription: &Transcription, audio: &WavInfo, partial: bool) -> (r: (
    Trust,
    Vec<String>,
))
    ensures
        texts(r.1@) == concerns(transcription@.segments, audio.length(), partial),
        r.0 == trust_level(concerns(transcription@.segments, audio.length(), partial)),
{
    let ghost segments = transcription@.segments;
    let ghost coverage = covered(segments, audio.length());
    let mut reasons: Vec<String> = Vec::new();
    assert(texts(reasons@) =~= Seq::<Seq<char>>::empty());
    if partial {
        reasons.push("the transcription job only partly completed".to_owned());
    }
    let ghost first = one_if(partial, "the transcription job only partly completed"@);
    assert(texts(reasons@) =~= first);
    if transcription.segments.len() == 0 {
        reasons.push("no diarized segments came back, so nothing is attributable".to_owned());
    }
    let ghost second = first + one_if(
        segments.len() == 0,
        "no diarized segments came back, so nothing is attributable"@,
    );
    assert(texts(reasons@) =~= second);
    match coverage_fraction(transcription, audio) {
        Some(f) => {
            if f.part as u128 * 10 < f.whole as u128 * 9 {
                reasons.push(
                    "timestamps cover only ".to_owned().concat(
                        to_decimal(to_percent(f.part, f.whole)).as_str(),
                    ).concat("% of the recording"),
                );
            }
        },
        None => {
            if transcription.segments.len() > 0 {
                reasons.push("segments carry no timestamps, so coverage is unknown".to_owned());
            }
        },
    }
    let ghost third = second + one_if(
        stops_early(coverage) || coverage is None && segments.len() > 0,
        coverage_reason(coverage),
    );
    assert(texts(reasons@) =~= third);
    let count = transcription.segments.len();
    let overlapping = transcription.overlapping_segments();
    if count > 0 && overlapping as u128 * 4 > count as u128 {
        reasons.push(
            to_decimal(overlapping as u64).concat(" of ").concat(
                to_decimal(count as u64).as_str(),
            ).concat(" segments overlap, which lowers attribution confidence"),
        );
    }
    assert(texts(reasons@) =~= concerns(segments, audio.length(), partial));
    assert(texts(reasons@).len() == reasons.len());
    let level = if reasons.len() == 0 {
        Trust::Medium
    } else {
        Trust::HighLevelOnly
    };
    (level, reasons)
}

/// The caveat for a level and the concerns behind it.
pub open spec fn caveat_text(reasons: Seq<Seq<char>>) -> Seq<char> {
    let text = "**Quality: "@ + trust_level(reasons).name()
        + ".** Speaker labels are generic and were not matched to people. Timestamps are phrase-level, not word-level. Language detection reports which language was heard, not whether the words are correct. Names, numbers, amounts, deadlines and ownership need checking against the audio before being relied on."@;
    if reasons.len() == 0 {
        text
    } else {
        text + "\n\nMeasured concerns: "@ + join(reasons, "; "@) + "."@
    }
}

/// The caveat that goes on every note.
pub fn caveat(transcription: &Transcription, audio: &WavInfo, partial: bool) -> (r: String)
    ensures
        r@ == caveat_text(concerns(transcription@.segments, audio.length(), partial)),
{
    let (level, reasons) = trust(transcription, audio, partial);
    let text = "**Quality: ".to_owned().concat(level.label()).concat(
        ".** Speaker labels are generic and were not matched to people. Timestamps are phrase-level, not word-level. Language detection reports which language was heard, not whether the words are correct. Names, numbers, amounts, deadlines and ownership need checking against the audio before being relied on.",
    );
    assert(texts(reasons@).len() == reasons.len());
    if reasons.len() == 0 {
        text
    } else {
        text.concat("\n\nMeasured concerns: ").concat(
            join_texts(&reasons, "; ").as_str(),
        ).concat(".")
    }
}

/// A job that only partly completed is never trusted beyond its themes, and neither is one
/// whose segments cannot be attributed.
pub proof fn a_partial_job_is_never_trusted(segments: Seq<SegmentView>, length: int, partial: bool)
    requires
        partial || segments.len() == 0,
    ensures
        trust_level(concerns(segments, length, partial)) == Trust::HighLevelOnly,
{
}

// ------------------------------------------------------------------------ outline

/// The segments that carry a start.
pub open spec fn timed(segments: Seq<SegmentView>) -> Seq<SegmentView>
    decreases segments.len(),
{
    if segments.len() == 0 {
        segments
    } else {
        let before = timed(segments.drop_last());
        if segments.last().start is Some {
            before.push(segments.last())
        } else {
            before
        }
    }
}

/// `a / b` rounded up.
pub open spec fn rounded_up(a: nat, b: nat) -> nat {
    ((a + b - 1) / (b as int)) as nat
}

/// `**m:ss** LABEL: words`.
pub open spec fn point(s: SegmentView) -> Seq<char> {
    "**"@ + clock_text(s.start->0 as int) + "** "@ + shown_label(s.speaker) + ": "@ + s.text
}

/// Every n-th of the timed segments, for the smallest n that leaves at most `limit`.
pub open spec fn points(segments: Seq<SegmentView>, limit: nat) -> Seq<Seq<char>> {
    let all = timed(segments);
    if all.len() == 0 || limit == 0 {
        Seq::<Seq<char>>::empty()
    } else {
        let step = rounded_up(all.len(), limit);
        Seq::new(rounded_up(all.len(), step), |i: int| point(all[i * step]))
    }
}

/// Rounding up is the smallest number that covers.
proof fn rounding_up_covers(a: nat, b: nat)
    requires
        b > 0,
    ensures
        rounded_up(a, b) * b >= a,
        a > 0 ==> (rounded_up(a, b) - 1) * b < a,
        a > 0 ==> rounded_up(a, b) > 0,
{
    let d = b as int;
    let n = a + b - 1;
    vstd::arithmetic::div_mod::lemma_fundamental_div_mod(n, d);
    vstd::arithmetic::div_mod::lemma_mod_bound(n, d);
    let q = n / d;
    assert(n == d * q + n % d);
    assert(q >= 0) by (nonlinear_arith)
        requires
            n == d * q + n % d,
            0 <= n % d < d,
            n >= 0,
            d > 0,
    ;
    assert(q * d == d * q) by (nonlinear_arith);
    assert((q - 1) * d == d * q - d) by (nonlinear_arith);
    if a > 0 && q == 0 {
        assert(d * q == 0) by (nonlinear_arith)
            requires
                q == 0,
        ;
    }
}

/// The only number that covers and is the smallest to do so.
proof fn rounding_up_is(a: nat, b: nat, n: nat)
    requires
        b > 0,
        a > 0,
        n * b >= a,
        (n - 1) * b < a,
    ensures
        n == rounded_up(a, b),
{
    rounding_up_covers(a, b);
    let m = rounded_up(a, b);
    if n < m {
        assert(n * b <= (m - 1) * b) by (nonlinear_arith)
            requires
                n <= m - 1,
                b > 0,
        ;
    }
    if m < n {
        assert(m * b <= (n - 1) * b) by (nonlinear_arith)
            requires
                m <= n - 1,
                b > 0,
        ;
    }
}

/// A long meeting yields a readable outline: never more points than asked for.
pub proof fn an_outline_stays_within_its_limit(segments: Seq<SegmentView>, limit: nat)
    ensures
        points(segments, limit).len() <= limit,
{
    let n = timed(segments).len();
    if n > 0 && limit > 0 {
        let step = rounded_up(n, limit);
        rounding_up_covers(n, limit);
        rounding_up_covers(n, step);
        let count = rounded_up(n, step);
        if count > limit {
            assert((count - 1) * step >= limit * step) by (nonlinear_arith)
                requires
                    count - 1 >= limit,
                    step >= 0,
            ;
            assert(limit * step == step * limit) by (nonlinear_arith);
        }
    }
}

fn write_point(segment: &Segment, start: Time) -> (r: String)
    requires
        segment.start == Some(start),
    ensures
        r@ == point(segment@),
{
    "**".to_owned().concat(clock(start).as_str()).concat("** ").concat(
        label_or_unknown(&segment.speaker).as_str(),
    ).concat(": ").concat(segment.text.as_str())
}

/// How many segments carry a start.
fn count_timed(segments: &Vec<Segment>) -> (r: usize)
    ensures
        r == timed(segment_list(segments@)).len(),
{
    let ghost all = segment_list(segments@);
    let mut count: usize = 0;
    let mut i: usize = 0;
    while i < segments.len()
        invariant
            i <= segments.len(),
            all == segment_list(segments@),
            count <= i,
            count == timed(all.take(i as int)).len(),
        decreases segments.len() - i,
    {
        assert(all.take(i + 1).drop_last() == all.take(i as int));
        assert(all.take(i + 1).last() == segments@[i as int]@);
        if segments[i].start.is_some() {
            count = count + 1;
        }
        i = i + 1;
    }
    assert(all.take(i as int) == all);
    count
}

/// Evenly spaced timestamped lines, so a long meeting yields a readable outline rather than
/// the whole transcript pasted twice.
pub fn timestamped_points(transcription: &Transcription, limit: usize) -> (r: Vec<String>)
    ensures
        texts(r@) == points(transcription@.segments, limit as nat),
        r@.len() <= limit,
{
    let segments = &transcription.segments;
    let ghost all = segment_list(segments@);
    let ghost marked = timed(all);
    let mut out: Vec<String> = Vec::new();
    assert(texts(out@) =~= Seq::<Seq<char>>::empty());
    proof {
        an_outline_stays_within_its_limit(all, limit as nat);
    }
    let total = count_timed(segments);
    if total == 0 || limit == 0 {
        return out;
    }
    let quotient: usize = total / limit;
    let rest: usize = total % limit;
    let ghost q = quotient as int;
    proof {
        vstd::arithmetic::div_mod::lemma_fundamental_div_mod(total as int, limit as int);
        if rest > 0 {
            assert(q < total) by (nonlinear_arith)
                requires
                    total == limit * q + rest,
                    0 < rest < limit,
                    q >= 0,
            ;
        }
    }
    let step: usize = if rest == 0 {
        quotient
    } else {
        quotient + 1
    };
    proof {
        assert(q * limit == limit * q) by (nonlinear_arith);
        assert((q + 1) * limit == limit * q + limit) by (nonlinear_arith);
        assert((q - 1) * limit == limit * q - limit) by (nonlinear_arith);
        rounding_up_is(total as nat, limit as nat, step as nat);
    }
    let ghost wanted = points(all, limit as nat);
    let ghost count = rounded_up(total as nat, step as nat);
    let mut seen: usize = 0;
    let mut next: usize = 0;
    let mut i: usize = 0;
    proof {
        rounding_up_covers(total as nat, limit as nat);
        rounding_up_covers(total as nat, step as nat);
        assert(0 * step == 0) by (nonlinear_arith);
    }
    assert(texts(out@) =~= wanted.take(0));
    while i < segments.len()
        invariant
            i <= segments.len(),
            all == segment_list(segments@),
            marked == timed(all),
            marked.len() == total,
            step == rounded_up(total as nat, limit as nat),
            step > 0,
            count == rounded_up(total as nat, step as nat),
            wanted == points(all, limit as nat),
            total > 0,
            limit > 0,
            wanted.len() == count,
            count * step >= total,
            (count - 1) * step < total,
            seen == timed(all.take(i as int)).len(),
            seen <= i,
            timed(all.take(i as int)).is_prefix_of(marked),
            out@.len() <= count,
            next < step,
            seen + next == out@.len() * step,
            texts(out@) == wanted.take(out@.len() as int),
        decreases segments.len() - i,
    {
        let ghost k = out@.len() as int;
        proof {
            assert(all.take(i + 1).drop_last() == all.take(i as int));
            assert(all.take(i + 1).last() == segments@[i as int]@);
            timed_keeps_prefix(all, i + 1);
        }
        if let Some(start) = segments[i].start {
            assert(timed(all.take(i + 1))[seen as int] == segments@[i as int]@);
            assert(marked[seen as int] == segments@[i as int]@);
            if next == 0 {
                proof {
                    assert(k * step == seen);
                    assert(k < count) by (nonlinear_arith)
                        requires
                            k * step == seen,
                            seen < total,
                            count * step >= total,
                            step > 0,
                    ;
                    assert(wanted[k] == point(marked[k * step]));
                    assert((k + 1) * step == k * step + step) by (nonlinear_arith);
                }
                out.push(write_point(&segments[i], start));
                assert(wanted.take(k + 1) =~= wanted.take(k).push(wanted[k]));
                next = step - 1;
            } else {
                next = next - 1;
            }
            seen = seen + 1;
        }
        i = i + 1;
    }
    proof {
        assert(all.take(i as int) == all);
        let k = out@.len() as int;
        assert(k == count) by (nonlinear_arith)
            requires
                total + next == k * step,
                next < step,
                k <= count,
                (count - 1) * step < total,
                step > 0,
        ;
        assert(wanted.take(k) =~= wanted);
        assert(texts(out@).len() == out@.len());
    }
    out
}

proof fn timed_keeps_prefix(all: Seq<SegmentView>, i: int)
    requires
        0 <= i <= all.len(),
    ensures
        timed(all.take(i)).is_prefix_of(timed(all)),
    decreases all.len(),
{
    if i == all.len() {
        assert(all.take(i) == all);
    } else {
        timed_keeps_prefix(all.drop_last(), i);
        assert(all.drop_last().take(i) == all.take(i));
    }
}

// --------------------------------------------------------------------------- note

pub open spec fn opt_analysis(a: Option<&Analysis>) -> Option<AnalysisView> {
    match a {
        Some(a) => Some(a@),
        None => None,
    }
}

/// One `- ` line for each text.
pub open spec fn bullets(lines: Seq<Seq<char>>) -> Seq<char>
    decreases lines.len(),
{
    if lines.len() == 0 {
        Seq::<char>::empty()
    } else {
        bullets(lines.drop_last()) + "- "@ + lines.last() + "\n"@
    }
}

fn write_bullets(lines: &Vec<String>) -> (r: String)
    ensures
        r@ == bullets(texts(lines@)),
{
    let ghost all = texts(lines@);
    let mut out = String::new();
    let mut i: usize = 0;
    assert(out@ =~= Seq::<char>::empty());
    while i < lines.len()
        invariant
            i <= lines.len(),
            all == texts(lines@),
            out@ == bullets(all.take(i as int)),
        decreases lines.len() - i,
    {
        assert(all.take(i + 1).drop_last() == all.take(i as int));
        assert(all.take(i + 1).last() == lines@[i as int]@);
        out.append("- ");
        out.append(lines[i].as_str());
        out.append("\n");
        i = i + 1;
    }
    assert(all.take(i as int) == all);
    out
}

/// A section with one line for each text. Nothing where there is none.
pub open spec fn list_section(heading: Seq<char>, lines: Seq<Seq<char>>) -> Seq<char> {
    if lines.len() == 0 {
        Seq::<char>::empty()
    } else {
        heading + bullets(lines) + "\n"@
    }
}

fn write_list_section(heading: &str, lines: &Vec<String>) -> (r: String)
    ensures
        r@ == list_section(heading@, texts(lines@)),
{
    assert(texts(lines@).len() == lines.len());
    if lines.len() == 0 {
        return String::new();
    }
    heading.to_owned().concat(write_bullets(lines).as_str()).concat("\n")
}

/// A section that says so where it has no lines.
pub open spec fn full_section(
    heading: Seq<char>,
    lines: Seq<Seq<char>>,
    otherwise: Seq<char>,
) -> Seq<char> {
    if lines.len() == 0 {
        heading + otherwise
    } else {
        list_section(heading, lines)
    }
}

fn write_full_section(heading: &str, lines: &Vec<String>, otherwise: &str) -> (r: String)
    ensures
        r@ == full_section(heading@, texts(lines@), otherwise@),
{
    assert(texts(lines@).len() == lines.len());
    if lines.len() == 0 {
        return heading.to_owned().concat(otherwise);
    }
    write_list_section(heading, lines)
}

/// Who a task is shown for. Never a name for anything short of an explicit assignment: that
/// is the difference between a note and a fabricated commitment.
pub open spec fn owner_text(item: ActionItemView) -> Seq<char> {
    match (item.owner, item.confidence) {
        (Some(owner), Confidence::Explicit) => " — **"@ + owner + "**"@,
        _ => " — _unassigned_"@,
    }
}

pub open spec fn due_text(item: ActionItemView) -> Seq<char> {
    match item.due_date {
        Some(date) => " (due "@ + date + ")"@,
        None => Seq::<char>::empty(),
    }
}

pub open spec fn action_line(item: ActionItemView) -> Seq<char> {
    "`"@ + item.confidence.name() + "` "@ + item.task + owner_text(item) + due_text(item)
}

pub open spec fn action_lines(items: Seq<ActionItemView>) -> Seq<Seq<char>> {
    Seq::new(items.len(), |i: int| action_line(items[i]))
}

fn write_action_line(item: &ActionItem) -> (r: String)
    ensures
        r@ == action_line(item@),
{
    let owner = match (&item.owner, item.confidence) {
        (Some(owner), Confidence::Explicit) => " — **".to_owned().concat(
            owner.as_str(),
        ).concat("**"),
        _ => " — _unassigned_".to_owned(),
    };
    let due = match &item.due_date {
        Some(date) => " (due ".to_owned().concat(date.as_str()).concat(")"),
        None => String::new(),
    };
    "`".to_owned().concat(item.confidence.as_str()).concat("` ").concat(
        item.task.as_str(),
    ).concat(owner.as_str()).concat(due.as_str())
}

fn write_action_lines(items: &Vec<ActionItem>) -> (r: Vec<String>)
    ensures
        texts(r@) == action_lines(action_list(items@)),
{
    let ghost all = action_lines(action_list(items@));
    let mut lines: Vec<String> = Vec::new();
    let mut i: usize = 0;
    assert(texts(lines@) =~= all.take(0));
    while i < items.len()
        invariant
            i <= items.len(),
            all == action_lines(action_list(items@)),
            texts(lines@) == all.take(i as int),
        decreases items.len() - i,
    {
        lines.push(write_action_line(&items[i]));
        assert(all.take(i + 1) =~= all.take(i as int).push(all[i as int]));
        i = i + 1;
    }
    assert(all.take(i as int) =~= all);
    lines
}

pub open spec fn summary_section(summary: Seq<char>) -> Seq<char> {
    if summary.len() == 0 {
        Seq::<char>::empty()
    } else {
        "## Summary\n\n"@ + summary + "\n\n"@
    }
}

/// What the analysis adds to the note. Decisions are kept apart from anything merely raised.
pub open spec fn analysis_section(analysis: Option<AnalysisView>) -> Seq<char> {
    match analysis {
        Some(a) => summary_section(a.summary) + full_section(
            "## Decisions\n\n"@,
            a.decisions,
            "_No decisions were stated outright._\n\n"@,
        ) + full_section(
            "## Action items\n\n"@,
            action_lines(a.action_items),
            "_No action items were identified._\n\n"@,
        ) + list_section("## Risks and blockers\n\n"@, a.blockers) + list_section(
            "## Open questions\n\n"@,
            a.open_questions,
        ),
        None => "## Summary\n\n_No summary was produced. The transcript below is the full record._\n\n"@,
    }
}

fn write_analysis_section(analysis: Option<&Analysis>) -> (r: String)
    ensures
        r@ == analysis_section(opt_analysis(analysis)),
{
    let a = match analysis {
        Some(a) => a,
        None => {
            return "## Summary\n\n_No summary was produced. The transcript below is the full record._\n\n".to_owned();
        },
    };
    let summary = if a.summary.as_str().is_empty() {
        String::new()
    } else {
        "## Summary\n\n".to_owned().concat(a.summary.as_str()).concat("\n\n")
    };
    summary.concat(
        write_full_section(
            "## Decisions\n\n",
            &a.decisions,
            "_No decisions were stated outright._\n\n",
        ).as_str(),
    ).concat(
        write_full_section(
            "## Action items\n\n",
            &write_action_lines(&a.action_items),
            "_No action items were identified._\n\n",
        ).as_str(),
    ).concat(write_list_section("## Risks and blockers\n\n", &a.blockers).as_str()).concat(
        write_list_section("## Open questions\n\n", &a.open_questions).as_str(),
    )
}

pub open spec fn note_title(analysis: Option<AnalysisView>) -> Seq<char> {
    match analysis {
        Some(a) => if a.title.len() > 0 {
            a.title
        } else {
            "Meeting notes"@
        },
        None => "Meeting notes"@,
    }
}

pub open spec fn note_heading(d: Deliverable) -> Seq<char> {
    "# "@ + note_title(opt_analysis(d.analysis)) + "\n\n- Meeting: `"@ + d.meeting.id@
        + "`\n- Started: "@ + d.meeting.started_at@ + "\n- Audio: "@ + clock_text(d.audio.length())
        + " ("@ + decimal(d.audio.sample_rate as nat)
        + " Hz mono)\n- Transcription: Sarvam Batch, mode `"@ + d.mode.name() + "`\n\n"@
}

fn write_note_heading(d: &Deliverable<'_>) -> (r: String)
    ensures
        r@ == note_heading(*d),
{
    let title: &str = match d.analysis {
        Some(a) => if a.title.as_str().is_empty() {
            "Meeting notes"
        } else {
            a.title.as_str()
        },
        None => "Meeting notes",
    };
    "# ".to_owned().concat(title).concat("\n\n- Meeting: `").concat(
        d.meeting.id.as_str(),
    ).concat("`\n- Started: ").concat(d.meeting.started_at.as_str()).concat("\n- Audio: ").concat(
        clock(d.audio.duration()).as_str(),
    ).concat(" (").concat(to_decimal(d.audio.sample_rate as u64).as_str()).concat(
        " Hz mono)\n- Transcription: Sarvam Batch, mode `",
    ).concat(d.mode.as_str()).concat("`\n\n")
}

/// What is said of a job that did not fully complete.
pub open spec fn incomplete_notice(partial: bool, failed: Seq<Seq<char>>) -> Seq<char> {
    if partial || failed.len() > 0 {
        "\n> The transcription job did not fully complete. Unprocessed inputs: "@ + (if failed.len()
            == 0 {
            "unknown"@
        } else {
            join(failed, ", "@)
        }) + ".\n"@
    } else {
        Seq::<char>::empty()
    }
}

fn write_incomplete_notice(partial: bool, failed: &Vec<String>) -> (r: String)
    ensures
        r@ == incomplete_notice(partial, texts(failed@)),
{
    assert(texts(failed@).len() == failed.len());
    if !partial && failed.len() == 0 {
        return String::new();
    }
    let names = if failed.len() == 0 {
        "unknown".to_owned()
    } else {
        join_texts(failed, ", ")
    };
    "\n> The transcription job did not fully complete. Unprocessed inputs: ".to_owned().concat(
        names.as_str(),
    ).concat(".\n")
}

/// What is said of the sources that stayed silent: the far side of a meeting may simply be
/// absent from a transcript that looks fine.
pub open spec fn silence_notice(levels: Seq<SourceLevel>) -> Seq<char>
    decreases levels.len(),
{
    if levels.len() == 0 {
        Seq::<char>::empty()
    } else {
        let before = silence_notice(levels.drop_last());
        if levels.last().silent {
            before + "\n> **"@ + levels.last().source@
                + "** was silent for the whole recording, so anything from that side is missing from this transcript.\n"@
        } else {
            before
        }
    }
}

fn write_silence_notice(levels: &Vec<SourceLevel>) -> (r: String)
    ensures
        r@ == silence_notice(levels@),
{
    let mut out = String::new();
    let mut i: usize = 0;
    assert(out@ =~= Seq::<char>::empty());
    while i < levels.len()
        invariant
            i <= levels.len(),
            out@ == silence_notice(levels@.take(i as int)),
        decreases levels.len() - i,
    {
        assert(levels@.take(i + 1).drop_last() == levels@.take(i as int));
        assert(levels@.take(i + 1).last() == levels@[i as int]);
        if levels[i].silent {
            out.append("\n> **");
            out.append(levels[i].source.as_str());
            out.append(
                "** was silent for the whole recording, so anything from that side is missing from this transcript.\n",
            );
        }
        i = i + 1;
    }
    assert(levels@.take(i as int) == levels@);
    out
}

/// How many points the outline of a note has at most.
pub const OUTLINE_POINTS: usize = 25;

/// The meeting note.
pub open spec fn note_text(d: Deliverable) -> Seq<char> {
    note_heading(d) + analysis_section(opt_analysis(d.analysis)) + full_section(
        "## Discussion\n\n"@,
        points(d.transcription@.segments, OUTLINE_POINTS as nat),
        "_No timestamped segments were returned._\n\n"@,
    ) + "## Quality\n\n"@ + caveat_text(
        concerns(d.transcription@.segments, d.audio.length(), d.partial),
    ) + "\n\nThe original audio remains the source of truth.\n"@ + incomplete_notice(
        d.partial,
        texts(d.failed_inputs@),
    ) + silence_notice(d.meeting.source_levels@)
}

pub fn render_note(d: &Deliverable<'_>) -> (r: String)
    ensures
        r@ == note_text(*d),
{
    let outline = timestamped_points(d.transcription, OUTLINE_POINTS);
    write_note_heading(d).concat(write_analysis_section(d.analysis).as_str()).concat(
        write_full_section(
            "## Discussion\n\n",
            &outline,
            "_No timestamped segments were returned._\n\n",
        ).as_str(),
    ).concat("## Quality\n\n").concat(
        caveat(d.transcription, &d.audio, d.partial).as_str(),
    ).concat("\n\nThe original audio remains the source of truth.\n").concat(
        write_incomplete_notice(d.partial, &d.failed_inputs).as_str(),
    ).concat(write_silence_notice(&d.meeting.source_levels).as_str())
}

/// An analysis without the names of tasks that were not assigned outright.
pub open spec fn without_suggested_names(a: AnalysisView) -> AnalysisView {
    AnalysisView {
        action_items: Seq::new(
            a.action_items.len(),
            |i: int|
                {
                    let item = a.action_items[i];
                    if item.confidence == Confidence::Explicit {
                        item
                    } else {
                        ActionItemView { owner: None, ..item }
                    }
                },
        ),
        ..a
    }
}

/// A name reaches the note only with an explicit assignment: taking every other one out of
/// the analysis leaves the same note.
pub proof fn a_suggested_owner_is_never_printed(a: AnalysisView)
    ensures
        analysis_section(Some(a)) == analysis_section(Some(without_suggested_names(a))),
        note_title(Some(a)) == note_title(Some(without_suggested_names(a))),
{
    assert(action_lines(a.action_items) =~= action_lines(without_suggested_names(a).action_items));
}

// -------------------------------------------------------------------- transcripts

pub open spec fn language_text(code: Option<Seq<char>>) -> Seq<char> {
    match code {
        Some(code) => code,
        None => "not reported"@,
    }
}

pub open spec fn diarized_heading(d: Deliverable) -> Seq<char> {
    let t = d.transcription@;
    "# Diarized transcript — "@ + d.meeting.id@ + "\n\n- Source duration: "@ + clock_text(
        d.audio.length(),
    ) + "\n- Transcription mode: `"@ + d.mode.name() + "`\n- Detected language: "@
        + language_text(t.language_code) + "\n- Segments: "@ + decimal(t.segments.len())
        + " | Distinct speaker labels: "@ + decimal(
        without_repeats(sorted(labels(t.segments))).len(),
    ) + " | Overlapping: "@ + decimal(overlaps(t.segments))
        + "\n\n> Speaker labels are generated by the provider and are **not** identities. `SPEAKER_00` is one voice the model separated out, not a named person. Timestamps are phrase-level, not word-level.\n\n---\n\n"@
}

fn write_diarized_heading(d: &Deliverable<'_>) -> (r: String)
    ensures
        r@ == diarized_heading(*d),
{
    let t = d.transcription;
    let labels = t.speaker_labels();
    assert(texts(labels@).len() == labels.len());
    let language: &str = match &t.language_code {
        Some(code) => code.as_str(),
        None => "not reported",
    };
    "# Diarized transcript — ".to_owned().concat(d.meeting.id.as_str()).concat(
        "\n\n- Source duration: ",
    ).concat(clock(d.audio.duration()).as_str()).concat("\n- Transcription mode: `").concat(
        d.mode.as_str(),
    ).concat("`\n- Detected language: ").concat(language).concat("\n- Segments: ").concat(
        to_decimal(t.segments.len() as u64).as_str(),
    ).concat(" | Distinct speaker labels: ").concat(to_decimal(labels.len() as u64).as_str()).concat(
        " | Overlapping: ",
    ).concat(to_decimal(t.overlapping_segments() as u64).as_str()).concat(
        "\n\n> Speaker labels are generated by the provider and are **not** identities. `SPEAKER_00` is one voice the model separated out, not a named person. Timestamps are phrase-level, not word-level.\n\n---\n\n",
    )
}

/// The lines of a diarized transcript.
pub open spec fn diarized_lines(segments: Seq<SegmentView>) -> Seq<char>
    decreases segments.len(),
{
    if segments.len() == 0 {
        Seq::<char>::empty()
    } else {
        let s = segments.last();
        let stamp = match s.start {
            Some(t) => "`"@ + clock_text(t as int) + "` "@,
            None => Seq::<char>::empty(),
        };
        diarized_lines(segments.drop_last()) + stamp + "**"@ + shown_label(s.speaker) + "**: "@
            + s.text + "\n\n"@
    }
}

/// The diarized transcript.
pub open spec fn diarized_text(d: Deliverable) -> Seq<char> {
    if d.transcription@.segments.len() == 0 {
        diarized_heading(d)
            + "_No diarized segments were returned. The plain transcript has the text._\n"@
    } else {
        diarized_heading(d) + diarized_lines(d.transcription@.segments)
    }
}

pub fn render_diarized(d: &Deliverable<'_>) -> (r: String)
    ensures
        r@ == diarized_text(*d),
{
    let segments = &d.transcription.segments;
    let ghost all = d.transcription@.segments;
    let heading = write_diarized_heading(d);
    if segments.len() == 0 {
        return heading.concat(
            "_No diarized segments were returned. The plain transcript has the text._\n",
        );
    }
    let mut lines = String::new();
    let mut i: usize = 0;
    assert(lines@ =~= Seq::<char>::empty());
    while i < segments.len()
        invariant
            i <= segments.len(),
            all == segment_list(segments@),
            lines@ == diarized_lines(all.take(i as int)),
        decreases segments.len() - i,
    {
        assert(all.take(i + 1).drop_last() == all.take(i as int));
        assert(all.take(i + 1).last() == segments@[i as int]@);
        let stamp = match segments[i].start {
            Some(t) => "`".to_owned().concat(clock(t).as_str()).concat("` "),
            None => String::new(),
        };
        lines.append(stamp.as_str());
        lines.append("**");
        lines.append(label_or_unknown(&segments[i].speaker).as_str());
        lines.append("**: ");
        lines.append(segments[i].text.as_str());
        lines.append("\n\n");
        i = i + 1;
    }
    assert(all.take(i as int) == all);
    heading.concat(lines.as_str())
}

/// The words of the segments.
pub open spec fn segment_words(segments: Seq<SegmentView>) -> Seq<Seq<char>> {
    Seq::new(segments.len(), |i: int| segments[i].text)
}

/// The plain transcript: the text that came back, or else the words of the segments.
pub open spec fn plain_text(t: TranscriptionView) -> Seq<char> {
    if trimmed(t.text).len() > 0 {
        trimmed(t.text) + "\n"@
    } else {
        trimmed(join(segment_words(t.segments), " "@)) + "\n"@
    }
}

pub fn render_plain(d: &Deliverable<'_>) -> (r: String)
    ensures
        r@ == plain_text(d.transcription@),
{
    let text = trim(d.transcription.text.as_str());
    if !text.as_str().is_empty() {
        return text.concat("\n");
    }
    let segments = &d.transcription.segments;
    let ghost all = segment_words(d.transcription@.segments);
    let mut words: Vec<String> = Vec::new();
    let mut i: usize = 0;
    assert(texts(words@) =~= all.take(0));
    while i < segments.len()
        invariant
            i <= segments.len(),
            all == segment_words(segment_list(segments@)),
            texts(words@) == all.take(i as int),
        decreases segments.len() - i,
    {
        words.push(segments[i].text.clone());
        assert(all.take(i + 1) =~= all.take(i as int).push(all[i as int]));
        i = i + 1;
    }
    assert(all.take(i as int) =~= all);
    trim(join_texts(&words, " ").as_str()).concat("\n")
}

/// The transcript files do not read the analysis: writing them before the summary is asked
/// for, and again after, gives the same files.
pub proof fn transcripts_do_not_depend_on_the_analysis(before: Deliverable, after: Deliverable)
    requires
        after == (Deliverable { analysis: after.analysis, ..before }),
    ensures
        diarized_text(before) == diarized_text(after),
        plain_text(before.transcription@) == plain_text(after.transcription@),
{
}

// ----------------------------------------------------------------------- metadata

/// What was measured of a run. It holds a detected language, and no accuracy.
#[derive(Debug)]
pub struct Metadata {
    pub meeting_id: String,
    pub started_at: String,
    pub audio_length: Time,
    pub audio_sample_rate: u32,
    pub audio_channels: u16,
    pub recorded: Option<Time>,
    pub transcription_mode: String,
    pub batch_job_id: String,
    pub batch_elapsed: Time,
    pub partially_completed: bool,
    pub failed_inputs: Vec<String>,
    pub segment_count: usize,
    pub speaker_label_count: usize,
    pub overlapping_segments: usize,
    /// Provider language detection. Explicitly not an accuracy measure.
    pub detected_language: Option<String>,
    pub first_timestamp: Option<Time>,
    pub last_timestamp: Option<Time>,
    pub timestamp_coverage: Option<Fraction>,
    pub trust: String,
    pub trust_reasons: Vec<String>,
}

/// The measurements of a run. The levels of the sources stand beside them in the meeting.
pub fn metadata(d: &Deliverable<'_>) -> (r: Metadata)
    ensures
        r.meeting_id@ == d.meeting.id@,
        r.started_at@ == d.meeting.started_at@,
        r.audio_length == d.audio.length(),
        r.audio_sample_rate == d.audio.sample_rate,
        r.audio_channels == d.audio.channels,
        r.recorded == d.meeting.duration,
        r.transcription_mode@ == d.mode.name(),
        r.batch_job_id@ == d.job_id@,
        r.batch_elapsed == d.batch_elapsed,
        r.partially_completed == d.partial,
        texts(r.failed_inputs@) == texts(d.failed_inputs@),
        r.segment_count == d.transcription@.segments.len(),
        r.speaker_label_count == without_repeats(
            sorted(labels(d.transcription@.segments)),
        ).len(),
        r.overlapping_segments == overlaps(d.transcription@.segments),
        opt_text(r.detected_language) == d.transcription@.language_code,
        match (r.first_timestamp, r.last_timestamp) {
            (Some(first), Some(last)) => span(d.transcription@.segments) == Some(
                (first as int, last as int),
            ),
            (None, None) => span(d.transcription@.segments) is None,
            _ => false,
        },
        match r.timestamp_coverage {
            Some(f) => covered(d.transcription@.segments, d.audio.length()) == Some(
                (f.part as int, f.whole as int),
            ),
            None => covered(d.transcription@.segments, d.audio.length()) is None,
        },
        texts(r.trust_reasons@) == concerns(
            d.transcription@.segments,
            d.audio.length(),
            d.partial,
        ),
        r.trust@ == trust_level(
            concerns(d.transcription@.segments, d.audio.length(), d.partial),
        ).name(),
{
    let t = d.transcription;
    let (level, reasons) = trust(t, &d.audio, d.partial);
    let labels = t.speaker_labels();
    assert(texts(labels@).len() == labels.len());
    let (first, last) = match t.coverage() {
        Some((first, last)) => (Some(first), Some(last)),
        None => (None, None),
    };
    Metadata {
        meeting_id: d.meeting.id.clone(),
        started_at: d.meeting.started_at.clone(),
        audio_length: d.audio.duration(),
        audio_sample_rate: d.audio.sample_rate,
        audio_channels: d.audio.channels,
        recorded: d.meeting.duration,
        transcription_mode: d.mode.as_str().to_owned(),
        batch_job_id: d.job_id.clone(),
        batch_elapsed: d.batch_elapsed,
        partially_completed: d.partial,
        failed_inputs: copy_list(&d.failed_inputs),
        segment_count: t.segments.len(),
        speaker_label_count: labels.len(),
        overlapping_segments: t.overlapping_segments(),
        detected_language: copy_opt(&t.language_code),
        first_timestamp: first,
        last_timestamp: last,
        timestamp_coverage: coverage_fraction(t, &d.audio),
        trust: level.label().to_owned(),
        trust_reasons: reasons,
    }
}

// -------------------------------------------------------------------------- files

/// The files of a finished meeting, as they are listed.
pub open spec fn listed_files() -> Seq<Seq<char>> {
    seq![NOTE_FILE@, DIARIZED_FILE@, PLAIN_FILE@, METADATA_FILE@]
}

/// The same files, in the order in which they are written. The note comes last: a directory
/// without a note counts as unfinished, so the note appearing is what marks the meeting
/// done.
pub open spec fn written_files() -> Seq<Seq<char>> {
    seq![DIARIZED_FILE@, PLAIN_FILE@, METADATA_FILE@, NOTE_FILE@]
}

pub fn files_as_listed() -> (r: Vec<String>)
    ensures
        texts(r@) == listed_files(),
{
    let mut r: Vec<String> = Vec::new();
    r.push(NOTE_FILE.to_owned());
    r.push(DIARIZED_FILE.to_owned());
    r.push(PLAIN_FILE.to_owned());
    r.push(METADATA_FILE.to_owned());
    assert(texts(r@) =~= listed_files());
    r
}

pub fn files_as_written() -> (r: Vec<String>)
    ensures
        texts(r@) == written_files(),
{
    let mut r: Vec<String> = Vec::new();
    r.push(DIARIZED_FILE.to_owned());
    r.push(PLAIN_FILE.to_owned());
    r.push(METADATA_FILE.to_owned());
    r.push(NOTE_FILE.to_owned());
    assert(texts(r@) =~= written_files());
    r
}

// ------------------------------------------------------------- what the documents hold

/// The transcript of more segments goes on where that of fewer ends.
proof fn diarized_lines_go_on(segments: Seq<SegmentView>, i: int) -> (rest: Seq<char>)
    requires
        0 <= i <= segments.len(),
    ensures
        diarized_lines(segments) == diarized_lines(segments.take(i)) + rest,
    decreases segments.len() - i,
{
    if i == segments.len() {
        assert(segments.take(i) == segments);
        assert(diarized_lines(segments) + Seq::<char>::empty() == diarized_lines(segments));
        Seq::<char>::empty()
    } else {
        let more = diarized_lines_go_on(segments, i + 1);
        let next = segments.take(i + 1);
        assert(next.drop_last() == segments.take(i));
        let s = next.last();
        let stamp = match s.start {
            Some(t) => "`"@ + clock_text(t as int) + "` "@,
            None => Seq::<char>::empty(),
        };
        let line = stamp + "**"@ + shown_label(s.speaker) + "**: "@ + s.text + "\n\n"@;
        assert(diarized_lines(next) =~= diarized_lines(segments.take(i)) + line);
        assert(diarized_lines(segments) =~= diarized_lines(segments.take(i)) + (line + more));
        line + more
    }
}

/// The diarized transcript holds the words of every segment, in order: behind the lines of the
/// segments before it stand its time, where it has one, its speaker's label, its words and a
/// blank line.
#[verifier::spinoff_prover]
pub proof fn every_segment_is_printed(d: Deliverable, i: int) -> (rest: Seq<char>)
    requires
        0 <= i < d.transcription@.segments.len(),
    ensures
        ({
            let s = d.transcription@.segments[i];
            let label = match s.speaker {
                Some(label) => label,
                None => "UNKNOWN"@,
            };
            let stamp = match s.start {
                Some(t) => "`"@ + clock_text(t as int) + "` "@,
                None => Seq::<char>::empty(),
            };
            &&& diarized_text(d) == diarized_heading(d) + diarized_lines(
                d.transcription@.segments.take(i),
            ) + (stamp + "**"@ + label + "**: "@ + s.text + "\n\n"@) + rest
            &&& has(diarized_text(d), label + "**: "@ + s.text + "\n\n"@)
        }),
{
    let segments = d.transcription@.segments;
    let s = segments[i];
    let label = shown_label(s.speaker);
    let stamp = match s.start {
        Some(t) => "`"@ + clock_text(t as int) + "` "@,
        None => Seq::<char>::empty(),
    };
    let rest = diarized_lines_go_on(segments, i + 1);
    let next = segments.take(i + 1);
    assert(next.drop_last() == segments.take(i));
    assert(next.last() == s);
    let lines = diarized_lines(segments.take(i));
    let line = stamp + "**"@ + label + "**: "@ + s.text + "\n\n"@;
    let shown = label + "**: "@ + s.text + "\n\n"@;
    grouped(lines, stamp, "**"@, label, "**: "@, s.text, "\n\n"@);
    assert(diarized_text(d) == diarized_heading(d) + (lines + line + rest));
    behind_the_heading(diarized_heading(d), lines, line, rest);
    stands_in_itself(shown);
    stays_behind(stamp + "**"@, shown, shown);
    stays_behind(diarized_heading(d) + lines, line, shown);
    stays_in_front(diarized_heading(d) + lines + line, rest, shown);
    rest
}

proof fn grouped(
    lines: Seq<char>,
    a: Seq<char>,
    b: Seq<char>,
    c: Seq<char>,
    d: Seq<char>,
    e: Seq<char>,
    f: Seq<char>,
)
    ensures
        lines + a + b + c + d + e + f == lines + (a + b + c + d + e + f),
        a + b + c + d + e + f == a + b + (c + d + e + f),
{
    assert(lines + a + b + c + d + e + f =~= lines + (a + b + c + d + e + f));
    assert(a + b + c + d + e + f =~= a + b + (c + d + e + f));
}

proof fn behind_the_heading(a: Seq<char>, b: Seq<char>, c: Seq<char>, d: Seq<char>)
    ensures
        a + (b + c + d) == a + b + c + d,
{
    assert(a + (b + c + d) =~= a + b + c + d);
}

/// The plain transcript is the provider's own, and where there is none, it holds the words of
/// every segment.
pub proof fn the_plain_transcript_holds_the_words(t: TranscriptionView, i: int)
    ensures
        trimmed(t.text).len() > 0 ==> plain_text(t) == trimmed(t.text) + "\n"@,
        trimmed(t.text).len() == 0 && 0 <= i < t.segments.len() && t.segments[i].text.len() > 0
            && !is_space(t.segments[i].text[0]) && !is_space(t.segments[i].text.last()) ==> has(
            plain_text(t),
            t.segments[i].text,
        ),
{
    if trimmed(t.text).len() == 0 && 0 <= i < t.segments.len() && t.segments[i].text.len() > 0
        && !is_space(t.segments[i].text[0]) && !is_space(t.segments[i].text.last()) {
        let parts = segment_words(t.segments);
        joining_keeps_every_part(parts, " "@, i);
        let before = if i == 0 {
            Seq::<char>::empty()
        } else {
            join(parts.take(i), " "@) + " "@
        };
        let after = if i == parts.len() - 1 {
            Seq::<char>::empty()
        } else {
            " "@ + join(parts.skip(i + 1), " "@)
        };
        let words = join(parts, " "@);
        trimming_keeps_what_is_not_blank_at_its_ends(before, parts[i], after);
        stands_inside(Seq::<char>::empty(), trimmed(words), "\n"@);
        assert(Seq::<char>::empty() + trimmed(words) + "\n"@ =~= plain_text(t));
        part_of_a_part(plain_text(t), trimmed(words), parts[i]);
    }
}

/// The segments with a time are those whose start is known, in their order.
pub proof fn timed_segments_are_those_with_a_start(segments: Seq<SegmentView>)
    ensures
        timed(segments) == segments.filter(|s: SegmentView| s.start is Some),
    decreases segments.len(),
{
    reveal(Seq::filter);
    if segments.len() > 0 {
        timed_segments_are_those_with_a_start(segments.drop_last());
    }
}

/// The outline begins with the first segment that has a time, goes on in equal steps, shows
/// each segment's time, speaker and words, and is complete where all segments fit.
pub proof fn an_outline_shows_what_was_said(segments: Seq<SegmentView>, limit: nat, i: int)
    requires
        limit > 0,
        0 <= i < points(segments, limit).len(),
    ensures
        ({
            let all = segments.filter(|s: SegmentView| s.start is Some);
            let shown = points(segments, limit);
            let step = (all.len() + limit - 1) / (limit as int);
            let s = all[i * step];
            &&& 0 <= i * step < all.len()
            &&& s.start is Some
            &&& shown[i] == "**"@ + clock_text(s.start->0 as int) + "** "@ + (match s.speaker {
                Some(label) => label,
                None => "UNKNOWN"@,
            }) + ": "@ + s.text
            &&& all.len() <= limit ==> step == 1 && shown.len() == all.len()
        }),
{
    timed_segments_are_those_with_a_start(segments);
    let all = timed(segments);
    let step = rounded_up(all.len(), limit);
    let n = all.len() as int;
    let l = limit as int;
    assert(n > 0);
    assert(step >= 1) by (nonlinear_arith)
        requires
            step == (n + l - 1) / l,
            n > 0,
            l > 0,
    ;
    if n <= l {
        assert(step == 1) by (nonlinear_arith)
            requires
                step == (n + l - 1) / l,
                0 < n <= l,
        ;
    }
    assert(all == segments.filter(|s: SegmentView| s.start is Some));
    let count = points(segments, limit).len() as int;
    assert(step == (n + l - 1) / l);
    assert(i * step < n) by (nonlinear_arith)
        requires
            count == (n + step - 1) / (step as int),
            0 <= i < count,
            step >= 1,
    ;
    assert(0 <= i * step) by (nonlinear_arith)
        requires
            0 <= i,
            step >= 1,
    ;
    filtered_have_it(segments, i * step);
    assert(rounded_up(all.len(), 1) == n);
    assert(points(segments, limit)[i] == point(all[i * step]));
}

proof fn filtered_have_it(segments: Seq<SegmentView>, k: int)
    requires
        0 <= k < timed(segments).len(),
    ensures
        timed(segments)[k].start is Some,
    decreases segments.len(),
{
    if segments.len() > 0 {
        if k < timed(segments.drop_last()).len() {
            filtered_have_it(segments.drop_last(), k);
        }
    }
}

/// Every line of a list is printed as a bullet of its own, in order.
pub proof fn every_line_gets_its_bullet(lines: Seq<Seq<char>>, i: int) -> (rest: Seq<char>)
    requires
        0 <= i < lines.len(),
    ensures
        bullets(lines) == bullets(lines.take(i)) + ("- "@ + lines[i] + "\n"@) + rest,
        has(bullets(lines), "- "@ + lines[i] + "\n"@),
    decreases lines.len(),
{
    let front = lines.drop_last();
    let line = "- "@ + lines[i] + "\n"@;
    let last = "- "@ + lines.last() + "\n"@;
    assert(bullets(lines) =~= bullets(front) + last);
    let rest = if i == lines.len() - 1 {
        assert(lines.take(i) == front);
        Seq::<char>::empty()
    } else {
        let more = every_line_gets_its_bullet(front, i);
        assert(front.take(i) == lines.take(i));
        assert(front[i] == lines[i]);
        more + last
    };
    assert(bullets(lines) =~= bullets(lines.take(i)) + line + rest);
    stands_inside(bullets(lines.take(i)), line, rest);
    rest
}

/// The note holds the analysis in full: its summary, and under the heading of its kind every
/// decision, action item, blocker and open question.
#[verifier::spinoff_prover]
pub proof fn the_note_holds_the_analysis(d: Deliverable, a: AnalysisView)
    requires
        opt_analysis(d.analysis) == Some(a),
    ensures
        has(note_text(d), a.summary),
        a.decisions.len() > 0 ==> has(
            note_text(d),
            "## Decisions\n\n"@ + bullets(a.decisions) + "\n"@,
        ),
        a.action_items.len() > 0 ==> has(
            note_text(d),
            "## Action items\n\n"@ + bullets(action_lines(a.action_items)) + "\n"@,
        ),
        a.blockers.len() > 0 ==> has(
            note_text(d),
            "## Risks and blockers\n\n"@ + bullets(a.blockers) + "\n"@,
        ),
        a.open_questions.len() > 0 ==> has(
            note_text(d),
            "## Open questions\n\n"@ + bullets(a.open_questions) + "\n"@,
        ),
{
    let summary = summary_section(a.summary);
    let decisions = full_section(
        "## Decisions\n\n"@,
        a.decisions,
        "_No decisions were stated outright._\n\n"@,
    );
    let actions = full_section(
        "## Action items\n\n"@,
        action_lines(a.action_items),
        "_No action items were identified._\n\n"@,
    );
    let blockers = list_section("## Risks and blockers\n\n"@, a.blockers);
    let questions = list_section("## Open questions\n\n"@, a.open_questions);
    let upper = summary + decisions;
    stands_in_itself(a.summary);
    if a.summary.len() > 0 {
        stays_behind("## Summary\n\n"@, a.summary, a.summary);
        stays_in_front("## Summary\n\n"@ + a.summary, "\n\n"@, a.summary);
        stays_in_front(summary, decisions, a.summary);
    } else {
        assert(upper.subrange(0, 0) =~= a.summary);
        assert(stands_at(upper, a.summary, 0));
    }
    stays_in_front(upper, actions, a.summary);
    stays_in_front(upper + actions, blockers, a.summary);
    stays_in_front(upper + actions + blockers, questions, a.summary);
    stands_in_the_note(d, a.summary);
    stands_in_itself(decisions);
    stays_behind(summary, decisions, decisions);
    stays_in_front(upper, actions, decisions);
    stays_in_front(upper + actions, blockers, decisions);
    stays_in_front(upper + actions + blockers, questions, decisions);
    stands_in_the_note(d, decisions);
    stands_in_itself(actions);
    stays_behind(upper, actions, actions);
    stays_in_front(upper + actions, blockers, actions);
    stays_in_front(upper + actions + blockers, questions, actions);
    stands_in_the_note(d, actions);
    stands_in_itself(blockers);
    stays_behind(upper + actions, blockers, blockers);
    stays_in_front(upper + actions + blockers, questions, blockers);
    stands_in_the_note(d, blockers);
    stands_in_itself(questions);
    stays_behind(upper + actions + blockers, questions, questions);
    stands_in_the_note(d, questions);
}

/// What stands in the part on the analysis stands in the note.
proof fn stands_in_the_note(d: Deliverable, part: Seq<char>)
    requires
        has(analysis_section(opt_analysis(d.analysis)), part),
    ensures
        has(note_text(d), part),
{
    let head = note_heading(d) + analysis_section(opt_analysis(d.analysis));
    let discussion = full_section(
        "## Discussion\n\n"@,
        points(d.transcription@.segments, OUTLINE_POINTS as nat),
        "_No timestamped segments were returned._\n\n"@,
    );
    let caveat = caveat_text(concerns(d.transcription@.segments, d.audio.length(), d.partial));
    let truth = "\n\nThe original audio remains the source of truth.\n"@;
    let incomplete = incomplete_notice(d.partial, texts(d.failed_inputs@));
    let quality = "## Quality\n\n"@;
    stays_behind(note_heading(d), analysis_section(opt_analysis(d.analysis)), part);
    stays_in_front(head, discussion, part);
    stays_in_front(head + discussion, quality, part);
    stays_in_front(head + discussion + quality, caveat, part);
    stays_in_front(head + discussion + quality + caveat, truth, part);
    stays_in_front(head + discussion + quality + caveat + truth, incomplete, part);
    stays_in_front(
        head + discussion + quality + caveat + truth + incomplete,
        silence_notice(d.meeting.source_levels@),
        part,
    );
}

/// An action item's line holds its task, its owner where the task was given outright, and its
/// due date.
#[verifier::spinoff_prover]
pub proof fn an_action_line_holds_its_task(item: ActionItemView)
    ensures
        has(action_line(item), "`"@ + item.confidence.name() + "` "@ + item.task),
        item.owner is Some && item.confidence == Confidence::Explicit ==> has(
            action_line(item),
            "**"@ + item.owner->0 + "**"@,
        ),
        item.due_date is Some ==> has(action_line(item), "(due "@ + item.due_date->0 + ")"@),
{
    let lead = "`"@ + item.confidence.name() + "` "@ + item.task;
    assert(" — **"@ == seq![' ', '—', ' '] + "**"@ && " (due "@ == seq![' '] + "(due "@) by {
        reveal_strlit(" — **");
        reveal_strlit("**");
        reveal_strlit(" (due ");
        reveal_strlit("(due ");
    }
    stands_in_itself(lead);
    stays_in_front(lead, owner_text(item), lead);
    stays_in_front(lead + owner_text(item), due_text(item), lead);
    if item.owner is Some && item.confidence == Confidence::Explicit {
        let shown = "**"@ + item.owner->0 + "**"@;
        behind_its_mark(seq![' ', '—', ' '], "**"@, " — **"@, item.owner->0, "**"@);
        stays_behind(lead, owner_text(item), shown);
        stays_in_front(lead + owner_text(item), due_text(item), shown);
    }
    if item.due_date is Some {
        let shown = "(due "@ + item.due_date->0 + ")"@;
        behind_its_mark(seq![' '], "(due "@, " (due "@, item.due_date->0, ")"@);
        stays_behind(lead + owner_text(item), due_text(item), shown);
    }
}

proof fn behind_its_mark(
    mark: Seq<char>,
    open: Seq<char>,
    lead: Seq<char>,
    text: Seq<char>,
    close: Seq<char>,
)
    requires
        lead == mark + open,
    ensures
        has(lead + text + close, open + text + close),
{
    let shown = open + text + close;
    behind_the_heading(mark, open, text, close);
    stands_in_itself(shown);
    stays_behind(mark, shown, shown);
}

/// The note shows the outline and ends with what is known of the transcript's quality, every
/// concern that was measured and every input that was not processed.
#[verifier::spinoff_prover]
pub proof fn the_note_shows_every_concern(d: Deliverable, i: int)
    ensures
        ({
            let reasons = concerns(d.transcription@.segments, d.audio.length(), d.partial);
            let outline = points(d.transcription@.segments, 25);
            &&& 0 <= i < reasons.len() ==> has(note_text(d), reasons[i])
            &&& 0 <= i < d.failed_inputs@.len() ==> has(note_text(d), d.failed_inputs@[i]@)
            &&& outline.len() > 0 ==> has(
                note_text(d),
                "## Discussion\n\n"@ + bullets(outline) + "\n"@,
            )
        }),
{
    let reasons = concerns(d.transcription@.segments, d.audio.length(), d.partial);
    let failed = texts(d.failed_inputs@);
    let head = note_heading(d) + analysis_section(opt_analysis(d.analysis));
    let discussion = full_section(
        "## Discussion\n\n"@,
        points(d.transcription@.segments, OUTLINE_POINTS as nat),
        "_No timestamped segments were returned._\n\n"@,
    );
    let caveat = caveat_text(reasons);
    let truth = "\n\nThe original audio remains the source of truth.\n"@;
    let incomplete = incomplete_notice(d.partial, failed);
    let silence = silence_notice(d.meeting.source_levels@);
    let quality = "## Quality\n\n"@;
    let whole = note_text(d);
    stands_inside(head, discussion, quality + caveat + truth + incomplete + silence);
    assert(whole =~= head + discussion + (quality + caveat + truth + incomplete + silence));
    stands_inside(head + discussion + quality, caveat, truth + incomplete + silence);
    assert(whole =~= head + discussion + quality + caveat + (truth + incomplete + silence));
    stands_inside(head + discussion + quality + caveat + truth, incomplete, silence);
    if 0 <= i < reasons.len() {
        joining_keeps_every_part(reasons, "; "@, i);
        let listed = join(reasons, "; "@);
        let lead = "**Quality: "@ + trust_level(reasons).name()
            + ".** Speaker labels are generic and were not matched to people. Timestamps are phrase-level, not word-level. Language detection reports which language was heard, not whether the words are correct. Names, numbers, amounts, deadlines and ownership need checking against the audio before being relied on."@
            + "\n\nMeasured concerns: "@;
        stands_inside(lead, listed, "."@);
        part_of_a_part(whole, caveat, listed);
        part_of_a_part(whole, listed, reasons[i]);
    }
    if 0 <= i < failed.len() {
        joining_keeps_every_part(failed, ", "@, i);
        let listed = join(failed, ", "@);
        stands_inside(
            "\n> The transcription job did not fully complete. Unprocessed inputs: "@,
            listed,
            ".\n"@,
        );
        part_of_a_part(whole, incomplete, listed);
        part_of_a_part(whole, listed, failed[i]);
    }
}

/// A source that stayed silent is named in the note.
#[verifier::spinoff_prover]
pub proof fn a_silent_source_is_named(d: Deliverable, i: int)
    requires
        0 <= i < d.meeting.source_levels@.len(),
        d.meeting.source_levels@[i].silent,
    ensures
        has(
            note_text(d),
            "**"@ + d.meeting.source_levels@[i].source@ + "** was silent for the whole recording"@,
        ),
{
    let levels = d.meeting.source_levels@;
    let named = "**"@ + levels[i].source@ + "** was silent for the whole recording"@;
    silence_is_named(levels, i);
    let silence = silence_notice(levels);
    let whole = note_text(d);
    let before = whole.take(whole.len() - silence.len());
    assert(whole =~= before + silence + Seq::<char>::empty());
    stands_inside(before, silence, Seq::<char>::empty());
    part_of_a_part(whole, silence, named);
}

#[verifier::spinoff_prover]
proof fn silence_is_named(levels: Seq<SourceLevel>, i: int)
    requires
        0 <= i < levels.len(),
        levels[i].silent,
    ensures
        has(
            silence_notice(levels),
            "**"@ + levels[i].source@ + "** was silent for the whole recording"@,
        ),
    decreases levels.len(),
{
    let named = "**"@ + levels[i].source@ + "** was silent for the whole recording"@;
    let front = levels.drop_last();
    let before = silence_notice(front);
    if i < front.len() {
        assert(front[i] == levels[i]);
        silence_is_named(front, i);
        let rest = silence_notice(levels).skip(before.len() as int);
        assert(silence_notice(levels) =~= Seq::<char>::empty() + before + rest);
        stands_inside(Seq::<char>::empty(), before, rest);
        part_of_a_part(silence_notice(levels), before, named);
    } else {
        reveal_strlit("\n> **");
        reveal_strlit("**");
        reveal_strlit("** was silent for the whole recording");
        reveal_strlit(
            "** was silent for the whole recording, so anything from that side is missing from this transcript.\n",
        );
        let mark = "\n> **"@.take(3);
        let tail =
            "** was silent for the whole recording, so anything from that side is missing from this transcript.\n"@;
        let said = "** was silent for the whole recording"@;
        let rest = tail.skip(said.len() as int);
        assert("\n> **"@ =~= mark + "**"@);
        assert(tail =~= said + rest);
        stands_inside(before + mark, named, rest);
        assert(silence_notice(levels) =~= before + mark + named + rest);
    }
}

/// A transcript is trusted for its points only where nothing speaks against it: the job was
/// completed, there are segments, the times that are known reach nine tenths of the recording,
/// and no more than a quarter of the segments overlap.
pub proof fn trust_takes_all_four(segments: Seq<SegmentView>, length: int, partial: bool)
    requires
        length > 0,
    ensures
        trust_level(concerns(segments, length, partial)) == Trust::Medium <==> !partial
            && segments.len() > 0 && first_start(segments) is Some && last_end(segments) is Some
            && last_end(segments)->0 * 10 >= length * 9 && overlaps(segments) * 4
            <= segments.len(),
{
    let coverage = covered(segments, length);
    let a = one_if(partial, "the transcription job only partly completed"@);
    let b = one_if(
        segments.len() == 0,
        "no diarized segments came back, so nothing is attributable"@,
    );
    let c = one_if(
        stops_early(coverage) || coverage is None && segments.len() > 0,
        coverage_reason(coverage),
    );
    let e = one_if(
        segments.len() > 0 && overlaps(segments) * 4 > segments.len(),
        overlap_reason(segments),
    );
    assert(concerns(segments, length, partial).len() == a.len() + b.len() + c.len() + e.len());
}

/// A percentage is the nearest whole number.
pub proof fn a_percentage_is_the_nearest_whole(part: int, whole: int)
    requires
        0 <= part,
        0 < whole,
    ensures
        -whole <= 2 * (percent(part, whole) * whole - 100 * part) <= whole,
{
    let down = 100 * part / whole;
    let rest = 100 * part % whole;
    vstd::arithmetic::div_mod::lemma_fundamental_div_mod(100 * part, whole);
    assert(down >= 0) by (nonlinear_arith)
        requires
            down == 100 * part / whole,
            0 <= part,
            0 < whole,
    ;
    assert((down + 1) * whole == whole * down + whole && down * whole == whole * down)
        by (nonlinear_arith);
}

/// The note names its meeting, its title, when it started and how it was transcribed.
#[verifier::spinoff_prover]
pub proof fn the_note_names_its_meeting(d: Deliverable)
    ensures
        has(note_text(d), d.meeting.id@),
        has(note_text(d), d.meeting.started_at@),
        has(note_text(d), d.mode.name()),
        opt_analysis(d.analysis) matches Some(a) && a.title.len() > 0 ==> has(
            note_text(d),
            "# "@ + opt_analysis(d.analysis)->0.title,
        ),
{
    let title = "# "@ + note_title(opt_analysis(d.analysis));
    let a = title + "\n\n- Meeting: `"@;
    let b = a + d.meeting.id@;
    let c = b + "`\n- Started: "@;
    let e = c + d.meeting.started_at@;
    let f = e + "\n- Audio: "@;
    let g = f + clock_text(d.audio.length());
    let h = g + " ("@;
    let i = h + decimal(d.audio.sample_rate as nat);
    let j = i + " Hz mono)\n- Transcription: Sarvam Batch, mode `"@;
    let k = j + d.mode.name();
    stands_in_itself(title);
    stays_in_front(title, "\n\n- Meeting: `"@, title);
    stays_in_front(a, d.meeting.id@, title);
    stands_in_itself(d.meeting.id@);
    stays_behind(a, d.meeting.id@, d.meeting.id@);
    stands_in_itself(d.meeting.started_at@);
    stays_behind(c, d.meeting.started_at@, d.meeting.started_at@);
    stays_in_front(b, "`\n- Started: "@, title);
    stays_in_front(b, "`\n- Started: "@, d.meeting.id@);
    stays_in_front(c, d.meeting.started_at@, title);
    stays_in_front(c, d.meeting.started_at@, d.meeting.id@);
    stands_in_itself(d.mode.name());
    stays_behind(j, d.mode.name(), d.mode.name());
    goes_on(e, f, g, h, i, j, k, d, title);
    goes_on(e, f, g, h, i, j, k, d, d.meeting.id@);
    goes_on(e, f, g, h, i, j, k, d, d.meeting.started_at@);
    stays_in_front(k, "`\n\n"@, d.mode.name());
    stands_in_the_whole_note(d, title);
    stands_in_the_whole_note(d, d.meeting.id@);
    stands_in_the_whole_note(d, d.meeting.started_at@);
    stands_in_the_whole_note(d, d.mode.name());
}

proof fn goes_on(
    e: Seq<char>,
    f: Seq<char>,
    g: Seq<char>,
    h: Seq<char>,
    i: Seq<char>,
    j: Seq<char>,
    k: Seq<char>,
    d: Deliverable,
    part: Seq<char>,
)
    requires
        has(e, part),
        f == e + "\n- Audio: "@,
        g == f + clock_text(d.audio.length()),
        h == g + " ("@,
        i == h + decimal(d.audio.sample_rate as nat),
        j == i + " Hz mono)\n- Transcription: Sarvam Batch, mode `"@,
        k == j + d.mode.name(),
    ensures
        has(k + "`\n\n"@, part),
{
    stays_in_front(e, "\n- Audio: "@, part);
    stays_in_front(f, clock_text(d.audio.length()), part);
    stays_in_front(g, " ("@, part);
    stays_in_front(h, decimal(d.audio.sample_rate as nat), part);
    stays_in_front(i, " Hz mono)\n- Transcription: Sarvam Batch, mode `"@, part);
    stays_in_front(j, d.mode.name(), part);
    stays_in_front(k, "`\n\n"@, part);
}

/// What stands in the heading stands in the note.
proof fn stands_in_the_whole_note(d: Deliverable, part: Seq<char>)
    requires
        has(note_heading(d), part),
    ensures
        has(note_text(d), part),
{
    let head = note_heading(d) + analysis_section(opt_analysis(d.analysis));
    let discussion = full_section(
        "## Discussion\n\n"@,
        points(d.transcription@.segments, OUTLINE_POINTS as nat),
        "_No timestamped segments were returned._\n\n"@,
    );
    let caveat = caveat_text(concerns(d.transcription@.segments, d.audio.length(), d.partial));
    let truth = "\n\nThe original audio remains the source of truth.\n"@;
    let incomplete = incomplete_notice(d.partial, texts(d.failed_inputs@));
    let quality = "## Quality\n\n"@;
    stays_in_front(note_heading(d), analysis_section(opt_analysis(d.analysis)), part);
    stays_in_front(head, discussion, part);
    stays_in_front(head + discussion, quality, part);
    stays_in_front(head + discussion + quality, caveat, part);
    stays_in_front(head + discussion + quality + caveat, truth, part);
    stays_in_front(head + discussion + quality + caveat + truth, incomplete, part);
    stays_in_front(
        head + discussion + quality + caveat + truth + incomplete,
        silence_notice(d.meeting.source_levels@),
        part,
    );
}

/// The part of a recording that its times cover reaches from its beginning to the latest end, and
/// no further than the recording.
pub proof fn coverage_reaches_the_latest_end(segments: Seq<SegmentView>, length: int)
    requires
        length > 0,
    ensures
        covered(segments, length) is Some <==> first_start(segments) is Some && last_end(segments)
            is Some,
        covered(segments, length) is Some ==> ({
            let part = (covered(segments, length)->0).0;
            let last = last_end(segments)->0;
            &&& (covered(segments, length)->0).1 == length
            &&& 0 <= part <= length
            &&& 0 <= last <= length ==> part == last
            &&& last > length ==> part == length
        }),
{
}

/// The note says how far it is to be trusted.
#[verifier::spinoff_prover]
pub proof fn the_note_says_how_far_to_trust_it(d: Deliverable)
    ensures
        has(
            note_text(d),
            "**Quality: "@ + trust_level(
                concerns(d.transcription@.segments, d.audio.length(), d.partial),
            ).name(),
        ),
{
    let reasons = concerns(d.transcription@.segments, d.audio.length(), d.partial);
    let lead = "**Quality: "@ + trust_level(reasons).name();
    let more =
        ".** Speaker labels are generic and were not matched to people. Timestamps are phrase-level, not word-level. Language detection reports which language was heard, not whether the words are correct. Names, numbers, amounts, deadlines and ownership need checking against the audio before being relied on."@;
    stands_in_itself(lead);
    stays_in_front(lead, more, lead);
    if reasons.len() > 0 {
        let listed = join(reasons, "; "@);
        stays_in_front(lead + more, "\n\nMeasured concerns: "@, lead);
        stays_in_front(lead + more + "\n\nMeasured concerns: "@, listed, lead);
        stays_in_front(lead + more + "\n\nMeasured concerns: "@ + listed, "."@, lead);
    }
    let caveat = caveat_text(reasons);
    let head = note_heading(d) + analysis_section(opt_analysis(d.analysis)) + full_section(
        "## Discussion\n\n"@,
        points(d.transcription@.segments, OUTLINE_POINTS as nat),
        "_No timestamped segments were returned._\n\n"@,
    ) + "## Quality\n\n"@;
    let truth = "\n\nThe original audio remains the source of truth.\n"@;
    let incomplete = incomplete_notice(d.partial, texts(d.failed_inputs@));
    stays_behind(head, caveat, lead);
    stays_in_front(head + caveat, truth, lead);
    stays_in_front(head + caveat + truth, incomplete, lead);
    stays_in_front(
        head + caveat + truth + incomplete,
        silence_notice(d.meeting.source_levels@),
        lead,
    );
}

/// The files that are written are those that are listed, each once, and the note last, when all
/// that it speaks of is there.
pub proof fn the_note_is_written_last(file: Seq<char>)
    ensures
        written_files().contains(file) <==> listed_files().contains(file),
        written_files().len() == 4 && listed_files().len() == 4,
        written_files().last() == "meeting-note.md"@,
        listed_files()[0] == "meeting-note.md"@,
{
    let a = listed_files();
    let b = written_files();
    assert(a[0] == b[3] && a[1] == b[0] && a[2] == b[1] && a[3] == b[2]);
    if a.contains(file) {
        let k = choose|k: int| 0 <= k < a.len() && a[k] == file;
        assert(b[if k == 0 {
            3
        } else {
            k - 1
        }] == file);
    }
    if b.contains(file) {
        let k = choose|k: int| 0 <= k < b.len() && b[k] == file;
        assert(a[if k == 3 {
            0
        } else {
            k + 1
        }] == file);
    }
}

} // verus!
