//! Transcribed speech: diarized segments, and what can be measured of them.
use vstd::prelude::*;
use crate::order::{drop_repeats, sort_texts, sorted, without_repeats};
use crate::text::{
    has, join, join_texts, joining_keeps_every_part, opt_text, part_of_a_part, stands_in_itself,
    stays_behind, stays_in_front, texts, texts_of_push,
};
use crate::time::{Time, clock, clock_text};

verus! {

/// One diarized segment. Timestamps are phrase-level, never per word.
#[derive(Debug, Clone, PartialEq, Eq)]
pub struct Segment {
    /// Generic label straight from the provider. **Not** a person.
    pub speaker: Option<String>,
    pub text: String,
    pub start: Option<Time>,
    pub end: Option<Time>,
}

#[verifier::ext_equal]
pub struct SegmentView {
    pub speaker: Option<Seq<char>>,
    pub text: Seq<char>,
    pub start: Option<Time>,
    pub end: Option<Time>,
}

impl View for Segment {
    type V = SegmentView;

    open spec fn view(&self) -> SegmentView {
        SegmentView {
            speaker: opt_text(self.speaker),
            text: self.text@,
            start: self.start,
            end: self.end,
        }
    }
}

pub open spec fn segment_list(s: Seq<Segment>) -> Seq<SegmentView> {
    Seq::new(s.len(), |i: int| s[i]@)
}

pub broadcast proof fn segment_list_of_push(list: Seq<Segment>, s: Segment)
    ensures
        #[trigger] segment_list(list.push(s)) == segment_list(list).push(s@),
{
    assert(segment_list(list.push(s)) =~= segment_list(list).push(s@));
}

/// Parsed output for one input file.
#[derive(Debug, Clone, PartialEq, Eq)]
pub struct Transcription {
    pub text: String,
    pub segments: Vec<Segment>,
    /// Provider language *detection*. Never an accuracy figure.
    pub language_code: Option<String>,
}

#[verifier::ext_equal]
pub struct TranscriptionView {
    pub text: Seq<char>,
    pub segments: Seq<SegmentView>,
    pub language_code: Option<Seq<char>>,
}

impl View for Transcription {
    type V = TranscriptionView;

    open spec fn view(&self) -> TranscriptionView {
        TranscriptionView {
            text: self.text@,
            segments: segment_list(self.segments@),
            language_code: opt_text(self.language_code),
        }
    }
}

pub open spec fn transcription_list(s: Seq<Transcription>) -> Seq<TranscriptionView> {
    Seq::new(s.len(), |i: int| s[i]@)
}

pub broadcast proof fn transcription_list_of_push(list: Seq<Transcription>, t: Transcription)
    ensures
        #[trigger] transcription_list(list.push(t)) == transcription_list(list).push(t@),
{
    assert(transcription_list(list.push(t)) =~= transcription_list(list).push(t@));
}

// --------------------------------------------------------------------- measuring

/// The labels of the segments that carry one, in order.
pub open spec fn labels(segments: Seq<SegmentView>) -> Seq<Seq<char>>
    decreases segments.len(),
{
    if segments.len() == 0 {
        Seq::<Seq<char>>::empty()
    } else {
        let before = labels(segments.drop_last());
        match segments.last().speaker {
            Some(label) => before.push(label),
            None => before,
        }
    }
}

/// The earliest start.
pub open spec fn first_start(segments: Seq<SegmentView>) -> Option<int>
    decreases segments.len(),
{
    if segments.len() == 0 {
        None
    } else {
        let before = first_start(segments.drop_last());
        match (before, segments.last().start) {
            (Some(a), Some(b)) => Some(if b < a { b as int } else { a }),
            (Some(a), None) => Some(a),
            (None, Some(b)) => Some(b as int),
            (None, None) => None,
        }
    }
}

/// The latest end.
pub open spec fn last_end(segments: Seq<SegmentView>) -> Option<int>
    decreases segments.len(),
{
    if segments.len() == 0 {
        None
    } else {
        let before = last_end(segments.drop_last());
        match (before, segments.last().end) {
            (Some(a), Some(b)) => Some(if b > a { b as int } else { a }),
            (Some(a), None) => Some(a),
            (None, Some(b)) => Some(b as int),
            (None, None) => None,
        }
    }
}

/// The end of the last segment that has one.
pub open spec fn previous_end(segments: Seq<SegmentView>) -> Option<Time>
    decreases segments.len(),
{
    if segments.len() == 0 {
        None
    } else if segments.last().end is Some {
        segments.last().end
    } else {
        previous_end(segments.drop_last())
    }
}

/// How many segments start before the end last seen.
pub open spec fn overlaps(segments: Seq<SegmentView>) -> nat
    decreases segments.len(),
{
    if segments.len() == 0 {
        0
    } else {
        let before = overlaps(segments.drop_last());
        match (segments.last().start, previous_end(segments.drop_last())) {
            (Some(start), Some(end)) => if start < end {
                before + 1
            } else {
                before
            },
            _ => before,
        }
    }
}

/// First and last timestamp. `None` unless there is a start and an end.
pub open spec fn span(segments: Seq<SegmentView>) -> Option<(int, int)> {
    match (first_start(segments), last_end(segments)) {
        (Some(first), Some(last)) => Some((first, last)),
        _ => None,
    }
}

/// The label that is shown for a segment.
pub open spec fn shown_label(speaker: Option<Seq<char>>) -> Seq<char> {
    match speaker {
        Some(label) => label,
        None => "UNKNOWN"@,
    }
}

/// `[m:ss] LABEL: words`.
pub open spec fn labelled_line(s: SegmentView) -> Seq<char> {
    let stamp = match s.start {
        Some(t) => "["@ + clock_text(t as int) + "] "@,
        None => Seq::<char>::empty(),
    };
    stamp + shown_label(s.speaker) + ": "@ + s.text
}

/// Diarized lines if present, otherwise the plain transcript.
pub open spec fn labelled_text(t: TranscriptionView) -> Seq<char> {
    if t.segments.len() == 0 {
        t.text
    } else {
        join(t.segments.map_values(|s: SegmentView| labelled_line(s)), "\n"@)
    }
}

pub(crate) fn label_or_unknown(speaker: &Option<String>) -> (r: String)
    ensures
        r@ == shown_label(opt_text(*speaker)),
{
    match speaker {
        Some(label) => label.clone(),
        None => "UNKNOWN".to_owned(),
    }
}

impl Segment {
    fn labelled_line(&self) -> (r: String)
        ensures
            r@ == labelled_line(self@),
    {
        let stamp = match self.start {
            Some(t) => "[".to_owned().concat(clock(t).as_str()).concat("] "),
            None => String::new(),
        };
        stamp.concat(label_or_unknown(&self.speaker).as_str()).concat(": ").concat(
            self.text.as_str(),
        )
    }
}

impl Transcription {
    /// A transcription without words.
    pub fn empty() -> (r: Self)
        ensures
            r@.text.len() == 0,
            r@.segments.len() == 0,
            r@.language_code is None,
    {
        Transcription { text: String::new(), segments: Vec::new(), language_code: None }
    }

    /// Distinct generic labels seen. Reported as a count, never resolved to names.
    pub fn speaker_labels(&self) -> (r: Vec<String>)
        ensures
            texts(r@) == without_repeats(sorted(labels(self@.segments))),
    {
        broadcast use texts_of_push;

        let ghost all = self@.segments;
        let mut found: Vec<String> = Vec::new();
        let mut i: usize = 0;
        assert(texts(found@) =~= labels(all.take(0)));
        while i < self.segments.len()
            invariant
                i <= self.segments.len(),
                all == self@.segments,
                texts(found@) == labels(all.take(i as int)),
            decreases self.segments.len() - i,
        {
            assert(all.take(i + 1).drop_last() == all.take(i as int));
            assert(all.take(i + 1).last() == self.segments@[i as int]@);
            if let Some(label) = &self.segments[i].speaker {
                found.push(label.clone());
            }
            i = i + 1;
        }
        assert(all.take(i as int) == all);
        drop_repeats(&sort_texts(&found))
    }

    /// First and last timestamp, for comparing against the source duration.
    pub fn coverage(&self) -> (r: Option<(Time, Time)>)
        ensures
            match r {
                Some((first, last)) => span(self@.segments) == Some((first as int, last as int)),
                None => span(self@.segments) is None,
            },
    {
        let ghost all = self@.segments;
        let mut first: Option<Time> = None;
        let mut last: Option<Time> = None;
        let mut i: usize = 0;
        while i < self.segments.len()
            invariant
                i <= self.segments.len(),
                all == self@.segments,
                match first {
                    Some(t) => first_start(all.take(i as int)) == Some(t as int),
                    None => first_start(all.take(i as int)) is None,
                },
                match last {
                    Some(t) => last_end(all.take(i as int)) == Some(t as int),
                    None => last_end(all.take(i as int)) is None,
                },
            decreases self.segments.len() - i,
        {
            assert(all.take(i + 1).drop_last() == all.take(i as int));
            assert(all.take(i + 1).last() == self.segments@[i as int]@);
            let segment = &self.segments[i];
            if let Some(start) = segment.start {
                first = match first {
                    Some(t) => Some(
                        if start < t {
                            start
                        } else {
                            t
                        },
                    ),
                    None => Some(start),
                };
            }
            if let Some(end) = segment.end {
                last = match last {
                    Some(t) => Some(
                        if end > t {
                            end
                        } else {
                            t
                        },
                    ),
                    None => Some(end),
                };
            }
            i = i + 1;
        }
        assert(all.take(i as int) == all);
        match (first, last) {
            (Some(a), Some(b)) => Some((a, b)),
            _ => None,
        }
    }

    /// Segments that overlap the one before them. Normal in conversation, but they lower
    /// attribution confidence, so the count is reported rather than hidden.
    pub fn overlapping_segments(&self) -> (r: usize)
        ensures
            r == overlaps(self@.segments),
            r <= self.segments.len(),
    {
        let ghost all = self@.segments;
        let mut count: usize = 0;
        let mut seen: Option<Time> = None;
        let mut i: usize = 0;
        while i < self.segments.len()
            invariant
                i <= self.segments.len(),
                all == self@.segments,
                count == overlaps(all.take(i as int)),
                count <= i,
                seen == previous_end(all.take(i as int)),
            decreases self.segments.len() - i,
        {
            assert(all.take(i + 1).drop_last() == all.take(i as int));
            assert(all.take(i + 1).last() == self.segments@[i as int]@);
            let segment = &self.segments[i];
            if let Some(start) = segment.start {
                if let Some(end) = seen {
                    if start < end {
                        count = count + 1;
                    }
                }
            }
            if segment.end.is_some() {
                seen = segment.end;
            }
            i = i + 1;
        }
        assert(all.take(i as int) == all);
        count
    }

    /// Diarized lines if present, otherwise the plain transcript.
    pub fn as_labelled_text(&self) -> (r: String)
        ensures
            r@ == labelled_text(self@),
    {
        broadcast use texts_of_push;

        if self.segments.len() == 0 {
            return self.text.clone();
        }
        let ghost all = self@.segments.map_values(|s: SegmentView| labelled_line(s));
        let mut lines: Vec<String> = Vec::new();
        let mut i: usize = 0;
        assert(texts(lines@) =~= all.take(0));
        while i < self.segments.len()
            invariant
                i <= self.segments.len(),
                all == self@.segments.map_values(|s: SegmentView| labelled_line(s)),
                texts(lines@) == all.take(i as int),
            decreases self.segments.len() - i,
        {
            lines.push(self.segments[i].labelled_line());
            assert(all.take(i + 1) == all.take(i as int).push(all[i as int]));
            i = i + 1;
        }
        assert(all.take(i as int) == all);
        join_texts(&lines, "\n")
    }
}

// --------------------------------------------------------------------------- laws

/// The labels of a transcript are those of its segments that have one, in order.
pub proof fn labels_are_those_of_the_segments(segments: Seq<SegmentView>)
    ensures
        labels(segments) == segments.filter(|s: SegmentView| s.speaker is Some).map_values(
            |s: SegmentView| s.speaker->0,
        ),
    decreases segments.len(),
{
    reveal(Seq::filter);
    let p = |s: SegmentView| s.speaker is Some;
    let f = |s: SegmentView| s.speaker->0;
    if segments.len() > 0 {
        let front = segments.drop_last();
        labels_are_those_of_the_segments(front);
        if p(segments.last()) {
            assert(front.filter(p).push(segments.last()).map_values(f) =~= front.filter(
                p,
            ).map_values(f).push(f(segments.last())));
        }
    } else {
        assert(segments.filter(p).map_values(f) =~= Seq::<Seq<char>>::empty());
    }
}

/// The first start of a list of segments is a start in it that none comes before.
pub proof fn the_first_start_is_the_earliest(segments: Seq<SegmentView>)
    ensures
        first_start(segments) is Some ==> exists|i: int|
            0 <= i < segments.len() && (#[trigger] segments[i]).start is Some
                && segments[i].start->0 == first_start(segments)->0,
        forall|i: int|
            0 <= i < segments.len() && (#[trigger] segments[i]).start is Some ==> first_start(
                segments,
            ) is Some && first_start(segments)->0 <= segments[i].start->0,
    decreases segments.len(),
{
    if segments.len() > 0 {
        let front = segments.drop_last();
        the_first_start_is_the_earliest(front);
        assert forall|i: int| 0 <= i < front.len() implies #[trigger] segments[i] == front[i] by {}
        assert(segments[segments.len() - 1] == segments.last());
        if first_start(front) is Some {
            let i = choose|i: int|
                0 <= i < front.len() && (#[trigger] front[i]).start is Some && front[i].start->0
                    == first_start(front)->0;
            assert(segments[i].start is Some);
        }
    }
}

/// The end that a segment may overlap is that of the last segment before it that has one.
pub proof fn the_previous_end_is_the_last_one_known(segments: Seq<SegmentView>, i: int)
    requires
        0 <= i < segments.len(),
        segments[i].end is Some,
        forall|k: int| i < k < segments.len() ==> (#[trigger] segments[k]).end is None,
    ensures
        previous_end(segments) == segments[i].end,
    decreases segments.len(),
{
    if i < segments.len() - 1 {
        assert(segments[segments.len() - 1].end is None);
        let front = segments.drop_last();
        assert(front[i] == segments[i]);
        the_previous_end_is_the_last_one_known(front, i);
    }
}

/// Segments that follow one another do not overlap, and each one that starts before the end that
/// was last known adds one.
pub proof fn overlaps_are_counted_one_by_one(
    segments: Seq<SegmentView>,
    next: SegmentView,
    i: int,
)
    requires
        0 <= i < segments.len(),
        segments[i].end is Some,
        forall|k: int| i < k < segments.len() ==> (#[trigger] segments[k]).end is None,
        next.start is Some,
    ensures
        next.start->0 >= segments[i].end->0 ==> overlaps(segments.push(next)) == overlaps(segments),
        next.start->0 < segments[i].end->0 ==> overlaps(segments.push(next)) == overlaps(segments)
            + 1,
        overlaps(seq![next]) == 0,
{
    the_previous_end_is_the_last_one_known(segments, i);
    assert(segments.push(next).drop_last() == segments);
    assert(seq![next].drop_last() == Seq::<SegmentView>::empty());
    reveal_with_fuel(overlaps, 2);
    reveal_with_fuel(previous_end, 2);
}

/// The text handed on for a summary has a line for every segment, in order, with its speaker and
/// its words.
pub proof fn every_segment_has_its_line(t: TranscriptionView, i: int)
    requires
        0 <= i < t.segments.len(),
    ensures
        has(
            labelled_text(t),
            (match t.segments[i].speaker {
                Some(label) => label,
                None => "UNKNOWN"@,
            }) + ": "@ + t.segments[i].text,
        ),
        t.segments[i].start is Some ==> has(
            labelled_text(t),
            "["@ + clock_text(t.segments[i].start->0 as int) + "] "@,
        ),
        labelled_text(t) == (if i == 0 {
            Seq::<char>::empty()
        } else {
            labelled_text(TranscriptionView { segments: t.segments.take(i), ..t }) + "\n"@
        }) + labelled_line(t.segments[i]) + (if i == t.segments.len() - 1 {
            Seq::<char>::empty()
        } else {
            "\n"@ + labelled_text(TranscriptionView { segments: t.segments.skip(i + 1), ..t })
        }),
{
    let line = |s: SegmentView| labelled_line(s);
    let lines = t.segments.map_values(line);
    joining_keeps_every_part(lines, "\n"@, i);
    assert(lines.take(i) =~= t.segments.take(i).map_values(line));
    assert(lines.skip(i + 1) =~= t.segments.skip(i + 1).map_values(line));
    let s = t.segments[i];
    let words = shown_label(s.speaker) + ": "@ + s.text;
    let stamp = match s.start {
        Some(t) => "["@ + clock_text(t as int) + "] "@,
        None => Seq::<char>::empty(),
    };
    four_in_two(stamp, shown_label(s.speaker), ": "@, s.text);
    stands_in_itself(words);
    stays_behind(stamp, words, words);
    part_of_a_part(labelled_text(t), labelled_line(s), words);
    stands_in_itself(stamp);
    stays_in_front(stamp, words, stamp);
    part_of_a_part(labelled_text(t), labelled_line(s), stamp);
}

proof fn four_in_two(a: Seq<char>, b: Seq<char>, c: Seq<char>, d: Seq<char>)
    ensures
        a + b + c + d == a + (b + c + d),
{
    assert(a + b + c + d =~= a + (b + c + d));
}

} // verus!
