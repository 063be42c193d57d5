//! Sarvam Batch speech-to-text: long meeting audio with speaker diarization.
//!
//! Documented limits this module is built around: **2 hours per file** and **20 files per
//! job**, with **chunk-level timestamps only**, never word-level. The output schema is
//! *not* documented, so parsing is deliberately defensive and a missing field means absent
//! data, not an error.
use vstd::prelude::*;
use crate::json::{Json, JsonView, json_integer, json_list, opt_json, read_integer};
use crate::number::{
    parse_signed, parsed_signed, signed_two_digits, to_signed_two_digits, two_digits,
};
use crate::text::{
    ascii_lower, copy_opt, has, is_space, join, join_texts, joining_keeps_every_part, opt_text, same, texts, texts_of_push,
    to_ascii_lowercase, trim, trimmed, trimming_forgets_padding, trimming_keeps_case_apart,
};
use crate::time::{Time, add_times, parse_seconds, seconds_written, time_sum};
use crate::transcription::{
    Segment, SegmentView, Transcription, TranscriptionView, labelled_text, last_end, segment_list,
    segment_list_of_push, transcription_list,
};

verus! {

/// Documented ceiling for one input file, in seconds.
pub const MAX_FILE_SECONDS: u64 = 7200;

/// Documented ceiling for one job.
pub const MAX_FILES_PER_JOB: usize = 20;

/// How the model should treat the audio.
#[derive(Debug, Clone, Copy, PartialEq, Eq, Structural)]
pub enum Mode {
    /// Transcribe in the spoken language.
    Transcribe,
    /// Keep Indic speech in Latin script with English technical terms intact.
    Codemix,
}

impl Mode {
    pub open spec fn name(self) -> Seq<char> {
        match self {
            Mode::Transcribe => "transcribe"@,
            Mode::Codemix => "codemix"@,
        }
    }

    /// The mode that a name means once it is trimmed and in lower case.
    pub open spec fn named(name: Seq<char>) -> Option<Mode> {
        if name == "transcribe"@ {
            Some(Mode::Transcribe)
        } else if name == "codemix"@ || name == "code-mix"@ || name == "code_mix"@ {
            Some(Mode::Codemix)
        } else {
            None
        }
    }

    pub fn as_str(&self) -> (r: &'static str)
        ensures
            r@ == self.name(),
    {
        match self {
            Mode::Transcribe => "transcribe",
            Mode::Codemix => "codemix",
        }
    }

    pub open spec fn meaning(self) -> Seq<char> {
        match self {
            Mode::Transcribe => "Transcribe in the spoken language."@,
            Mode::Codemix => "Keep Indic speech in Latin script with English technical terms intact."@,
        }
    }

    /// What the mode does, for someone who has to choose.
    pub fn describe(&self) -> (r: &'static str)
        ensures
            r@ == self.meaning(),
    {
        match self {
            Mode::Transcribe => "Transcribe in the spoken language.",
            Mode::Codemix => "Keep Indic speech in Latin script with English technical terms intact.",
        }
    }

    /// The mode that a name stands for. Only ASCII can be the name of one, so no other letters
    /// are brought into lower case.
    pub fn from_name(name: &str) -> (r: Option<Mode>)
        ensures
            r == Mode::named(ascii_lower(trimmed(name@))),
    {
        Mode::of_plain_name(to_ascii_lowercase(trim(name).as_str()).as_str())
    }

    /// The mode of a name that is already trimmed and in lower case.
    pub fn of_plain_name(plain: &str) -> (r: Option<Mode>)
        ensures
            r == Mode::named(plain@),
    {
        if same(plain, "transcribe") {
            Some(Mode::Transcribe)
        } else if same(plain, "codemix") || same(plain, "code-mix") || same(plain, "code_mix") {
            Some(Mode::Codemix)
        } else {
            None
        }
    }
}

/// A mode is found again by the name it is written with.
pub proof fn mode_names_read_back(mode: Mode)
    ensures
        Mode::named(mode.name()) == Some(mode),
{
    reveal_strlit("transcribe");
    reveal_strlit("codemix");
    assert("transcribe"@.len() != "codemix"@.len());
}

/// Letter case does not matter in the name of a mode.
pub proof fn letter_case_does_not_change_a_mode(a: Seq<char>, b: Seq<char>)
    requires
        ascii_lower(a) == ascii_lower(b),
    ensures
        Mode::named(ascii_lower(trimmed(a))) == Mode::named(ascii_lower(trimmed(b))),
{
    trimming_keeps_case_apart(a);
    trimming_keeps_case_apart(b);
}

/// White space around the name of a mode does not matter.
pub proof fn spacing_does_not_change_a_mode(before: Seq<char>, name: Seq<char>, after: Seq<char>)
    requires
        forall|i: int| 0 <= i < before.len() ==> is_space(#[trigger] before[i]),
        forall|i: int| 0 <= i < after.len() ==> is_space(#[trigger] after[i]),
    ensures
        Mode::named(ascii_lower(trimmed(before + name + after))) == Mode::named(
            ascii_lower(trimmed(name)),
        ),
{
    trimming_forgets_padding(before, name, after);
}

#[derive(Debug, Clone)]
pub struct BatchOptions {
    pub model: String,
    /// Left out for a model that has no modes.
    pub mode: Option<Mode>,
    /// `unknown` lets Sarvam detect. Only set a specific code when the user has.
    pub language_code: String,
    pub with_diarization: bool,
    pub with_timestamps: bool,
    pub num_speakers: Option<u8>,
}

impl Default for BatchOptions {
    fn default() -> (r: Self)
        ensures
            r.model@ == "saaras:v3"@,
            r.mode == Some(Mode::Transcribe),
            r.language_code@ == "unknown"@,
            r.with_diarization,
            r.with_timestamps,
            r.num_speakers is None,
    {
        BatchOptions {
            model: "saaras:v3".to_owned(),
            mode: Some(Mode::Transcribe),
            language_code: "unknown".to_owned(),
            with_diarization: true,
            with_timestamps: true,
            num_speakers: None,
        }
    }
}

// ------------------------------------------------------------------ the result

/// Everything a completed job produced, plus what it cost in wall-clock time.
#[derive(Debug)]
pub struct BatchResult {
    pub job_id: String,
    pub outputs: Vec<Transcription>,
    /// Input files the job could not process. Empty on a clean run.
    pub failed_inputs: Vec<String>,
    /// How long the job took.
    pub elapsed: Time,
    /// True when the job finished as `PartiallyCompleted`.
    pub partial: bool,
}

#[verifier::ext_equal]
pub struct BatchResultView {
    pub job_id: Seq<char>,
    pub outputs: Seq<TranscriptionView>,
    pub failed_inputs: Seq<Seq<char>>,
    pub elapsed: Time,
    pub partial: bool,
}

impl View for BatchResult {
    type V = BatchResultView;

    open spec fn view(&self) -> BatchResultView {
        BatchResultView {
            job_id: self.job_id@,
            outputs: transcription_list(self.outputs@),
            failed_inputs: texts(self.failed_inputs@),
            elapsed: self.elapsed,
            partial: self.partial,
        }
    }
}

/// The texts that are more than white space.
pub open spec fn not_blank(parts: Seq<Seq<char>>) -> Seq<Seq<char>>
    decreases parts.len(),
{
    if parts.len() == 0 {
        parts
    } else if trimmed(parts.last()).len() > 0 {
        not_blank(parts.drop_last()).push(parts.last())
    } else {
        not_blank(parts.drop_last())
    }
}

/// The labelled texts of the outputs, one below the other.
pub open spec fn combined(outputs: Seq<TranscriptionView>) -> Seq<char> {
    join(not_blank(outputs.map_values(|t: TranscriptionView| labelled_text(t))), "\n"@)
}

/// How long one output lasts: its latest end, and never less than nothing.
pub open spec fn output_length(t: TranscriptionView) -> int {
    match last_end(t.segments) {
        Some(end) => if end > 0 {
            end
        } else {
            0
        },
        None => 0,
    }
}

/// How far the output after `outputs` is shifted.
pub open spec fn total_length(outputs: Seq<TranscriptionView>) -> int
    decreases outputs.len(),
{
    if outputs.len() == 0 {
        0
    } else {
        time_sum(total_length(outputs.drop_last()), output_length(outputs.last()))
    }
}

pub open spec fn shifted_time(t: Option<Time>, offset: int) -> Option<Time> {
    match t {
        Some(t) => Some(time_sum(t as int, offset) as Time),
        None => None,
    }
}

pub open spec fn shifted(s: SegmentView, offset: int) -> SegmentView {
    SegmentView {
        speaker: s.speaker,
        text: s.text,
        start: shifted_time(s.start, offset),
        end: shifted_time(s.end, offset),
    }
}

/// The outputs as one transcription. Offsets restart per input file, so each part is
/// shifted by the parts before it.
pub open spec fn merge(outputs: Seq<TranscriptionView>) -> TranscriptionView
    decreases outputs.len(),
{
    if outputs.len() == 0 {
        TranscriptionView {
            text: Seq::<char>::empty(),
            segments: Seq::<SegmentView>::empty(),
            language_code: None,
        }
    } else {
        let before = merge(outputs.drop_last());
        let part = outputs.last();
        let offset = total_length(outputs.drop_last());
        let space = if before.text.len() > 0 && part.text.len() > 0 {
            " "@
        } else {
            Seq::<char>::empty()
        };
        TranscriptionView {
            text: before.text + space + part.text,
            segments: before.segments + part.segments.map_values(
                |s: SegmentView| shifted(s, offset),
            ),
            language_code: if before.language_code is Some {
                before.language_code
            } else {
                part.language_code
            },
        }
    }
}

fn shift_time(t: Option<Time>, offset: Time) -> (r: Option<Time>)
    ensures
        r == shifted_time(t, offset as int),
{
    match t {
        Some(t) => Some(add_times(t, offset)),
        None => None,
    }
}

fn length_of(output: &Transcription) -> (r: Time)
    ensures
        r == output_length(output@),
        r >= 0,
{
    let ghost all = output@.segments;
    let mut end: Time = 0;
    let mut i: usize = 0;
    while i < output.segments.len()
        invariant
            i <= output.segments.len(),
            all == output@.segments,
            end >= 0,
            end == match last_end(all.take(i as int)) {
                Some(t) => if t > 0 {
                    t
                } else {
                    0
                },
                None => 0,
            },
        decreases output.segments.len() - i,
    {
        assert(all.take(i + 1).drop_last() == all.take(i as int));
        assert(all.take(i + 1).last() == output.segments@[i as int]@);
        if let Some(t) = output.segments[i].end {
            if t > end {
                end = t;
            }
        }
        i = i + 1;
    }
    assert(all.take(i as int) == all);
    end
}

fn append_shifted(segments: &mut Vec<Segment>, part: &Vec<Segment>, offset: Time)
    ensures
        segment_list(final(segments)@) == segment_list(old(segments)@) + segment_list(
            part@,
        ).map_values(|s: SegmentView| shifted(s, offset as int)),
{
    broadcast use segment_list_of_push;

    let ghost before = segment_list(segments@);
    let ghost moved = segment_list(part@).map_values(|s: SegmentView| shifted(s, offset as int));
    let mut i: usize = 0;
    assert(before + moved.take(0) =~= before);
    while i < part.len()
        invariant
            i <= part.len(),
            moved == segment_list(part@).map_values(|s: SegmentView| shifted(s, offset as int)),
            segment_list(segments@) == before + moved.take(i as int),
        decreases part.len() - i,
    {
        let segment = &part[i];
        segments.push(
            Segment {
                speaker: copy_opt(&segment.speaker),
                text: segment.text.clone(),
                start: shift_time(segment.start, offset),
                end: shift_time(segment.end, offset),
            },
        );
        assert(segments@.last()@ =~= moved[i as int]);
        assert(before + moved.take(i + 1) =~= (before + moved.take(i as int)).push(
            moved[i as int],
        ));
        i = i + 1;
    }
    assert(moved.take(i as int) == moved);
}

impl BatchResult {
    /// All outputs joined, diarized where available.
    pub fn combined_text(&self) -> (r: String)
        ensures
            r@ == combined(self@.outputs),
    {
        broadcast use texts_of_push;

        let ghost all = self@.outputs.map_values(|t: TranscriptionView| labelled_text(t));
        let mut parts: Vec<String> = Vec::new();
        let mut i: usize = 0;
        assert(texts(parts@) =~= not_blank(all.take(0)));
        while i < self.outputs.len()
            invariant
                i <= self.outputs.len(),
                all == self@.outputs.map_values(|t: TranscriptionView| labelled_text(t)),
                texts(parts@) == not_blank(all.take(i as int)),
            decreases self.outputs.len() - i,
        {
            let text = self.outputs[i].as_labelled_text();
            assert(all.take(i + 1).drop_last() == all.take(i as int));
            assert(all.take(i + 1).last() == text@);
            if !trim(text.as_str()).as_str().is_empty() {
                parts.push(text);
            }
            i = i + 1;
        }
        assert(all.take(i as int) == all);
        join_texts(&parts, "\n")
    }

    /// The outputs as one transcription, with each part's times moved past the parts
    /// before it.
    pub fn merged(&self) -> (r: Transcription)
        ensures
            r@ == merge(self@.outputs),
    {
        let ghost all = self@.outputs;
        let mut text = String::new();
        let mut segments: Vec<Segment> = Vec::new();
        let mut language_code: Option<String> = None;
        let mut offset: Time = 0;
        let mut i: usize = 0;
        assert(segment_list(segments@) =~= Seq::<SegmentView>::empty());
        while i < self.outputs.len()
            invariant
                i <= self.outputs.len(),
                all == self@.outputs,
                text@ == merge(all.take(i as int)).text,
                segment_list(segments@) == merge(all.take(i as int)).segments,
                opt_text(language_code) == merge(all.take(i as int)).language_code,
                offset == total_length(all.take(i as int)),
            decreases self.outputs.len() - i,
        {
            let output = &self.outputs[i];
            assert(all.take(i + 1).drop_last() == all.take(i as int));
            assert(all.take(i + 1).last() == output@);
            append_shifted(&mut segments, &output.segments, offset);
            let ghost words = text@;
            if !text.as_str().is_empty() && !output.text.as_str().is_empty() {
                text.append(" ");
            } else {
                assert(words + Seq::<char>::empty() =~= words);
            }
            text.append(output.text.as_str());
            if language_code.is_none() {
                language_code = copy_opt(&output.language_code);
            }
            offset = add_times(offset, length_of(output));
            i = i + 1;
        }
        assert(all.take(i as int) == all);
        Transcription { text, segments, language_code }
    }
}

// ------------------------------------------------------------------ parsing

/// The text of the first of two members that is a string.
pub open spec fn either_text(j: JsonView, a: Seq<char>, b: Seq<char>) -> Option<Seq<char>> {
    match j.text_at(a) {
        Some(t) => Some(t),
        None => j.text_at(b),
    }
}

/// The first of two members that is there.
pub open spec fn either(j: JsonView, a: Seq<char>, b: Seq<char>) -> Option<JsonView> {
    match j.get(a) {
        Some(value) => Some(value),
        None => j.get(b),
    }
}

/// The first of three members that is there.
pub open spec fn first_of(j: JsonView, a: Seq<char>, b: Seq<char>, c: Seq<char>) -> Option<
    JsonView,
> {
    match either(j, a, b) {
        Some(value) => Some(value),
        None => j.get(c),
    }
}

pub open spec fn or_empty(t: Option<Seq<char>>) -> Seq<char> {
    match t {
        Some(t) => t,
        None => Seq::<char>::empty(),
    }
}

/// The generic label of a diarized entry: `SPEAKER_00`, or whatever text the provider
/// used.
pub open spec fn entry_label(entry: JsonView) -> Option<Seq<char>> {
    match first_of(entry, "speaker_id"@, "speaker"@, "speaker_label"@) {
        Some(JsonView::Number(n)) => Some(
            "SPEAKER_"@ + signed_two_digits(
                match json_integer(n) {
                    Some(index) => index,
                    None => 0,
                },
            ),
        ),
        Some(JsonView::Text(t)) => if trimmed(t).len() == 0 {
            None
        } else {
            match parsed_signed(trimmed(t)) {
                Some(index) => Some("SPEAKER_"@ + signed_two_digits(index)),
                None => Some(trimmed(t)),
            }
        },
        _ => None,
    }
}

/// The time that the first member there writes, where it is a number.
pub open spec fn entry_time(entry: JsonView, a: Seq<char>, b: Seq<char>, c: Seq<char>) -> Option<
    Time,
> {
    match first_of(entry, a, b, c) {
        Some(JsonView::Number(n)) => Some(seconds_written(n) as Time),
        _ => None,
    }
}

/// The words of a diarized entry.
pub open spec fn entry_words(entry: JsonView) -> Seq<char> {
    trimmed(or_empty(either_text(entry, "transcript"@, "text"@)))
}

pub open spec fn entry_segment(entry: JsonView) -> SegmentView {
    SegmentView {
        speaker: entry_label(entry),
        text: entry_words(entry),
        start: entry_time(entry, "start_time_seconds"@, "start_time"@, "start"@),
        end: entry_time(entry, "end_time_seconds"@, "end_time"@, "end"@),
    }
}

/// The segments of the entries that hold words.
pub open spec fn entry_segments(entries: Seq<JsonView>) -> Seq<SegmentView>
    decreases entries.len(),
{
    if entries.len() == 0 {
        Seq::<SegmentView>::empty()
    } else {
        let before = entry_segments(entries.drop_last());
        if entry_words(entries.last()).len() > 0 {
            before.push(entry_segment(entries.last()))
        } else {
            before
        }
    }
}

/// The diarized entries of an output: the member `entries`, or the diarized transcript
/// itself where it is a list.
pub open spec fn diarized_entries(value: JsonView) -> Seq<JsonView> {
    match value.get("diarized_transcript"@) {
        Some(diarized) => match diarized.get("entries"@) {
            Some(entries) => match entries.as_array() {
                Some(items) => items,
                None => Seq::<JsonView>::empty(),
            },
            None => match diarized.as_array() {
                Some(items) => items,
                None => Seq::<JsonView>::empty(),
            },
        },
        None => Seq::<JsonView>::empty(),
    }
}

pub open spec fn output_of(value: JsonView) -> TranscriptionView {
    TranscriptionView {
        text: trimmed(or_empty(either_text(value, "transcript"@, "text"@))),
        segments: entry_segments(diarized_entries(value)),
        language_code: either_text(value, "language_code"@, "language"@),
    }
}

pub fn read_either_text<'a>(j: &'a Json, a: &str, b: &str) -> (r: Option<&'a String>)
    ensures
        match r {
            Some(t) => either_text(j@, a@, b@) == Some(t@),
            None => either_text(j@, a@, b@) is None,
        },
{
    match j.text_at(a) {
        Some(t) => Some(t),
        None => j.text_at(b),
    }
}

pub fn read_either<'a>(j: &'a Json, a: &str, b: &str) -> (r: Option<&'a Json>)
    ensures
        opt_json(r) == either(j@, a@, b@),
{
    match j.get(a) {
        Some(value) => Some(value),
        None => j.get(b),
    }
}

pub fn read_first_of<'a>(j: &'a Json, a: &str, b: &str, c: &str) -> (r: Option<&'a Json>)
    ensures
        opt_json(r) == first_of(j@, a@, b@, c@),
{
    match read_either(j, a, b) {
        Some(value) => Some(value),
        None => j.get(c),
    }
}

fn read_words(j: &Json) -> (r: String)
    ensures
        r@ == trimmed(or_empty(either_text(j@, "transcript"@, "text"@))),
{
    match read_either_text(j, "transcript", "text") {
        Some(t) => trim(t.as_str()),
        None => String::new(),
    }
}

/// Normalises whatever the provider used into `SPEAKER_00`.
///
/// Kept generic on purpose: these are never identities.
pub fn speaker_label(entry: &Json) -> (r: Option<String>)
    ensures
        opt_text(r) == entry_label(entry@),
{
    match read_first_of(entry, "speaker_id", "speaker", "speaker_label") {
        Some(Json::Number(n)) => {
            let index: i64 = match read_integer(n.as_str()) {
                Some(index) => index,
                None => 0,
            };
            Some("SPEAKER_".to_owned().concat(to_signed_two_digits(index).as_str()))
        },
        Some(Json::Text(t)) => {
            let label = trim(t.as_str());
            if label.as_str().is_empty() {
                return None;
            }
            match parse_signed(label.as_str()) {
                Some(index) => Some(
                    "SPEAKER_".to_owned().concat(to_signed_two_digits(index).as_str()),
                ),
                None => Some(label),
            }
        },
        _ => None,
    }
}

fn number(entry: &Json, a: &str, b: &str, c: &str) -> (r: Option<Time>)
    ensures
        r == entry_time(entry@, a@, b@, c@),
{
    match read_first_of(entry, a, b, c) {
        Some(Json::Number(n)) => Some(parse_seconds(n.as_str())),
        _ => None,
    }
}

fn read_segments(entries: &Vec<Json>) -> (r: Vec<Segment>)
    ensures
        segment_list(r@) == entry_segments(json_list(entries@)),
{
    broadcast use segment_list_of_push;

    let ghost all = json_list(entries@);
    let mut r: Vec<Segment> = Vec::new();
    let mut i: usize = 0;
    assert(segment_list(r@) =~= Seq::<SegmentView>::empty());
    while i < entries.len()
        invariant
            i <= entries.len(),
            all == json_list(entries@),
            segment_list(r@) == entry_segments(all.take(i as int)),
        decreases entries.len() - i,
    {
        let entry = &entries[i];
        assert(all.take(i + 1).drop_last() == all.take(i as int));
        assert(all.take(i + 1).last() == entry@);
        let text = read_words(entry);
        if !text.as_str().is_empty() {
            let segment = Segment {
                speaker: speaker_label(entry),
                text,
                start: number(entry, "start_time_seconds", "start_time", "start"),
                end: number(entry, "end_time_seconds", "end_time", "end"),
            };
            assert(segment@ =~= entry_segment(entry@));
            r.push(segment);
        }
        i = i + 1;
    }
    assert(all.take(i as int) == all);
    r
}

fn no_segments() -> (r: Vec<Segment>)
    ensures
        segment_list(r@) == entry_segments(Seq::<JsonView>::empty()),
{
    let r: Vec<Segment> = Vec::new();
    assert(segment_list(r@) =~= Seq::<SegmentView>::empty());
    r
}

/// Pulls a transcription out of a downloaded output file.
///
/// Every field is optional and several spellings are accepted. An unexpected shape yields
/// empty data the caller can report, not a parse error that loses an already-paid-for job.
pub fn parse_output(value: &Json) -> (r: Transcription)
    ensures
        r@ == output_of(value@),
{
    let language_code = match read_either_text(value, "language_code", "language") {
        Some(code) => Some(code.clone()),
        None => None,
    };
    let segments = match value.get("diarized_transcript") {
        Some(diarized) => match diarized.get("entries") {
            Some(entries) => match entries.as_array() {
                Some(items) => read_segments(items),
                None => no_segments(),
            },
            None => match diarized.as_array() {
                Some(items) => read_segments(items),
                None => no_segments(),
            },
        },
        None => no_segments(),
    };
    Transcription { text: read_words(value), segments, language_code }
}

// --------------------------------------------------------------------------- laws

/// Merging keeps every segment, in order: the merged list is as long as all parts together.
pub proof fn merging_keeps_every_segment(outputs: Seq<TranscriptionView>)
    ensures
        merge(outputs).segments.len() == segment_count(outputs),
    decreases outputs.len(),
{
    if outputs.len() > 0 {
        merging_keeps_every_segment(outputs.drop_last());
    }
}

pub open spec fn segment_count(outputs: Seq<TranscriptionView>) -> nat
    decreases outputs.len(),
{
    if outputs.len() == 0 {
        0
    } else {
        segment_count(outputs.drop_last()) + outputs.last().segments.len()
    }
}

/// The plain sum of the lengths of the parts.
pub open spec fn plain_length(outputs: Seq<TranscriptionView>) -> int
    decreases outputs.len(),
{
    if outputs.len() == 0 {
        0
    } else {
        plain_length(outputs.drop_last()) + output_length(outputs.last())
    }
}

proof fn lengths_add_up(outputs: Seq<TranscriptionView>)
    ensures
        0 <= plain_length(outputs),
        plain_length(outputs) <= i128::MAX ==> total_length(outputs) == plain_length(outputs),
    decreases outputs.len(),
{
    if outputs.len() > 0 {
        lengths_add_up(outputs.drop_last());
    }
}

/// A part's segments come after the parts before it: a segment that starts at or after its
/// own part's beginning starts, once merged, at or after the end of all earlier parts.
pub proof fn later_parts_come_later(
    outputs: Seq<TranscriptionView>,
    part: TranscriptionView,
    k: int,
)
    requires
        0 <= k < part.segments.len(),
        part.segments[k].start is Some,
        part.segments[k].start->0 >= 0,
        plain_length(outputs) + part.segments[k].start->0 <= i128::MAX,
    ensures
        ({
            let merged = merge(outputs.push(part));
            let at = merged.segments[merge(outputs).segments.len() + k];
            &&& at.start is Some
            &&& at.start->0 == part.segments[k].start->0 + plain_length(outputs)
            &&& at.start->0 >= plain_length(outputs)
        }),
{
    lengths_add_up(outputs);
    assert(outputs.push(part).drop_last() == outputs);
    assert(outputs.push(part).last() == part);
}

/// A merged segment is the part's own, later: who spoke and what was said stay, and both ends
/// move by what the earlier parts last. What was merged before stays as it was.
pub proof fn a_merged_segment_keeps_its_speaker_and_words(
    outputs: Seq<TranscriptionView>,
    part: TranscriptionView,
    k: int,
)
    requires
        0 <= k < part.segments.len(),
    ensures
        ({
            let before = merge(outputs).segments;
            let after = merge(outputs.push(part)).segments;
            let offset = plain_length(outputs);
            let said = part.segments[k];
            let at = after[before.len() + k];
            &&& after.len() == before.len() + part.segments.len()
            &&& after.take(before.len() as int) == before
            &&& at.speaker == said.speaker
            &&& at.text == said.text
            &&& at.start is Some == said.start is Some
            &&& at.end is Some == said.end is Some
            &&& said.start is Some && 0 <= said.start->0 + offset <= i128::MAX && offset
                <= i128::MAX ==> at.start->0 - said.start->0 == offset
            &&& said.end is Some && 0 <= said.end->0 + offset <= i128::MAX && offset
                <= i128::MAX ==> at.end->0 - said.end->0 == offset
        }),
{
    lengths_add_up(outputs);
    assert(outputs.push(part).drop_last() == outputs);
    assert(outputs.push(part).last() == part);
}

/// The latest end of a list of segments is an end in it that no other one passes.
pub proof fn the_latest_end_is_an_end(segments: Seq<SegmentView>)
    ensures
        last_end(segments) is Some <==> exists|i: int|
            0 <= i < segments.len() && (#[trigger] segments[i]).end is Some,
        last_end(segments) is Some ==> exists|i: int|
            0 <= i < segments.len() && (#[trigger] segments[i]).end is Some && segments[i].end->0
                == last_end(segments)->0,
        forall|i: int|
            0 <= i < segments.len() && (#[trigger] segments[i]).end is Some ==> segments[i].end->0
                <= last_end(segments)->0,
    decreases segments.len(),
{
    if segments.len() > 0 {
        let front = segments.drop_last();
        the_latest_end_is_an_end(front);
        assert forall|i: int| 0 <= i < front.len() implies #[trigger] segments[i] == front[i] by {}
        assert(segments[segments.len() - 1] == segments.last());
        if last_end(front) is Some {
            let i = choose|i: int|
                0 <= i < front.len() && (#[trigger] front[i]).end is Some && front[i].end->0
                    == last_end(front)->0;
            assert(segments[i].end is Some);
        }
    }
}

/// A part takes up as much of the timeline as its latest end says, and none where no segment
/// of it ends after its beginning.
pub proof fn a_part_lasts_until_its_latest_end(
    outputs: Seq<TranscriptionView>,
    part: TranscriptionView,
)
    ensures
        ({
            let length = plain_length(outputs.push(part)) - plain_length(outputs);
            &&& length >= 0
            &&& forall|i: int|
                0 <= i < part.segments.len() && (#[trigger] part.segments[i]).end is Some
                    ==> part.segments[i].end->0 <= length
            &&& length == 0 || exists|i: int|
                0 <= i < part.segments.len() && (#[trigger] part.segments[i]).end == Some(
                    length as Time,
                )
        }),
{
    assert(outputs.push(part).drop_last() == outputs);
    assert(outputs.push(part).last() == part);
    the_latest_end_is_an_end(part.segments);
    if output_length(part) > 0 {
        let i = choose|i: int|
            0 <= i < part.segments.len() && (#[trigger] part.segments[i]).end is Some
                && part.segments[i].end->0 == last_end(part.segments)->0;
        assert(part.segments[i].end == Some(output_length(part) as Time));
    }
}

/// The merged words are those of all parts in order, one space between two that both have some.
pub proof fn merged_words_are_those_of_the_parts(
    outputs: Seq<TranscriptionView>,
    part: TranscriptionView,
)
    ensures
        ({
            let before = merge(outputs).text;
            let after = merge(outputs.push(part)).text;
            &&& after.take(before.len() as int) == before
            &&& after.skip(after.len() - part.text.len()) == part.text
            &&& before.len() == 0 || part.text.len() == 0 ==> after.len() == before.len()
                + part.text.len()
            &&& before.len() > 0 && part.text.len() > 0 ==> after.len() == before.len()
                + part.text.len() + 1 && after[before.len() as int] == ' '
        }),
{
    reveal_strlit(" ");
    assert(outputs.push(part).drop_last() == outputs);
    assert(outputs.push(part).last() == part);
    let before = merge(outputs).text;
    let after = merge(outputs.push(part)).text;
    assert(after.take(before.len() as int) =~= before);
    assert(after.skip(after.len() - part.text.len()) =~= part.text);
}

/// The merged language is the first that any part reports.
pub proof fn the_first_language_reported_counts(outputs: Seq<TranscriptionView>, i: int)
    requires
        0 <= i < outputs.len(),
        outputs[i].language_code is Some,
        forall|k: int| 0 <= k < i ==> (#[trigger] outputs[k]).language_code is None,
    ensures
        merge(outputs).language_code == outputs[i].language_code,
    decreases outputs.len(),
{
    let front = outputs.drop_last();
    if i < outputs.len() - 1 {
        assert(front[i] == outputs[i]);
        the_first_language_reported_counts(front, i);
    } else {
        no_language_without_a_report(front);
    }
}

/// Where no part reports a language, the merged transcript has none.
pub proof fn no_language_without_a_report(outputs: Seq<TranscriptionView>)
    requires
        forall|k: int| 0 <= k < outputs.len() ==> (#[trigger] outputs[k]).language_code is None,
    ensures
        merge(outputs).language_code is None,
    decreases outputs.len(),
{
    if outputs.len() > 0 {
        assert(outputs[outputs.len() - 1].language_code is None);
        no_language_without_a_report(outputs.drop_last());
    }
}

/// Reading two runs of entries is reading one after the other.
proof fn entry_segments_of_both(a: Seq<JsonView>, b: Seq<JsonView>)
    ensures
        entry_segments(a + b) == entry_segments(a) + entry_segments(b),
    decreases b.len(),
{
    if b.len() == 0 {
        assert(a + b == a);
        assert(entry_segments(a) + entry_segments(b) == entry_segments(a));
    } else {
        assert((a + b).drop_last() == a + b.drop_last());
        assert((a + b).last() == b.last());
        entry_segments_of_both(a, b.drop_last());
    }
}

/// Every diarized entry that says something becomes one segment with its words, in its place
/// among the others. The entries without words leave no trace.
pub proof fn every_entry_with_words_becomes_a_segment(
    value: JsonView,
    diarized: JsonView,
    entries: Seq<JsonView>,
    i: int,
    words: Seq<char>,
)
    requires
        value.get("diarized_transcript"@) == Some(diarized),
        diarized.get("entries"@) == Some(JsonView::Array(entries)),
        0 <= i < entries.len(),
        entries[i].get("transcript"@) == Some(JsonView::Text(words)),
    ensures
        ({
            let before = entry_segments(entries.take(i));
            let all = output_of(value).segments;
            &&& all.len() == before.len() + (if trimmed(words).len() > 0 {
                1int
            } else {
                0
            }) + entry_segments(entries.skip(i + 1)).len()
            &&& all.take(before.len() as int) == before
            &&& trimmed(words).len() > 0 ==> all[before.len() as int].text == trimmed(words)
        }),
{
    reveal_with_fuel(entry_segments, 2);
    let one = seq![entries[i]];
    assert(entries == entries.take(i) + one + entries.skip(i + 1));
    entry_segments_of_both(entries.take(i) + one, entries.skip(i + 1));
    entry_segments_of_both(entries.take(i), one);
    assert(one.drop_last() == Seq::<JsonView>::empty());
    assert(one.last() == entries[i]);
    let before = entry_segments(entries.take(i));
    let all = output_of(value).segments;
    assert(all == before + entry_segments(one) + entry_segments(entries.skip(i + 1)));
    assert(all.take(before.len() as int) =~= before);
}

/// An entry's speaker is the label that it gives, one that is a number as the number of a speaker,
/// and its times are those that it gives.
pub proof fn an_entry_keeps_its_speaker_and_times(
    entry: JsonView,
    label: Seq<char>,
    start: Seq<char>,
    end: Seq<char>,
)
    requires
        entry.get("speaker_id"@) == Some(JsonView::Text(label)),
        entry.get("start_time_seconds"@) == Some(JsonView::Number(start)),
        entry.get("end_time_seconds"@) == Some(JsonView::Number(end)),
    ensures
        entry_segment(entry).start == Some(seconds_written(start) as Time),
        entry_segment(entry).end == Some(seconds_written(end) as Time),
        trimmed(label).len() == 0 ==> entry_segment(entry).speaker is None,
        trimmed(label).len() > 0 && parsed_signed(trimmed(label)) is None ==> entry_segment(
            entry,
        ).speaker == Some(trimmed(label)),
        parsed_signed(trimmed(label)) is Some && parsed_signed(trimmed(label))->0 >= 0
            ==> entry_segment(entry).speaker == Some(
            "SPEAKER_"@ + two_digits(parsed_signed(trimmed(label))->0 as nat),
        ),
{
}

/// What is handed on of several outputs holds the text of every one that is not blank.
pub proof fn every_output_is_handed_on(outputs: Seq<TranscriptionView>, i: int)
    requires
        0 <= i < outputs.len(),
        trimmed(labelled_text(outputs[i])).len() > 0,
    ensures
        has(combined(outputs), labelled_text(outputs[i])),
{
    let parts = outputs.map_values(|t: TranscriptionView| labelled_text(t));
    what_is_not_blank_is_kept(parts, i);
    let kept = not_blank(parts);
    let k = choose|k: int| 0 <= k < kept.len() && kept[k] == parts[i];
    joining_keeps_every_part(kept, "\n"@, k);
}

proof fn what_is_not_blank_is_kept(parts: Seq<Seq<char>>, i: int)
    requires
        0 <= i < parts.len(),
        trimmed(parts[i]).len() > 0,
    ensures
        exists|k: int| 0 <= k < not_blank(parts).len() && not_blank(parts)[k] == parts[i],
    decreases parts.len(),
{
    let front = parts.drop_last();
    let all = not_blank(parts);
    if i < front.len() {
        assert(front[i] == parts[i]);
        what_is_not_blank_is_kept(front, i);
        let k = choose|k: int| 0 <= k < not_blank(front).len() && not_blank(front)[k] == front[i];
        assert(all[k] == parts[i]);
    } else {
        assert(all[all.len() - 1] == parts[i]);
    }
}

/// What is not blank is kept in its order.
pub proof fn blank_parts_alone_are_left_out(parts: Seq<Seq<char>>)
    ensures
        not_blank(parts) == parts.filter(|t: Seq<char>| trimmed(t).len() > 0),
    decreases parts.len(),
{
    reveal(Seq::filter);
    if parts.len() > 0 {
        blank_parts_alone_are_left_out(parts.drop_last());
    }
}

/// The text and the language of an output are those that it gives.
pub proof fn an_output_keeps_its_text_and_language(
    value: JsonView,
    text: Seq<char>,
    language: Seq<char>,
)
    ensures
        value.get("transcript"@) == Some(JsonView::Text(text)) ==> output_of(value).text == trimmed(
            text,
        ),
        value.get("transcript"@) is None && value.get("text"@) == Some(JsonView::Text(text))
            ==> output_of(value).text == trimmed(text),
        value.get("language_code"@) == Some(JsonView::Text(language)) ==> output_of(
            value,
        ).language_code == Some(language),
        value.get("diarized_transcript"@) is None ==> output_of(value).segments.len() == 0,
{
}

} // verus!
