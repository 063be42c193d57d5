//! The resume record: a transcription that was paid for, as it is parked on disk.
use vstd::prelude::*;
use crate::json::{
    Json, JsonView, NUMBER_NAME, READABLE_DEPTH, array, distinct_fields, entry_list, field_listed,
    fields, fields_are_plain, fields_of_push, has_ordinary_fields, has_plain_fields, is_plain,
    json_list, json_pretty, json_read, json_stored, json_texts, new_entries, object, parse_json,
    pretty_json, put_value, seconds_are_numeral, text_array, text_value,
};
use crate::members::{
    flag_in, is_absent, mark, opt_seconds, opt_seconds_in, opt_seconds_json, opt_text_in,
    opt_text_value, or_null, read_flag, read_opt_seconds, read_opt_text, read_seconds, read_text,
    read_texts, seconds_in, seconds_json, texts_in, texts_read_back, value_or_null, write_seconds,
};
use crate::pipeline::{BatchFacts, SavedTranscript, has_words, saved_transcript};
use crate::sarvam_batch::Mode;
use crate::text::{same, texts};
use crate::time::{Time, seconds_read_back, seconds_that_were_read};
use crate::transcription::{Segment, SegmentView, Transcription, TranscriptionView, segment_list};

verus! {

// --------------------------------------------------------------------------- names

/// The mode of a name as it is written.
pub open spec fn mode_named(name: Seq<char>) -> Option<Mode> {
    if name == Mode::Transcribe.name() {
        Some(Mode::Transcribe)
    } else if name == Mode::Codemix.name() {
        Some(Mode::Codemix)
    } else {
        None
    }
}

pub open spec fn mode_in(j: JsonView, name: Seq<char>) -> Option<Mode> {
    match j.text_at(name) {
        Some(t) => mode_named(t),
        None => None,
    }
}

/// A mode, where there is one.
pub open spec fn opt_mode_json(mode: Option<Mode>) -> Option<JsonView> {
    match mode {
        Some(mode) => Some(JsonView::Text(mode.name())),
        None => None,
    }
}

/// A text, where there is one.
pub open spec fn opt_text_json(t: Option<Seq<char>>) -> Option<JsonView> {
    match t {
        Some(t) => Some(JsonView::Text(t)),
        None => None,
    }
}

pub open spec fn opt_mode_in(j: JsonView, name: Seq<char>) -> Option<Option<Mode>> {
    if is_absent(j, name) {
        Some(None)
    } else {
        match mode_in(j, name) {
            Some(mode) => Some(Some(mode)),
            None => None,
        }
    }
}

pub fn read_mode(j: &Json, name: &str) -> (r: Option<Mode>)
    ensures
        r == mode_in(j@, name@),
{
    match j.text_at(name) {
        Some(t) => if same(t.as_str(), Mode::Transcribe.as_str()) {
            Some(Mode::Transcribe)
        } else if same(t.as_str(), Mode::Codemix.as_str()) {
            Some(Mode::Codemix)
        } else {
            None
        },
        None => None,
    }
}

pub fn read_opt_mode(j: &Json, name: &str) -> (r: Option<Option<Mode>>)
    ensures
        r == opt_mode_in(j@, name@),
{
    match j.get(name) {
        None => Some(None),
        Some(Json::Null) => Some(None),
        Some(_) => match read_mode(j, name) {
            Some(mode) => Some(Some(mode)),
            None => None,
        },
    }
}

/// A mode is read back by the name it is saved with.
pub proof fn mode_name_reads_back(mode: Mode)
    ensures
        mode_named(mode.name()) == Some(mode),
{
    reveal_strlit("transcribe");
    reveal_strlit("codemix");
    assert("transcribe"@.len() != "codemix"@.len());
}

// -------------------------------------------------------------------- segment

/// The fields of a segment.
pub open spec fn segment_fields(v: SegmentView) -> Seq<(Seq<char>, Option<JsonView>)> {
    Seq::empty()
        .push(("speaker"@, Some(or_null(opt_text_json(v.speaker)))))
        .push(("text"@, Some(JsonView::Text(v.text))))
        .push(("start_seconds"@, Some(or_null(opt_seconds_json(v.start)))))
        .push(("end_seconds"@, Some(or_null(opt_seconds_json(v.end)))))
}

pub open spec fn segment_json(v: SegmentView) -> JsonView {
    JsonView::Object(fields(segment_fields(v)))
}

/// Whether a document holds a segment.
pub open spec fn segment_fits(j: JsonView) -> bool {
    &&& j is Object
    &&& opt_text_in(j, "speaker"@) is Some
    &&& j.text_at("text"@) is Some
    &&& opt_seconds_in(j, "start_seconds"@) is Some
    &&& opt_seconds_in(j, "end_seconds"@) is Some
}

/// What is read out of a document as a segment.
pub open spec fn segment_in(j: JsonView) -> Option<SegmentView> {
    if segment_fits(j) {
        Some(SegmentView {
            speaker: opt_text_in(j, "speaker"@)->0,
            text: j.text_at("text"@)->0,
            start: opt_seconds_in(j, "start_seconds"@)->0,
            end: opt_seconds_in(j, "end_seconds"@)->0,
        })
    } else {
        None
    }
}

spec fn segment_place(name: Seq<char>) -> int {
    if name == "speaker"@ {
        0
    } else if name == "text"@ {
        1
    } else if name == "start_seconds"@ {
        2
    } else if name == "end_seconds"@ {
        3
    } else {
        -1
    }
}

proof fn segment_names_differ(v: SegmentView)
    ensures
        distinct_fields(segment_fields(v)),
        has_ordinary_fields(segment_fields(v)),
{
    reveal(mark);
    reveal_strlit("$serde_json::private::Number");
    reveal_strlit("speaker");
    reveal_strlit("text");
    reveal_strlit("start_seconds");
    reveal_strlit("end_seconds");
    assert(mark("speaker"@) == (7nat, 's', 'p', 'k'));
    assert(mark("text"@) == (4nat, 't', 'e', 'e'));
    assert(mark("start_seconds"@) == (13nat, 's', 't', 'n'));
    assert(mark("end_seconds"@) == (11nat, 'e', 'n', 'n'));
    let all = segment_fields(v);
    assert forall|i: int| 0 <= i < all.len() implies segment_place((#[trigger] all[i]).0) == i by {}
    assert forall|i: int, j: int| 0 <= i < j < all.len() implies (#[trigger] all[i]).0 != (
    #[trigger] all[j]).0 by {
        assert(segment_place(all[i].0) == i);
        assert(segment_place(all[j].0) == j);
    }
    assert(segment_place(NUMBER_NAME@) == -1);
    assert forall|i: int| 0 <= i < all.len() implies (#[trigger] all[i]).0 != NUMBER_NAME@ by {
        assert(segment_place(all[i].0) == i);
    }
}

/// Whether every time of a segment can be written and read back.
pub open spec fn segment_storable(v: SegmentView) -> bool {
    &&& (v.start is Some ==> v.start->0 > i128::MIN)
    &&& (v.end is Some ==> v.end->0 > i128::MIN)
}

/// What is read back of a segment is what was written.
pub proof fn segment_reads_back(v: SegmentView)
    requires
        segment_storable(v),
    ensures
        segment_in(segment_json(v)) == Some(v),
{
    let all = segment_fields(v);
    let j = segment_json(v);
    segment_names_differ(v);
    field_listed(all, 0);
    assert(j.get("speaker"@) == Some(or_null(opt_text_json(v.speaker))));
    assert(opt_text_in(j, "speaker"@)->0 == v.speaker);
    field_listed(all, 1);
    assert(j.get("text"@) == Some(JsonView::Text(v.text)));
    assert(j.text_at("text"@)->0 == v.text);
    field_listed(all, 2);
    assert(j.get("start_seconds"@) == Some(or_null(opt_seconds_json(v.start))));
    if v.start is Some {
        seconds_read_back(v.start->0 as int);
    }
    assert(opt_seconds_in(j, "start_seconds"@)->0 == v.start);
    field_listed(all, 3);
    assert(j.get("end_seconds"@) == Some(or_null(opt_seconds_json(v.end))));
    if v.end is Some {
        seconds_read_back(v.end->0 as int);
    }
    assert(opt_seconds_in(j, "end_seconds"@)->0 == v.end);
    assert(segment_in(j)->0 =~= v);
}

fn write_segment(x: &Segment) -> (r: Json)
    ensures
        r@ == segment_json(x@),
{
    broadcast use fields_of_push;

    let mut e = new_entries();
    assert(entry_list(e@) =~= fields(Seq::empty()));
    put_value(&mut e, "speaker", Some(value_or_null(opt_text_value(&x.speaker))));
    put_value(&mut e, "text", Some(text_value(x.text.as_str())));
    put_value(&mut e, "start_seconds", Some(value_or_null(opt_seconds(x.start))));
    put_value(&mut e, "end_seconds", Some(value_or_null(opt_seconds(x.end))));
    object(e)
}

fn read_segment(j: &Json) -> (r: Option<Segment>)
    ensures
        match r {
            Some(x) => segment_in(j@) == Some(x@),
            None => segment_in(j@) is None,
        },
{
    match j {
        Json::Object(_) => {},
        _ => {
            return None;
        },
    }
    let speaker = match read_opt_text(j, "speaker") {
        Some(value) => value,
        None => {
            return None;
        },
    };
    let text = match read_text(j, "text") {
        Some(value) => value,
        None => {
            return None;
        },
    };
    let start = match read_opt_seconds(j, "start_seconds") {
        Some(value) => value,
        None => {
            return None;
        },
    };
    let end = match read_opt_seconds(j, "end_seconds") {
        Some(value) => value,
        None => {
            return None;
        },
    };
    let r = Segment {
        speaker,
        text,
        start,
        end,
    };
    assert(segment_in(j@)->0 =~= r@);
    Some(r)
}

pub open spec fn segments_json(list: Seq<SegmentView>) -> JsonView {
    JsonView::Array(Seq::new(list.len(), |i: int| segment_json(list[i])))
}

pub open spec fn segments_in(items: Seq<JsonView>) -> Option<Seq<SegmentView>> {
    if forall|i: int| 0 <= i < items.len() ==> segment_in(#[trigger] items[i]) is Some {
        Some(Seq::new(items.len(), |i: int| segment_in(items[i])->0))
    } else {
        None
    }
}

proof fn segments_read_back(list: Seq<SegmentView>)
    requires
        forall|i: int| 0 <= i < list.len() ==> segment_storable(#[trigger] list[i]),
    ensures
        segments_in(segments_json(list)->Array_0) == Some(list),
{
    let items = segments_json(list)->Array_0;
    assert forall|i: int| 0 <= i < items.len() implies segment_in(#[trigger] items[i]) == Some(
        list[i],
    ) by {
        assert(segment_storable(list[i]));
        segment_reads_back(list[i]);
    }
    assert(segments_in(items)->0 =~= list);
}

fn write_segments(list: &Vec<Segment>) -> (r: Json)
    ensures
        r@ == segments_json(segment_list(list@)),
{
    let mut items: Vec<Json> = Vec::new();
    let mut i: usize = 0;
    while i < list.len()
        invariant
            i <= list.len(),
            items.len() == i,
            forall|k: int|
                0 <= k < i ==> (#[trigger] items@[k])@ == segment_json(list@[k]@),
        decreases list.len() - i,
    {
        items.push(write_segment(&list[i]));
        i = i + 1;
    }
    let r = array(items);
    assert(r@->Array_0 =~= segments_json(segment_list(list@))->Array_0);
    r
}

fn read_segments(items: &Vec<Json>) -> (r: Option<Vec<Segment>>)
    ensures
        match r {
            Some(list) => segments_in(json_list(items@)) == Some(segment_list(list@)),
            None => segments_in(json_list(items@)) is None,
        },
{
    let ghost all = json_list(items@);
    let mut list: Vec<Segment> = Vec::new();
    let mut i: usize = 0;
    while i < items.len()
        invariant
            i <= items.len(),
            all == json_list(items@),
            list.len() == i,
            forall|k: int|
                0 <= k < i ==> segment_in(#[trigger] all[k]) == Some(list@[k]@),
        decreases items.len() - i,
    {
        match read_segment(&items[i]) {
            Some(x) => {
                list.push(x);
            },
            None => {
                assert(segment_in(all[i as int]) is None);
                return None;
            },
        }
        i = i + 1;
    }
    assert(segments_in(all)->0 =~= segment_list(list@));
    Some(list)
}

pub open spec fn segments_at(j: JsonView, name: Seq<char>) -> Option<Seq<SegmentView>> {
    match j.array_at(name) {
        Some(items) => segments_in(items),
        None => None,
    }
}

fn read_segments_at(j: &Json, name: &str) -> (r: Option<Vec<Segment>>)
    ensures
        match r {
            Some(list) => segments_at(j@, name@) == Some(segment_list(list@)),
            None => segments_at(j@, name@) is None,
        },
{
    match j.array_at(name) {
        Some(items) => read_segments(items),
        None => None,
    }
}

// -------------------------------------------------------------- transcription

/// The fields of a transcription.
pub open spec fn transcription_fields(v: TranscriptionView) -> Seq<(Seq<char>, Option<JsonView>)> {
    Seq::empty()
        .push(("text"@, Some(JsonView::Text(v.text))))
        .push(("segments"@, Some(segments_json(v.segments))))
        .push(("language_code"@, Some(or_null(opt_text_json(v.language_code)))))
}

pub open spec fn transcription_json(v: TranscriptionView) -> JsonView {
    JsonView::Object(fields(transcription_fields(v)))
}

/// Whether a document holds a transcription.
pub open spec fn transcription_fits(j: JsonView) -> bool {
    &&& j is Object
    &&& j.text_at("text"@) is Some
    &&& segments_at(j, "segments"@) is Some
    &&& opt_text_in(j, "language_code"@) is Some
}

/// What is read out of a document as a transcription.
pub open spec fn transcription_in(j: JsonView) -> Option<TranscriptionView> {
    if transcription_fits(j) {
        Some(TranscriptionView {
            text: j.text_at("text"@)->0,
            segments: segments_at(j, "segments"@)->0,
            language_code: opt_text_in(j, "language_code"@)->0,
        })
    } else {
        None
    }
}

spec fn transcription_place(name: Seq<char>) -> int {
    if name == "text"@ {
        0
    } else if name == "segments"@ {
        1
    } else if name == "language_code"@ {
        2
    } else {
        -1
    }
}

proof fn transcription_names_differ(v: TranscriptionView)
    ensures
        distinct_fields(transcription_fields(v)),
        has_ordinary_fields(transcription_fields(v)),
{
    reveal(mark);
    reveal_strlit("$serde_json::private::Number");
    reveal_strlit("text");
    reveal_strlit("segments");
    reveal_strlit("language_code");
    assert(mark("text"@) == (4nat, 't', 'e', 'e'));
    assert(mark("segments"@) == (8nat, 's', 'e', 'n'));
    assert(mark("language_code"@) == (13nat, 'l', 'a', 'o'));
    let all = transcription_fields(v);
    assert forall|i: int| 0 <= i < all.len() implies transcription_place((#[trigger] all[i]).0) == i by {}
    assert forall|i: int, j: int| 0 <= i < j < all.len() implies (#[trigger] all[i]).0 != (
    #[trigger] all[j]).0 by {
        assert(transcription_place(all[i].0) == i);
        assert(transcription_place(all[j].0) == j);
    }
    assert(transcription_place(NUMBER_NAME@) == -1);
    assert forall|i: int| 0 <= i < all.len() implies (#[trigger] all[i]).0 != NUMBER_NAME@ by {
        assert(transcription_place(all[i].0) == i);
    }
}

/// Whether every time of a transcription can be written and read back.
pub open spec fn transcription_storable(v: TranscriptionView) -> bool {
    &&& (forall|i: int| 0 <= i < v.segments.len() ==> segment_storable(#[trigger] v.segments[i]))
}

/// What is read back of a transcription is what was written.
pub proof fn transcription_reads_back(v: TranscriptionView)
    requires
        transcription_storable(v),
    ensures
        transcription_in(transcription_json(v)) == Some(v),
{
    let all = transcription_fields(v);
    let j = transcription_json(v);
    transcription_names_differ(v);
    field_listed(all, 0);
    assert(j.get("text"@) == Some(JsonView::Text(v.text)));
    assert(j.text_at("text"@)->0 == v.text);
    field_listed(all, 1);
    assert(j.get("segments"@) == Some(segments_json(v.segments)));
    segments_read_back(v.segments);
    assert(segments_at(j, "segments"@)->0 == v.segments);
    field_listed(all, 2);
    assert(j.get("language_code"@) == Some(or_null(opt_text_json(v.language_code))));
    assert(opt_text_in(j, "language_code"@)->0 == v.language_code);
    assert(transcription_in(j)->0 =~= v);
}

fn write_transcription(x: &Transcription) -> (r: Json)
    ensures
        r@ == transcription_json(x@),
{
    broadcast use fields_of_push;

    let mut e = new_entries();
    assert(entry_list(e@) =~= fields(Seq::empty()));
    put_value(&mut e, "text", Some(text_value(x.text.as_str())));
    put_value(&mut e, "segments", Some(write_segments(&x.segments)));
    put_value(&mut e, "language_code", Some(value_or_null(opt_text_value(&x.language_code))));
    object(e)
}

fn read_transcription(j: &Json) -> (r: Option<Transcription>)
    ensures
        match r {
            Some(x) => transcription_in(j@) == Some(x@),
            None => transcription_in(j@) is None,
        },
{
    match j {
        Json::Object(_) => {},
        _ => {
            return None;
        },
    }
    let text = match read_text(j, "text") {
        Some(value) => value,
        None => {
            return None;
        },
    };
    let segments = match read_segments_at(j, "segments") {
        Some(value) => value,
        None => {
            return None;
        },
    };
    let language_code = match read_opt_text(j, "language_code") {
        Some(value) => value,
        None => {
            return None;
        },
    };
    let r = Transcription {
        text,
        segments,
        language_code,
    };
    assert(transcription_in(j@)->0 =~= r@);
    Some(r)
}

pub open spec fn transcription_at(j: JsonView, name: Seq<char>) -> Option<TranscriptionView> {
    match j.get(name) {
        Some(value) => transcription_in(value),
        None => None,
    }
}

fn read_transcription_at(j: &Json, name: &str) -> (r: Option<Transcription>)
    ensures
        match r {
            Some(x) => transcription_at(j@, name@) == Some(x@),
            None => transcription_at(j@, name@) is None,
        },
{
    match j.get(name) {
        Some(value) => read_transcription(value),
        None => None,
    }
}

// ---------------------------------------------------------------------- facts

/// What the facts of a job stand for.
#[verifier::ext_equal]
pub struct FactsView {
    pub job_id: Seq<char>,
    pub elapsed: Time,
    pub partial: bool,
    pub failed_inputs: Seq<Seq<char>>,
}

pub open spec fn facts_view(x: BatchFacts) -> FactsView {
    FactsView {
        job_id: x.job_id@,
        elapsed: x.elapsed,
        partial: x.partial,
        failed_inputs: texts(x.failed_inputs@),
    }
}

/// The fields of the facts of a job.
pub open spec fn facts_fields(v: FactsView) -> Seq<(Seq<char>, Option<JsonView>)> {
    Seq::empty()
        .push(("jobId"@, Some(JsonView::Text(v.job_id))))
        .push(("elapsedSeconds"@, Some(seconds_json(v.elapsed as int))))
        .push(("partial"@, Some(JsonView::Bool(v.partial))))
        .push(("failedInputs"@, Some(json_texts(v.failed_inputs))))
}

pub open spec fn facts_json(v: FactsView) -> JsonView {
    JsonView::Object(fields(facts_fields(v)))
}

/// Whether a document holds the facts of a job.
pub open spec fn facts_fits(j: JsonView) -> bool {
    &&& j is Object
    &&& j.text_at("jobId"@) is Some
    &&& seconds_in(j, "elapsedSeconds"@) is Some
    &&& flag_in(j, "partial"@) is Some
    &&& texts_in(j, "failedInputs"@) is Some
}

/// What is read out of a document as the facts of a job.
pub open spec fn facts_in(j: JsonView) -> Option<FactsView> {
    if facts_fits(j) {
        Some(FactsView {
            job_id: j.text_at("jobId"@)->0,
            elapsed: seconds_in(j, "elapsedSeconds"@)->0,
            partial: flag_in(j, "partial"@)->0,
            failed_inputs: texts_in(j, "failedInputs"@)->0,
        })
    } else {
        None
    }
}

spec fn facts_place(name: Seq<char>) -> int {
    if name == "jobId"@ {
        0
    } else if name == "elapsedSeconds"@ {
        1
    } else if name == "partial"@ {
        2
    } else if name == "failedInputs"@ {
        3
    } else {
        -1
    }
}

proof fn facts_names_differ(v: FactsView)
    ensures
        distinct_fields(facts_fields(v)),
        has_ordinary_fields(facts_fields(v)),
{
    reveal(mark);
    reveal_strlit("$serde_json::private::Number");
    reveal_strlit("jobId");
    reveal_strlit("elapsedSeconds");
    reveal_strlit("partial");
    reveal_strlit("failedInputs");
    assert(mark("jobId"@) == (5nat, 'j', 'o', 'b'));
    assert(mark("elapsedSeconds"@) == (14nat, 'e', 'l', 'n'));
    assert(mark("partial"@) == (7nat, 'p', 'a', 'i'));
    assert(mark("failedInputs"@) == (12nat, 'f', 'a', 'u'));
    let all = facts_fields(v);
    assert forall|i: int| 0 <= i < all.len() implies facts_place((#[trigger] all[i]).0) == i by {}
    assert forall|i: int, j: int| 0 <= i < j < all.len() implies (#[trigger] all[i]).0 != (
    #[trigger] all[j]).0 by {
        assert(facts_place(all[i].0) == i);
        assert(facts_place(all[j].0) == j);
    }
    assert(facts_place(NUMBER_NAME@) == -1);
    assert forall|i: int| 0 <= i < all.len() implies (#[trigger] all[i]).0 != NUMBER_NAME@ by {
        assert(facts_place(all[i].0) == i);
    }
}

/// Whether every time of the facts of a job can be written and read back.
pub open spec fn facts_storable(v: FactsView) -> bool {
    &&& v.elapsed > i128::MIN
}

/// What is read back of the facts of a job is what was written.
pub proof fn facts_reads_back(v: FactsView)
    requires
        facts_storable(v),
    ensures
        facts_in(facts_json(v)) == Some(v),
{
    let all = facts_fields(v);
    let j = facts_json(v);
    facts_names_differ(v);
    field_listed(all, 0);
    assert(j.get("jobId"@) == Some(JsonView::Text(v.job_id)));
    assert(j.text_at("jobId"@)->0 == v.job_id);
    field_listed(all, 1);
    assert(j.get("elapsedSeconds"@) == Some(seconds_json(v.elapsed as int)));
    seconds_read_back(v.elapsed as int);
    assert(seconds_in(j, "elapsedSeconds"@)->0 == v.elapsed);
    field_listed(all, 2);
    assert(j.get("partial"@) == Some(JsonView::Bool(v.partial)));
    assert(flag_in(j, "partial"@)->0 == v.partial);
    field_listed(all, 3);
    assert(j.get("failedInputs"@) == Some(json_texts(v.failed_inputs)));
    texts_read_back(v.failed_inputs);
    assert(texts_in(j, "failedInputs"@)->0 == v.failed_inputs);
    assert(facts_in(j)->0 =~= v);
}

fn write_facts(x: &BatchFacts) -> (r: Json)
    ensures
        r@ == facts_json(facts_view(*x)),
{
    broadcast use fields_of_push;

    let mut e = new_entries();
    assert(entry_list(e@) =~= fields(Seq::empty()));
    put_value(&mut e, "jobId", Some(text_value(x.job_id.as_str())));
    put_value(&mut e, "elapsedSeconds", Some(write_seconds(x.elapsed)));
    put_value(&mut e, "partial", Some(Json::Bool(x.partial)));
    put_value(&mut e, "failedInputs", Some(text_array(&x.failed_inputs)));
    object(e)
}

fn read_facts(j: &Json) -> (r: Option<BatchFacts>)
    ensures
        match r {
            Some(x) => facts_in(j@) == Some(facts_view(x)),
            None => facts_in(j@) is None,
        },
{
    match j {
        Json::Object(_) => {},
        _ => {
            return None;
        },
    }
    let job_id = match read_text(j, "jobId") {
        Some(value) => value,
        None => {
            return None;
        },
    };
    let elapsed: Time = match read_seconds(j, "elapsedSeconds") {
        Some(value) => value,
        None => {
            return None;
        },
    };
    let partial = match read_flag(j, "partial") {
        Some(value) => value,
        None => {
            return None;
        },
    };
    let failed_inputs = match read_texts(j, "failedInputs") {
        Some(value) => value,
        None => {
            return None;
        },
    };
    let r = BatchFacts {
        job_id,
        elapsed,
        partial,
        failed_inputs,
    };
    assert(facts_in(j@)->0 =~= facts_view(r));
    Some(r)
}

pub open spec fn facts_at(j: JsonView, name: Seq<char>) -> Option<FactsView> {
    match j.get(name) {
        Some(value) => facts_in(value),
        None => None,
    }
}

fn read_facts_at(j: &Json, name: &str) -> (r: Option<BatchFacts>)
    ensures
        match r {
            Some(x) => facts_at(j@, name@) == Some(facts_view(x)),
            None => facts_at(j@, name@) is None,
        },
{
    match j.get(name) {
        Some(value) => read_facts(value),
        None => None,
    }
}

// ---------------------------------------------------------------------- saved

/// What a saved transcription stands for.
#[verifier::ext_equal]
pub struct SavedView {
    pub mode: Mode,
    pub transcription: TranscriptionView,
    pub facts: FactsView,
}

pub open spec fn saved_view(x: SavedTranscript) -> SavedView {
    SavedView {
        mode: x.mode,
        transcription: x.transcription@,
        facts: facts_view(x.facts),
    }
}

/// The fields of a saved transcription.
pub open spec fn saved_fields(v: SavedView) -> Seq<(Seq<char>, Option<JsonView>)> {
    Seq::empty()
        .push(("mode"@, Some(JsonView::Text(v.mode.name()))))
        .push(("transcription"@, Some(transcription_json(v.transcription))))
        .push(("facts"@, Some(facts_json(v.facts))))
}

pub open spec fn saved_json(v: SavedView) -> JsonView {
    JsonView::Object(fields(saved_fields(v)))
}

/// Whether a document holds a saved transcription.
pub open spec fn saved_fits(j: JsonView) -> bool {
    &&& j is Object
    &&& mode_in(j, "mode"@) is Some
    &&& transcription_at(j, "transcription"@) is Some
    &&& facts_at(j, "facts"@) is Some
}

/// What is read out of a document as a saved transcription.
pub open spec fn saved_in(j: JsonView) -> Option<SavedView> {
    if saved_fits(j) {
        Some(SavedView {
            mode: mode_in(j, "mode"@)->0,
            transcription: transcription_at(j, "transcription"@)->0,
            facts: facts_at(j, "facts"@)->0,
        })
    } else {
        None
    }
}

spec fn saved_place(name: Seq<char>) -> int {
    if name == "mode"@ {
        0
    } else if name == "transcription"@ {
        1
    } else if name == "facts"@ {
        2
    } else {
        -1
    }
}

proof fn saved_names_differ(v: SavedView)
    ensures
        distinct_fields(saved_fields(v)),
        has_ordinary_fields(saved_fields(v)),
{
    reveal(mark);
    reveal_strlit("$serde_json::private::Number");
    reveal_strlit("mode");
    reveal_strlit("transcription");
    reveal_strlit("facts");
    assert(mark("mode"@) == (4nat, 'm', 'o', 'o'));
    assert(mark("transcription"@) == (13nat, 't', 'r', 'i'));
    assert(mark("facts"@) == (5nat, 'f', 'a', 'c'));
    let all = saved_fields(v);
    assert forall|i: int| 0 <= i < all.len() implies saved_place((#[trigger] all[i]).0) == i by {}
    assert forall|i: int, j: int| 0 <= i < j < all.len() implies (#[trigger] all[i]).0 != (
    #[trigger] all[j]).0 by {
        assert(saved_place(all[i].0) == i);
        assert(saved_place(all[j].0) == j);
    }
    assert(saved_place(NUMBER_NAME@) == -1);
    assert forall|i: int| 0 <= i < all.len() implies (#[trigger] all[i]).0 != NUMBER_NAME@ by {
        assert(saved_place(all[i].0) == i);
    }
}

/// Whether every time of a saved transcription can be written and read back.
pub open spec fn saved_storable(v: SavedView) -> bool {
    &&& transcription_storable(v.transcription)
    &&& facts_storable(v.facts)
}

/// What is read back of a saved transcription is what was written.
pub proof fn saved_reads_back(v: SavedView)
    requires
        saved_storable(v),
    ensures
        saved_in(saved_json(v)) == Some(v),
{
    let all = saved_fields(v);
    let j = saved_json(v);
    saved_names_differ(v);
    field_listed(all, 0);
    assert(j.get("mode"@) == Some(JsonView::Text(v.mode.name())));
    mode_name_reads_back(v.mode);
    assert(mode_in(j, "mode"@)->0 == v.mode);
    field_listed(all, 1);
    assert(j.get("transcription"@) == Some(transcription_json(v.transcription)));
    transcription_reads_back(v.transcription);
    assert(transcription_at(j, "transcription"@)->0 == v.transcription);
    field_listed(all, 2);
    assert(j.get("facts"@) == Some(facts_json(v.facts)));
    facts_reads_back(v.facts);
    assert(facts_at(j, "facts"@)->0 == v.facts);
    assert(saved_in(j)->0 =~= v);
}

/// The document of a saved transcription.
pub fn write_saved(x: &SavedTranscript) -> (r: Json)
    ensures
        r@ == saved_json(saved_view(*x)),
{
    broadcast use fields_of_push;

    let mut e = new_entries();
    assert(entry_list(e@) =~= fields(Seq::empty()));
    put_value(&mut e, "mode", Some(text_value(x.mode.as_str())));
    put_value(&mut e, "transcription", Some(write_transcription(&x.transcription)));
    put_value(&mut e, "facts", Some(write_facts(&x.facts)));
    object(e)
}

/// Reads a saved transcription out of a document.
pub fn read_saved(j: &Json) -> (r: Option<SavedTranscript>)
    ensures
        match r {
            Some(x) => saved_in(j@) == Some(saved_view(x)),
            None => saved_in(j@) is None,
        },
{
    match j {
        Json::Object(_) => {},
        _ => {
            return None;
        },
    }
    let mode = match read_mode(j, "mode") {
        Some(value) => value,
        None => {
            return None;
        },
    };
    let transcription = match read_transcription_at(j, "transcription") {
        Some(value) => value,
        None => {
            return None;
        },
    };
    let facts = match read_facts_at(j, "facts") {
        Some(value) => value,
        None => {
            return None;
        },
    };
    let r = SavedTranscript {
        mode,
        transcription,
        facts,
    };
    assert(saved_in(j@)->0 =~= saved_view(r));
    Some(r)
}

/// The record in the text of a file. One that cannot be read, or holds no words, counts as
/// absent.
pub open spec fn loaded_saved(text: Seq<char>) -> Option<SavedView> {
    match json_read(text) {
        Some(j) => match saved_in(j) {
            Some(v) => if has_words(v.transcription) {
                Some(v)
            } else {
                None
            },
            None => None,
        },
        None => None,
    }
}

/// What is loaded can be kept again.
pub fn load_saved(text: &str) -> (r: Option<SavedTranscript>)
    ensures
        match r {
            Some(saved) => loaded_saved(text@) == Some(saved_view(saved)) && saved_storable(
                saved_view(saved),
            ) && has_words(saved.transcription@),
            None => loaded_saved(text@) is None,
        },
{
    match parse_json(text) {
        Some(j) => {
            proof {
                if saved_in(j@) is Some {
                    saved_that_was_read(j@);
                }
            }
            saved_transcript(read_saved(&j))
        },
        None => None,
    }
}

// ----------------------------------------------------------------------- the file

proof fn segment_that_was_read(j: JsonView)
    requires
        segment_in(j) is Some,
    ensures
        segment_storable(segment_in(j)->0),
{
    seconds_that_were_read(j.get("start_seconds"@)->0->Number_0);
    seconds_that_were_read(j.get("end_seconds"@)->0->Number_0);
}

proof fn saved_that_was_read(j: JsonView)
    requires
        saved_in(j) is Some,
    ensures
        saved_storable(saved_in(j)->0),
{
    let facts = j.get("facts"@)->0;
    seconds_that_were_read(facts.get("elapsedSeconds"@)->0->Number_0);
    let words = j.get("transcription"@)->0;
    let items = words.array_at("segments"@)->0;
    let v = saved_in(j)->0.transcription;
    assert forall|i: int| 0 <= i < v.segments.len() implies segment_storable(
        #[trigger] v.segments[i],
    ) by {
        assert(segment_in(items[i]) is Some);
        segment_that_was_read(items[i]);
    }
}

proof fn segment_is_plain(v: SegmentView, depth: nat)
    ensures
        is_plain(segment_json(v), depth + 1),
{
    let all = segment_fields(v);
    segment_names_differ(v);
    if v.start is Some {
        seconds_are_numeral(v.start->0 as int);
    }
    if v.end is Some {
        seconds_are_numeral(v.end->0 as int);
    }
    assert(has_plain_fields(all, depth));
    fields_are_plain(all, depth);
}

proof fn transcription_is_plain(v: TranscriptionView, depth: nat)
    ensures
        is_plain(transcription_json(v), depth + 3),
{
    let all = transcription_fields(v);
    transcription_names_differ(v);
    let items = segments_json(v.segments)->Array_0;
    assert forall|i: int| 0 <= i < items.len() implies is_plain(#[trigger] items[i], depth + 1) by {
        segment_is_plain(v.segments[i], depth);
    }
    assert(is_plain(segments_json(v.segments), depth + 2));
    assert(has_plain_fields(all, depth + 2));
    fields_are_plain(all, depth + 2);
}

proof fn facts_are_plain(v: FactsView, depth: nat)
    ensures
        is_plain(facts_json(v), depth + 2),
{
    let all = facts_fields(v);
    facts_names_differ(v);
    seconds_are_numeral(v.elapsed as int);
    let items = json_texts(v.failed_inputs)->Array_0;
    assert forall|i: int| 0 <= i < items.len() implies is_plain(#[trigger] items[i], depth) by {
        assert(items[i] is Text);
    }
    assert(is_plain(json_texts(v.failed_inputs), depth + 1));
    assert(has_plain_fields(all, depth + 1));
    fields_are_plain(all, depth + 1);
}

proof fn saved_is_plain(v: SavedView)
    ensures
        is_plain(saved_json(v), READABLE_DEPTH as nat),
{
    let depth: nat = (READABLE_DEPTH - 1) as nat;
    let all = saved_fields(v);
    saved_names_differ(v);
    transcription_is_plain(v.transcription, (depth - 3) as nat);
    facts_are_plain(v.facts, (depth - 2) as nat);
    assert(has_plain_fields(all, depth));
    fields_are_plain(all, depth);
}

/// The text that a transcription is kept as. What is loaded out of it is that transcription,
/// where it holds words.
pub fn saved_text(saved: &SavedTranscript) -> (r: String)
    ensures
        r@ == json_pretty(json_stored(saved_json(saved_view(*saved)))),
        saved_storable(saved_view(*saved)) && has_words(saved.transcription@) ==> loaded_saved(r@)
            == Some(saved_view(*saved)),
{
    proof {
        saved_is_plain(saved_view(*saved));
        if saved_storable(saved_view(*saved)) {
            saved_reads_back(saved_view(*saved));
        }
    }
    pretty_json(&write_saved(saved))
}

// ------------------------------------------------------------------ names in the file

/// Everything that is known of a segment is written under its own name.
pub proof fn a_segment_is_written_under_its_names(v: SegmentView)
    ensures
        segment_json(v).get("speaker"@) == Some(or_null(opt_text_json(v.speaker))),
        segment_json(v).get("text"@) == Some(JsonView::Text(v.text)),
        segment_json(v).get("start_seconds"@) == Some(or_null(opt_seconds_json(v.start))),
        segment_json(v).get("end_seconds"@) == Some(or_null(opt_seconds_json(v.end))),
{
    let all = segment_fields(v);
    segment_names_differ(v);
    field_listed(all, 0);
    field_listed(all, 1);
    field_listed(all, 2);
    field_listed(all, 3);
}

/// Everything that is known of a transcription is written under its own name.
pub proof fn a_transcription_is_written_under_its_names(v: TranscriptionView)
    ensures
        transcription_json(v).get("text"@) == Some(JsonView::Text(v.text)),
        transcription_json(v).get("segments"@) == Some(segments_json(v.segments)),
        transcription_json(v).get("language_code"@) == Some(or_null(opt_text_json(v.language_code))),
{
    let all = transcription_fields(v);
    transcription_names_differ(v);
    field_listed(all, 0);
    field_listed(all, 1);
    field_listed(all, 2);
}

/// Everything that is known of a job is written under its own name.
pub proof fn a_job_is_written_under_its_names(v: FactsView)
    ensures
        facts_json(v).get("jobId"@) == Some(JsonView::Text(v.job_id)),
        facts_json(v).get("elapsedSeconds"@) == Some(seconds_json(v.elapsed as int)),
        facts_json(v).get("partial"@) == Some(JsonView::Bool(v.partial)),
        facts_json(v).get("failedInputs"@) == Some(json_texts(v.failed_inputs)),
{
    let all = facts_fields(v);
    facts_names_differ(v);
    field_listed(all, 0);
    field_listed(all, 1);
    field_listed(all, 2);
    field_listed(all, 3);
}

/// Everything that is kept of a run is written under its own name.
pub proof fn a_run_is_written_under_its_names(v: SavedView)
    ensures
        saved_json(v).get("mode"@) == Some(JsonView::Text(v.mode.name())),
        saved_json(v).get("transcription"@) == Some(transcription_json(v.transcription)),
        saved_json(v).get("facts"@) == Some(facts_json(v.facts)),
{
    let all = saved_fields(v);
    saved_names_differ(v);
    field_listed(all, 0);
    field_listed(all, 1);
    field_listed(all, 2);
}

} // verus!
