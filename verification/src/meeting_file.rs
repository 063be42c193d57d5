//! The state file: a meeting as it is kept on disk, where another process reads it.
use vstd::prelude::*;
use crate::json::{
    Json, JsonView, NUMBER_NAME, READABLE_DEPTH, array, decimal_is_numeral, distinct_fields,
    entry_list, field_listed, fields, fields_are_plain, fields_of_push, has_ordinary_fields,
    has_plain_fields, is_numeral, is_plain, json_list, json_pretty, json_read, json_stored,
    member_is_plain, new_entries, number_json, object, opt_nat64, parse_json, pretty_json,
    put_number, put_value, seconds_are_numeral, text_value,
};
use crate::members::{
    flag_in, flag_or_off_in, mark, number_in, number_text_in, opt_number_in, opt_seconds,
    opt_seconds_in, opt_seconds_json, opt_text_in, opt_text_value, or_null, read_flag,
    read_flag_or_off, read_number, read_number_text, read_opt_number, read_opt_seconds,
    read_opt_text, read_seconds, read_text, seconds_in, seconds_json, value_or_null, write_count,
    write_seconds,
};
use crate::number::{decimal, parse_reads_back_decimal};
use crate::sarvam_batch::Mode;
use crate::state::{ActiveMeeting, Phase, SampleCandidate, SampleReport, SourceLevel};
use crate::text::{opt_text, same};
use crate::time::{Time, seconds_read_back, seconds_that_were_read};
use crate::transcript_file::{
    mode_in, mode_name_reads_back, opt_mode_in, opt_mode_json, opt_text_json, read_mode,
    read_opt_mode,
};

verus! {

// --------------------------------------------------------------------------- names

/// The phase of a name as it is written.
pub open spec fn phase_named(name: Seq<char>) -> Option<Phase> {
    if name == Phase::Starting.name() {
        Some(Phase::Starting)
    } else if name == Phase::Recording.name() {
        Some(Phase::Recording)
    } else if name == Phase::Stopping.name() {
        Some(Phase::Stopping)
    } else if name == Phase::Recorded.name() {
        Some(Phase::Recorded)
    } else if name == Phase::Sampling.name() {
        Some(Phase::Sampling)
    } else if name == Phase::AwaitingApproval.name() {
        Some(Phase::AwaitingApproval)
    } else if name == Phase::Transcribing.name() {
        Some(Phase::Transcribing)
    } else if name == Phase::Summarising.name() {
        Some(Phase::Summarising)
    } else if name == Phase::Done.name() {
        Some(Phase::Done)
    } else if name == Phase::Failed.name() {
        Some(Phase::Failed)
    } else {
        None
    }
}

pub open spec fn phase_in(j: JsonView, name: Seq<char>) -> Option<Phase> {
    match j.text_at(name) {
        Some(t) => phase_named(t),
        None => None,
    }
}

fn read_phase(j: &Json, name: &str) -> (r: Option<Phase>)
    ensures
        r == phase_in(j@, name@),
{
    let t = match j.text_at(name) {
        Some(t) => t,
        None => {
            return None;
        },
    };
    if same(t.as_str(), Phase::Starting.as_str()) {
        return Some(Phase::Starting);
    }
    if same(t.as_str(), Phase::Recording.as_str()) {
        return Some(Phase::Recording);
    }
    if same(t.as_str(), Phase::Stopping.as_str()) {
        return Some(Phase::Stopping);
    }
    if same(t.as_str(), Phase::Recorded.as_str()) {
        return Some(Phase::Recorded);
    }
    if same(t.as_str(), Phase::Sampling.as_str()) {
        return Some(Phase::Sampling);
    }
    if same(t.as_str(), Phase::AwaitingApproval.as_str()) {
        return Some(Phase::AwaitingApproval);
    }
    if same(t.as_str(), Phase::Transcribing.as_str()) {
        return Some(Phase::Transcribing);
    }
    if same(t.as_str(), Phase::Summarising.as_str()) {
        return Some(Phase::Summarising);
    }
    if same(t.as_str(), Phase::Done.as_str()) {
        return Some(Phase::Done);
    }
    if same(t.as_str(), Phase::Failed.as_str()) {
        return Some(Phase::Failed);
    }
    None
}

proof fn phase_name_reads_back(phase: Phase)
    ensures
        phase_named(phase.name()) == Some(phase),
{
    reveal(mark);
    reveal_strlit("starting");
    reveal_strlit("recording");
    reveal_strlit("stopping");
    reveal_strlit("recorded");
    reveal_strlit("sampling");
    reveal_strlit("awaiting-approval");
    reveal_strlit("transcribing");
    reveal_strlit("summarising");
    reveal_strlit("done");
    reveal_strlit("failed");
    assert(mark("starting"@) == (8nat, 's', 't', 'i'));
    assert(mark("recording"@) == (9nat, 'r', 'e', 'i'));
    assert(mark("stopping"@) == (8nat, 's', 't', 'i'));
    assert(mark("recorded"@) == (8nat, 'r', 'e', 'd'));
    assert(mark("sampling"@) == (8nat, 's', 'a', 'i'));
    assert(mark("awaiting-approval"@) == (17nat, 'a', 'w', 'v'));
    assert(mark("transcribing"@) == (12nat, 't', 'r', 'i'));
    assert(mark("summarising"@) == (11nat, 's', 'u', 'i'));
    assert(mark("done"@) == (4nat, 'd', 'o', 'o'));
    assert(mark("failed"@) == (6nat, 'f', 'a', 'l'));
    assert("starting"@[2] != "stopping"@[2]);
}

pub open spec fn opt_nat32(value: Option<u32>) -> Option<nat> {
    match value {
        Some(n) => Some(n as nat),
        None => None,
    }
}

pub open spec fn opt_u32(value: Option<nat>) -> Option<u32> {
    match value {
        Some(n) => Some(n as u32),
        None => None,
    }
}

fn widened(value: Option<u32>) -> (r: Option<u64>)
    ensures
        opt_nat64(r) == opt_nat32(value),
{
    match value {
        Some(n) => Some(n as u64),
        None => None,
    }
}

fn narrowed(value: Option<u64>) -> (r: Option<u32>)
    ensures
        r == opt_u32(opt_nat64(value)),
{
    match value {
        Some(n) => Some(n as u32),
        None => None,
    }
}

// ------------------------------------------------------------------ candidate

/// What a transcription of the sample stands for.
#[verifier::ext_equal]
pub struct CandidateView {
    pub mode: Mode,
    pub text: Seq<char>,
    pub elapsed: Time,
    pub segment_count: usize,
    pub speaker_labels: usize,
    pub overlapping_segments: usize,
    pub detected_language: Option<Seq<char>>,
    pub covered: Option<Time>,
    pub sample_length: Time,
    pub error: Option<Seq<char>>,
}

pub open spec fn candidate_view(x: SampleCandidate) -> CandidateView {
    CandidateView {
        mode: x.mode,
        text: x.text@,
        elapsed: x.elapsed,
        segment_count: x.segment_count,
        speaker_labels: x.speaker_labels,
        overlapping_segments: x.overlapping_segments,
        detected_language: opt_text(x.detected_language),
        covered: x.covered,
        sample_length: x.sample_length,
        error: opt_text(x.error),
    }
}

pub open spec fn candidate_views(list: Seq<SampleCandidate>) -> Seq<CandidateView> {
    Seq::new(list.len(), |i: int| candidate_view(list[i]))
}

/// The fields of a transcription of the sample.
pub open spec fn candidate_fields(v: CandidateView) -> Seq<(Seq<char>, Option<JsonView>)> {
    Seq::empty()
        .push(("mode"@, Some(JsonView::Text(v.mode.name()))))
        .push(("text"@, Some(JsonView::Text(v.text))))
        .push(("elapsedSeconds"@, Some(seconds_json(v.elapsed as int))))
        .push(("segmentCount"@, Some(JsonView::Number(decimal(v.segment_count as nat)))))
        .push(("speakerLabels"@, Some(JsonView::Number(decimal(v.speaker_labels as nat)))))
        .push(("overlappingSegments"@, Some(JsonView::Number(decimal(v.overlapping_segments as nat)))))
        .push(("detectedLanguage"@, Some(or_null(opt_text_json(v.detected_language)))))
        .push(("coveredSeconds"@, Some(or_null(opt_seconds_json(v.covered)))))
        .push(("sampleSeconds"@, Some(seconds_json(v.sample_length as int))))
        .push(("error"@, Some(or_null(opt_text_json(v.error)))))
}

pub open spec fn candidate_json(v: CandidateView) -> JsonView {
    JsonView::Object(fields(candidate_fields(v)))
}

/// Whether a document holds a transcription of the sample.
pub open spec fn candidate_fits(j: JsonView) -> bool {
    &&& j is Object
    &&& mode_in(j, "mode"@) is Some
    &&& j.text_at("text"@) is Some
    &&& seconds_in(j, "elapsedSeconds"@) is Some
    &&& number_in(j, "segmentCount"@, usize::MAX as nat) is Some
    &&& number_in(j, "speakerLabels"@, usize::MAX as nat) is Some
    &&& number_in(j, "overlappingSegments"@, usize::MAX as nat) is Some
    &&& opt_text_in(j, "detectedLanguage"@) is Some
    &&& opt_seconds_in(j, "coveredSeconds"@) is Some
    &&& seconds_in(j, "sampleSeconds"@) is Some
    &&& opt_text_in(j, "error"@) is Some
}

/// What is read out of a document as a transcription of the sample.
pub open spec fn candidate_in(j: JsonView) -> Option<CandidateView> {
    if candidate_fits(j) {
        Some(CandidateView {
            mode: mode_in(j, "mode"@)->0,
            text: j.text_at("text"@)->0,
            elapsed: seconds_in(j, "elapsedSeconds"@)->0,
            segment_count: (number_in(j, "segmentCount"@, usize::MAX as nat)->0) as usize,
            speaker_labels: (number_in(j, "speakerLabels"@, usize::MAX as nat)->0) as usize,
            overlapping_segments: (number_in(j, "overlappingSegments"@, usize::MAX as nat)->0) as usize,
            detected_language: opt_text_in(j, "detectedLanguage"@)->0,
            covered: opt_seconds_in(j, "coveredSeconds"@)->0,
            sample_length: seconds_in(j, "sampleSeconds"@)->0,
            error: opt_text_in(j, "error"@)->0,
        })
    } else {
        None
    }
}

spec fn candidate_place(name: Seq<char>) -> int {
    if name == "mode"@ {
        0
    } else if name == "text"@ {
        1
    } else if name == "elapsedSeconds"@ {
        2
    } else if name == "segmentCount"@ {
        3
    } else if name == "speakerLabels"@ {
        4
    } else if name == "overlappingSegments"@ {
        5
    } else if name == "detectedLanguage"@ {
        6
    } else if name == "coveredSeconds"@ {
        7
    } else if name == "sampleSeconds"@ {
        8
    } else if name == "error"@ {
        9
    } else {
        -1
    }
}

proof fn candidate_names_differ(v: CandidateView)
    ensures
        distinct_fields(candidate_fields(v)),
        has_ordinary_fields(candidate_fields(v)),
{
    reveal(mark);
    reveal_strlit("$serde_json::private::Number");
    reveal_strlit("mode");
    reveal_strlit("text");
    reveal_strlit("elapsedSeconds");
    reveal_strlit("segmentCount");
    reveal_strlit("speakerLabels");
    reveal_strlit("overlappingSegments");
    reveal_strlit("detectedLanguage");
    reveal_strlit("coveredSeconds");
    reveal_strlit("sampleSeconds");
    reveal_strlit("error");
    assert(mark("mode"@) == (4nat, 'm', 'o', 'o'));
    assert(mark("text"@) == (4nat, 't', 'e', 'e'));
    assert(mark("elapsedSeconds"@) == (14nat, 'e', 'l', 'n'));
    assert(mark("segmentCount"@) == (12nat, 's', 'e', 'u'));
    assert(mark("speakerLabels"@) == (13nat, 's', 'p', 'e'));
    assert(mark("overlappingSegments"@) == (19nat, 'o', 'v', 'n'));
    assert(mark("detectedLanguage"@) == (16nat, 'd', 'e', 'a'));
    assert(mark("coveredSeconds"@) == (14nat, 'c', 'o', 'n'));
    assert(mark("sampleSeconds"@) == (13nat, 's', 'a', 'n'));
    assert(mark("error"@) == (5nat, 'e', 'r', 'r'));
    let all = candidate_fields(v);
    assert forall|i: int| 0 <= i < all.len() implies candidate_place((#[trigger] all[i]).0) == i by {}
    assert forall|i: int, j: int| 0 <= i < j < all.len() implies (#[trigger] all[i]).0 != (
    #[trigger] all[j]).0 by {
        assert(candidate_place(all[i].0) == i);
        assert(candidate_place(all[j].0) == j);
    }
    assert(candidate_place(NUMBER_NAME@) == -1);
    assert forall|i: int| 0 <= i < all.len() implies (#[trigger] all[i]).0 != NUMBER_NAME@ by {
        assert(candidate_place(all[i].0) == i);
    }
}

/// Whether every time of a transcription of the sample can be written and read back.
pub open spec fn candidate_storable(v: CandidateView) -> bool {
    &&& v.elapsed > i128::MIN
    &&& (v.covered is Some ==> v.covered->0 > i128::MIN)
    &&& v.sample_length > i128::MIN
}

/// What is read back of a transcription of the sample is what was written.
pub proof fn candidate_reads_back(v: CandidateView)
    requires
        candidate_storable(v),
    ensures
        candidate_in(candidate_json(v)) == Some(v),
{
    let all = candidate_fields(v);
    let j = candidate_json(v);
    candidate_names_differ(v);
    field_listed(all, 0);
    assert(j.get("mode"@) == Some(JsonView::Text(v.mode.name())));
    mode_name_reads_back(v.mode);
    assert(mode_in(j, "mode"@)->0 == v.mode);
    field_listed(all, 1);
    assert(j.get("text"@) == Some(JsonView::Text(v.text)));
    assert(j.text_at("text"@)->0 == v.text);
    field_listed(all, 2);
    assert(j.get("elapsedSeconds"@) == Some(seconds_json(v.elapsed as int)));
    seconds_read_back(v.elapsed as int);
    assert(seconds_in(j, "elapsedSeconds"@)->0 == v.elapsed);
    field_listed(all, 3);
    assert(j.get("segmentCount"@) == Some(JsonView::Number(decimal(v.segment_count as nat))));
    parse_reads_back_decimal(v.segment_count as nat, usize::MAX as nat);
    assert((number_in(j, "segmentCount"@, usize::MAX as nat)->0) as usize == v.segment_count);
    field_listed(all, 4);
    assert(j.get("speakerLabels"@) == Some(JsonView::Number(decimal(v.speaker_labels as nat))));
    parse_reads_back_decimal(v.speaker_labels as nat, usize::MAX as nat);
    assert((number_in(j, "speakerLabels"@, usize::MAX as nat)->0) as usize == v.speaker_labels);
    field_listed(all, 5);
    assert(j.get("overlappingSegments"@) == Some(JsonView::Number(decimal(v.overlapping_segments as nat))));
    parse_reads_back_decimal(v.overlapping_segments as nat, usize::MAX as nat);
    assert((number_in(j, "overlappingSegments"@, usize::MAX as nat)->0) as usize == v.overlapping_segments);
    field_listed(all, 6);
    assert(j.get("detectedLanguage"@) == Some(or_null(opt_text_json(v.detected_language))));
    assert(opt_text_in(j, "detectedLanguage"@)->0 == v.detected_language);
    field_listed(all, 7);
    assert(j.get("coveredSeconds"@) == Some(or_null(opt_seconds_json(v.covered))));
    if v.covered is Some {
        seconds_read_back(v.covered->0 as int);
    }
    assert(opt_seconds_in(j, "coveredSeconds"@)->0 == v.covered);
    field_listed(all, 8);
    assert(j.get("sampleSeconds"@) == Some(seconds_json(v.sample_length as int)));
    seconds_read_back(v.sample_length as int);
    assert(seconds_in(j, "sampleSeconds"@)->0 == v.sample_length);
    field_listed(all, 9);
    assert(j.get("error"@) == Some(or_null(opt_text_json(v.error))));
    assert(opt_text_in(j, "error"@)->0 == v.error);
    assert(candidate_in(j)->0 =~= v);
}

fn write_candidate(x: &SampleCandidate) -> (r: Json)
    ensures
        r@ == candidate_json(candidate_view(*x)),
{
    broadcast use fields_of_push;

    let mut e = new_entries();
    assert(entry_list(e@) =~= fields(Seq::empty()));
    put_value(&mut e, "mode", Some(text_value(x.mode.as_str())));
    put_value(&mut e, "text", Some(text_value(x.text.as_str())));
    put_value(&mut e, "elapsedSeconds", Some(write_seconds(x.elapsed)));
    put_value(&mut e, "segmentCount", Some(write_count(x.segment_count)));
    put_value(&mut e, "speakerLabels", Some(write_count(x.speaker_labels)));
    put_value(&mut e, "overlappingSegments", Some(write_count(x.overlapping_segments)));
    put_value(&mut e, "detectedLanguage", Some(value_or_null(opt_text_value(&x.detected_language))));
    put_value(&mut e, "coveredSeconds", Some(value_or_null(opt_seconds(x.covered))));
    put_value(&mut e, "sampleSeconds", Some(write_seconds(x.sample_length)));
    put_value(&mut e, "error", Some(value_or_null(opt_text_value(&x.error))));
    object(e)
}

fn read_candidate(j: &Json) -> (r: Option<SampleCandidate>)
    ensures
        match r {
            Some(x) => candidate_in(j@) == Some(candidate_view(x)),
            None => candidate_in(j@) is None,
        },
{
    match j {
        Json::Object(_) => {},
        _ => {
            return None;
        },
    }
    let mode = match read_mode(j, "mode") {
        Some(value) => value,
        None => {
            return None;
        },
    };
    let text = match read_text(j, "text") {
        Some(value) => value,
        None => {
            return None;
        },
    };
    let elapsed: Time = match read_seconds(j, "elapsedSeconds") {
        Some(value) => value,
        None => {
            return None;
        },
    };
    let segment_count: u64 = match read_number(j, "segmentCount", usize::MAX as u64) {
        Some(value) => value,
        None => {
            return None;
        },
    };
    let speaker_labels: u64 = match read_number(j, "speakerLabels", usize::MAX as u64) {
        Some(value) => value,
        None => {
            return None;
        },
    };
    let overlapping_segments: u64 = match read_number(j, "overlappingSegments", usize::MAX as u64) {
        Some(value) => value,
        None => {
            return None;
        },
    };
    let detected_language = match read_opt_text(j, "detectedLanguage") {
        Some(value) => value,
        None => {
            return None;
        },
    };
    let covered = match read_opt_seconds(j, "coveredSeconds") {
        Some(value) => value,
        None => {
            return None;
        },
    };
    let sample_length: Time = match read_seconds(j, "sampleSeconds") {
        Some(value) => value,
        None => {
            return None;
        },
    };
    let error = match read_opt_text(j, "error") {
        Some(value) => value,
        None => {
            return None;
        },
    };
    let r = SampleCandidate {
        mode,
        text,
        elapsed,
        segment_count: segment_count as usize,
        speaker_labels: speaker_labels as usize,
        overlapping_segments: overlapping_segments as usize,
        detected_language,
        covered,
        sample_length,
        error,
    };
    assert(candidate_in(j@)->0 =~= candidate_view(r));
    Some(r)
}

pub open spec fn candidates_json(list: Seq<CandidateView>) -> JsonView {
    JsonView::Array(Seq::new(list.len(), |i: int| candidate_json(list[i])))
}

pub open spec fn candidates_in(items: Seq<JsonView>) -> Option<Seq<CandidateView>> {
    if forall|i: int| 0 <= i < items.len() ==> candidate_in(#[trigger] items[i]) is Some {
        Some(Seq::new(items.len(), |i: int| candidate_in(items[i])->0))
    } else {
        None
    }
}

proof fn candidates_read_back(list: Seq<CandidateView>)
    requires
        forall|i: int| 0 <= i < list.len() ==> candidate_storable(#[trigger] list[i]),
    ensures
        candidates_in(candidates_json(list)->Array_0) == Some(list),
{
    let items = candidates_json(list)->Array_0;
    assert forall|i: int| 0 <= i < items.len() implies candidate_in(#[trigger] items[i]) == Some(
        list[i],
    ) by {
        assert(candidate_storable(list[i]));
        candidate_reads_back(list[i]);
    }
    assert(candidates_in(items)->0 =~= list);
}

fn write_candidates(list: &Vec<SampleCandidate>) -> (r: Json)
    ensures
        r@ == candidates_json(candidate_views(list@)),
{
    let mut items: Vec<Json> = Vec::new();
    let mut i: usize = 0;
    while i < list.len()
        invariant
            i <= list.len(),
            items.len() == i,
            forall|k: int|
                0 <= k < i ==> (#[trigger] items@[k])@ == candidate_json(candidate_view(list@[k])),
        decreases list.len() - i,
    {
        items.push(write_candidate(&list[i]));
        i = i + 1;
    }
    let r = array(items);
    assert(r@->Array_0 =~= candidates_json(candidate_views(list@))->Array_0);
    r
}

fn read_candidates(items: &Vec<Json>) -> (r: Option<Vec<SampleCandidate>>)
    ensures
        match r {
            Some(list) => candidates_in(json_list(items@)) == Some(candidate_views(list@)),
            None => candidates_in(json_list(items@)) is None,
        },
{
    let ghost all = json_list(items@);
    let mut list: Vec<SampleCandidate> = Vec::new();
    let mut i: usize = 0;
    while i < items.len()
        invariant
            i <= items.len(),
            all == json_list(items@),
            list.len() == i,
            forall|k: int|
                0 <= k < i ==> candidate_in(#[trigger] all[k]) == Some(candidate_view(list@[k])),
        decreases items.len() - i,
    {
        match read_candidate(&items[i]) {
            Some(x) => {
                list.push(x);
            },
            None => {
                assert(candidate_in(all[i as int]) is None);
                return None;
            },
        }
        i = i + 1;
    }
    assert(candidates_in(all)->0 =~= candidate_views(list@));
    Some(list)
}

pub open spec fn candidates_at(j: JsonView, name: Seq<char>) -> Option<Seq<CandidateView>> {
    match j.array_at(name) {
        Some(items) => candidates_in(items),
        None => None,
    }
}

fn read_candidates_at(j: &Json, name: &str) -> (r: Option<Vec<SampleCandidate>>)
    ensures
        match r {
            Some(list) => candidates_at(j@, name@) == Some(candidate_views(list@)),
            None => candidates_at(j@, name@) is None,
        },
{
    match j.array_at(name) {
        Some(items) => read_candidates(items),
        None => None,
    }
}

// --------------------------------------------------------------------- sample

/// What the findings of the sample gate stand for.
#[verifier::ext_equal]
pub struct SampleView {
    pub window_start: Time,
    pub window_length: Time,
    pub window_rms: Seq<char>,
    pub candidates: Seq<CandidateView>,
}

pub open spec fn sample_view(x: SampleReport) -> SampleView {
    SampleView {
        window_start: x.window_start,
        window_length: x.window_length,
        window_rms: x.window_rms@,
        candidates: candidate_views(x.candidates@),
    }
}

/// The fields of the findings of the sample gate.
pub open spec fn sample_fields(v: SampleView) -> Seq<(Seq<char>, Option<JsonView>)> {
    Seq::empty()
        .push(("windowStartSeconds"@, Some(seconds_json(v.window_start as int))))
        .push(("windowSeconds"@, Some(seconds_json(v.window_length as int))))
        .push(("windowRms"@, Some(JsonView::Number(v.window_rms))))
        .push(("candidates"@, Some(candidates_json(v.candidates))))
}

pub open spec fn sample_json(v: SampleView) -> JsonView {
    JsonView::Object(fields(sample_fields(v)))
}

/// Whether a document holds the findings of the sample gate.
pub open spec fn sample_fits(j: JsonView) -> bool {
    &&& j is Object
    &&& seconds_in(j, "windowStartSeconds"@) is Some
    &&& seconds_in(j, "windowSeconds"@) is Some
    &&& number_text_in(j, "windowRms"@) is Some
    &&& candidates_at(j, "candidates"@) is Some
}

/// What is read out of a document as the findings of the sample gate.
pub open spec fn sample_in(j: JsonView) -> Option<SampleView> {
    if sample_fits(j) {
        Some(SampleView {
            window_start: seconds_in(j, "windowStartSeconds"@)->0,
            window_length: seconds_in(j, "windowSeconds"@)->0,
            window_rms: number_text_in(j, "windowRms"@)->0,
            candidates: candidates_at(j, "candidates"@)->0,
        })
    } else {
        None
    }
}

spec fn sample_place(name: Seq<char>) -> int {
    if name == "windowStartSeconds"@ {
        0
    } else if name == "windowSeconds"@ {
        1
    } else if name == "windowRms"@ {
        2
    } else if name == "candidates"@ {
        3
    } else {
        -1
    }
}

proof fn sample_names_differ(v: SampleView)
    ensures
        distinct_fields(sample_fields(v)),
        has_ordinary_fields(sample_fields(v)),
{
    reveal(mark);
    reveal_strlit("$serde_json::private::Number");
    reveal_strlit("windowStartSeconds");
    reveal_strlit("windowSeconds");
    reveal_strlit("windowRms");
    reveal_strlit("candidates");
    assert(mark("windowStartSeconds"@) == (18nat, 'w', 'i', 'n'));
    assert(mark("windowSeconds"@) == (13nat, 'w', 'i', 'n'));
    assert(mark("windowRms"@) == (9nat, 'w', 'i', 'R'));
    assert(mark("candidates"@) == (10nat, 'c', 'a', 't'));
    let all = sample_fields(v);
    assert forall|i: int| 0 <= i < all.len() implies sample_place((#[trigger] all[i]).0) == i by {}
    assert forall|i: int, j: int| 0 <= i < j < all.len() implies (#[trigger] all[i]).0 != (
    #[trigger] all[j]).0 by {
        assert(sample_place(all[i].0) == i);
        assert(sample_place(all[j].0) == j);
    }
    assert(sample_place(NUMBER_NAME@) == -1);
    assert forall|i: int| 0 <= i < all.len() implies (#[trigger] all[i]).0 != NUMBER_NAME@ by {
        assert(sample_place(all[i].0) == i);
    }
}

/// Whether every time of the findings of the sample gate can be written and read back.
pub open spec fn sample_storable(v: SampleView) -> bool {
    &&& v.window_start > i128::MIN
    &&& v.window_length > i128::MIN
    &&& (forall|i: int| 0 <= i < v.candidates.len() ==> candidate_storable(#[trigger] v.candidates[i]))
}

/// What is read back of the findings of the sample gate is what was written.
pub proof fn sample_reads_back(v: SampleView)
    requires
        sample_storable(v),
    ensures
        sample_in(sample_json(v)) == Some(v),
{
    let all = sample_fields(v);
    let j = sample_json(v);
    sample_names_differ(v);
    field_listed(all, 0);
    assert(j.get("windowStartSeconds"@) == Some(seconds_json(v.window_start as int)));
    seconds_read_back(v.window_start as int);
    assert(seconds_in(j, "windowStartSeconds"@)->0 == v.window_start);
    field_listed(all, 1);
    assert(j.get("windowSeconds"@) == Some(seconds_json(v.window_length as int)));
    seconds_read_back(v.window_length as int);
    assert(seconds_in(j, "windowSeconds"@)->0 == v.window_length);
    field_listed(all, 2);
    assert(j.get("windowRms"@) == Some(JsonView::Number(v.window_rms)));
    assert(number_text_in(j, "windowRms"@)->0 == v.window_rms);
    field_listed(all, 3);
    assert(j.get("candidates"@) == Some(candidates_json(v.candidates)));
    candidates_read_back(v.candidates);
    assert(candidates_at(j, "candidates"@)->0 == v.candidates);
    assert(sample_in(j)->0 =~= v);
}

fn write_sample(x: &SampleReport) -> (r: Json)
    ensures
        r@ == sample_json(sample_view(*x)),
{
    broadcast use fields_of_push;

    let mut e = new_entries();
    assert(entry_list(e@) =~= fields(Seq::empty()));
    put_value(&mut e, "windowStartSeconds", Some(write_seconds(x.window_start)));
    put_value(&mut e, "windowSeconds", Some(write_seconds(x.window_length)));
    put_value(&mut e, "windowRms", Some(Json::Number(x.window_rms.clone())));
    put_value(&mut e, "candidates", Some(write_candidates(&x.candidates)));
    object(e)
}

fn read_sample(j: &Json) -> (r: Option<SampleReport>)
    ensures
        match r {
            Some(x) => sample_in(j@) == Some(sample_view(x)),
            None => sample_in(j@) is None,
        },
{
    match j {
        Json::Object(_) => {},
        _ => {
            return None;
        },
    }
    let window_start: Time = match read_seconds(j, "windowStartSeconds") {
        Some(value) => value,
        None => {
            return None;
        },
    };
    let window_length: Time = match read_seconds(j, "windowSeconds") {
        Some(value) => value,
        None => {
            return None;
        },
    };
    let window_rms = match read_number_text(j, "windowRms") {
        Some(value) => value,
        None => {
            return None;
        },
    };
    let candidates = match read_candidates_at(j, "candidates") {
        Some(value) => value,
        None => {
            return None;
        },
    };
    let r = SampleReport {
        window_start,
        window_length,
        window_rms,
        candidates,
    };
    assert(sample_in(j@)->0 =~= sample_view(r));
    Some(r)
}

pub open spec fn opt_sample_at(j: JsonView, name: Seq<char>) -> Option<Option<SampleView>> {
    match j.get(name) {
        None => Some(None),
        Some(JsonView::Null) => Some(None),
        Some(value) => match sample_in(value) {
            Some(x) => Some(Some(x)),
            None => None,
        },
    }
}

fn read_opt_sample_at(j: &Json, name: &str) -> (r: Option<Option<SampleReport>>)
    ensures
        match r {
            Some(Some(x)) => opt_sample_at(j@, name@) == Some(Some(sample_view(x))),
            Some(None) => opt_sample_at(j@, name@) == Some(None::<SampleView>),
            None => opt_sample_at(j@, name@) is None,
        },
{
    match j.get(name) {
        None => Some(None),
        Some(Json::Null) => Some(None),
        Some(value) => match read_sample(value) {
            Some(x) => Some(Some(x)),
            None => None,
        },
    }
}

// ---------------------------------------------------------------------- level

/// What the level of a source stands for.
#[verifier::ext_equal]
pub struct LevelView {
    pub source: Seq<char>,
    pub peak: Seq<char>,
    pub rms: Seq<char>,
    pub silent: bool,
}

pub open spec fn level_view(x: SourceLevel) -> LevelView {
    LevelView {
        source: x.source@,
        peak: x.peak@,
        rms: x.rms@,
        silent: x.silent,
    }
}

pub open spec fn level_views(list: Seq<SourceLevel>) -> Seq<LevelView> {
    Seq::new(list.len(), |i: int| level_view(list[i]))
}

/// The fields of the level of a source.
pub open spec fn level_fields(v: LevelView) -> Seq<(Seq<char>, Option<JsonView>)> {
    Seq::empty()
        .push(("source"@, Some(JsonView::Text(v.source))))
        .push(("peak"@, Some(JsonView::Number(v.peak))))
        .push(("rms"@, Some(JsonView::Number(v.rms))))
        .push(("silent"@, Some(JsonView::Bool(v.silent))))
}

pub open spec fn level_json(v: LevelView) -> JsonView {
    JsonView::Object(fields(level_fields(v)))
}

/// Whether a document holds the level of a source.
pub open spec fn level_fits(j: JsonView) -> bool {
    &&& j is Object
    &&& j.text_at("source"@) is Some
    &&& number_text_in(j, "peak"@) is Some
    &&& number_text_in(j, "rms"@) is Some
    &&& flag_in(j, "silent"@) is Some
}

/// What is read out of a document as the level of a source.
pub open spec fn level_in(j: JsonView) -> Option<LevelView> {
    if level_fits(j) {
        Some(LevelView {
            source: j.text_at("source"@)->0,
            peak: number_text_in(j, "peak"@)->0,
            rms: number_text_in(j, "rms"@)->0,
            silent: flag_in(j, "silent"@)->0,
        })
    } else {
        None
    }
}

spec fn level_place(name: Seq<char>) -> int {
    if name == "source"@ {
        0
    } else if name == "peak"@ {
        1
    } else if name == "rms"@ {
        2
    } else if name == "silent"@ {
        3
    } else {
        -1
    }
}

proof fn level_names_differ(v: LevelView)
    ensures
        distinct_fields(level_fields(v)),
        has_ordinary_fields(level_fields(v)),
{
    reveal(mark);
    reveal_strlit("$serde_json::private::Number");
    reveal_strlit("source");
    reveal_strlit("peak");
    reveal_strlit("rms");
    reveal_strlit("silent");
    assert(mark("source"@) == (6nat, 's', 'o', 'r'));
    assert(mark("peak"@) == (4nat, 'p', 'e', 'e'));
    assert(mark("rms"@) == (3nat, 'r', 'm', 'r'));
    assert(mark("silent"@) == (6nat, 's', 'i', 'e'));
    let all = level_fields(v);
    assert forall|i: int| 0 <= i < all.len() implies level_place((#[trigger] all[i]).0) == i by {}
    assert forall|i: int, j: int| 0 <= i < j < all.len() implies (#[trigger] all[i]).0 != (
    #[trigger] all[j]).0 by {
        assert(level_place(all[i].0) == i);
        assert(level_place(all[j].0) == j);
    }
    assert(level_place(NUMBER_NAME@) == -1);
    assert forall|i: int| 0 <= i < all.len() implies (#[trigger] all[i]).0 != NUMBER_NAME@ by {
        assert(level_place(all[i].0) == i);
    }
}

/// What is read back of the level of a source is what was written.
pub proof fn level_reads_back(v: LevelView)
    ensures
        level_in(level_json(v)) == Some(v),
{
    let all = level_fields(v);
    let j = level_json(v);
    level_names_differ(v);
    field_listed(all, 0);
    assert(j.get("source"@) == Some(JsonView::Text(v.source)));
    assert(j.text_at("source"@)->0 == v.source);
    field_listed(all, 1);
    assert(j.get("peak"@) == Some(JsonView::Number(v.peak)));
    assert(number_text_in(j, "peak"@)->0 == v.peak);
    field_listed(all, 2);
    assert(j.get("rms"@) == Some(JsonView::Number(v.rms)));
    assert(number_text_in(j, "rms"@)->0 == v.rms);
    field_listed(all, 3);
    assert(j.get("silent"@) == Some(JsonView::Bool(v.silent)));
    assert(flag_in(j, "silent"@)->0 == v.silent);
    assert(level_in(j)->0 =~= v);
}

fn write_level(x: &SourceLevel) -> (r: Json)
    ensures
        r@ == level_json(level_view(*x)),
{
    broadcast use fields_of_push;

    let mut e = new_entries();
    assert(entry_list(e@) =~= fields(Seq::empty()));
    put_value(&mut e, "source", Some(text_value(x.source.as_str())));
    put_value(&mut e, "peak", Some(Json::Number(x.peak.clone())));
    put_value(&mut e, "rms", Some(Json::Number(x.rms.clone())));
    put_value(&mut e, "silent", Some(Json::Bool(x.silent)));
    object(e)
}

fn read_level(j: &Json) -> (r: Option<SourceLevel>)
    ensures
        match r {
            Some(x) => level_in(j@) == Some(level_view(x)),
            None => level_in(j@) is None,
        },
{
    match j {
        Json::Object(_) => {},
        _ => {
            return None;
        },
    }
    let source = match read_text(j, "source") {
        Some(value) => value,
        None => {
            return None;
        },
    };
    let peak = match read_number_text(j, "peak") {
        Some(value) => value,
        None => {
            return None;
        },
    };
    let rms = match read_number_text(j, "rms") {
        Some(value) => value,
        None => {
            return None;
        },
    };
    let silent = match read_flag(j, "silent") {
        Some(value) => value,
        None => {
            return None;
        },
    };
    let r = SourceLevel {
        source,
        peak,
        rms,
        silent,
    };
    assert(level_in(j@)->0 =~= level_view(r));
    Some(r)
}

pub open spec fn levels_json(list: Seq<LevelView>) -> JsonView {
    JsonView::Array(Seq::new(list.len(), |i: int| level_json(list[i])))
}

pub open spec fn levels_in(items: Seq<JsonView>) -> Option<Seq<LevelView>> {
    if forall|i: int| 0 <= i < items.len() ==> level_in(#[trigger] items[i]) is Some {
        Some(Seq::new(items.len(), |i: int| level_in(items[i])->0))
    } else {
        None
    }
}

proof fn levels_read_back(list: Seq<LevelView>)
    ensures
        levels_in(levels_json(list)->Array_0) == Some(list),
{
    let items = levels_json(list)->Array_0;
    assert forall|i: int| 0 <= i < items.len() implies level_in(#[trigger] items[i]) == Some(
        list[i],
    ) by {
        assert(true);
        level_reads_back(list[i]);
    }
    assert(levels_in(items)->0 =~= list);
}

pub fn write_levels(list: &Vec<SourceLevel>) -> (r: Json)
    ensures
        r@ == levels_json(level_views(list@)),
{
    let mut items: Vec<Json> = Vec::new();
    let mut i: usize = 0;
    while i < list.len()
        invariant
            i <= list.len(),
            items.len() == i,
            forall|k: int|
                0 <= k < i ==> (#[trigger] items@[k])@ == level_json(level_view(list@[k])),
        decreases list.len() - i,
    {
        items.push(write_level(&list[i]));
        i = i + 1;
    }
    let r = array(items);
    assert(r@->Array_0 =~= levels_json(level_views(list@))->Array_0);
    r
}

fn read_levels(items: &Vec<Json>) -> (r: Option<Vec<SourceLevel>>)
    ensures
        match r {
            Some(list) => levels_in(json_list(items@)) == Some(level_views(list@)),
            None => levels_in(json_list(items@)) is None,
        },
{
    let ghost all = json_list(items@);
    let mut list: Vec<SourceLevel> = Vec::new();
    let mut i: usize = 0;
    while i < items.len()
        invariant
            i <= items.len(),
            all == json_list(items@),
            list.len() == i,
            forall|k: int|
                0 <= k < i ==> level_in(#[trigger] all[k]) == Some(level_view(list@[k])),
        decreases items.len() - i,
    {
        match read_level(&items[i]) {
            Some(x) => {
                list.push(x);
            },
            None => {
                assert(level_in(all[i as int]) is None);
                return None;
            },
        }
        i = i + 1;
    }
    assert(levels_in(all)->0 =~= level_views(list@));
    Some(list)
}

pub open spec fn levels_at(j: JsonView, name: Seq<char>) -> Option<Seq<LevelView>> {
    match j.array_at(name) {
        Some(items) => levels_in(items),
        None => None,
    }
}

fn read_levels_at(j: &Json, name: &str) -> (r: Option<Vec<SourceLevel>>)
    ensures
        match r {
            Some(list) => levels_at(j@, name@) == Some(level_views(list@)),
            None => levels_at(j@, name@) is None,
        },
{
    match j.array_at(name) {
        Some(items) => read_levels(items),
        None => None,
    }
}

/// A list that is empty where it is missing.
pub open spec fn levels_or_none_at(j: JsonView, name: Seq<char>) -> Option<Seq<LevelView>> {
    if j.get(name) is None {
        Some(Seq::empty())
    } else {
        levels_at(j, name)
    }
}

fn read_levels_or_none_at(j: &Json, name: &str) -> (r: Option<Vec<SourceLevel>>)
    ensures
        match r {
            Some(list) => levels_or_none_at(j@, name@) == Some(level_views(list@)),
            None => levels_or_none_at(j@, name@) is None,
        },
{
    match j.get(name) {
        None => {
            let empty: Vec<SourceLevel> = Vec::new();
            assert(level_views(empty@) =~= Seq::empty());
            Some(empty)
        },
        Some(_) => read_levels_at(j, name),
    }
}

// -------------------------------------------------------------------- meeting

/// What a meeting stands for.
#[verifier::ext_equal]
pub struct MeetingView {
    pub id: Seq<char>,
    pub phase: Phase,
    pub started_at: Seq<char>,
    pub audio_path: Option<Seq<char>>,
    pub recorder_pid: Option<u32>,
    pub duration: Option<Time>,
    pub sample: Option<SampleView>,
    pub approved_mode: Option<Mode>,
    pub note: Option<Seq<char>>,
    pub error: Option<Seq<char>>,
    pub source_levels: Seq<LevelView>,
    pub sample_source: Option<Seq<char>>,
    pub gate_blocked: Option<Seq<char>>,
    pub imported: bool,
}

pub open spec fn meeting_view(x: ActiveMeeting) -> MeetingView {
    MeetingView {
        id: x.id@,
        phase: x.phase,
        started_at: x.started_at@,
        audio_path: opt_text(x.audio_path),
        recorder_pid: x.recorder_pid,
        duration: x.duration,
        sample: match x.sample { Some(x) => Some(sample_view(x)), None => None },
        approved_mode: x.approved_mode,
        note: opt_text(x.note),
        error: opt_text(x.error),
        source_levels: level_views(x.source_levels@),
        sample_source: opt_text(x.sample_source),
        gate_blocked: opt_text(x.gate_blocked),
        imported: x.imported,
    }
}

/// The fields of a meeting.
pub open spec fn meeting_fields(v: MeetingView) -> Seq<(Seq<char>, Option<JsonView>)> {
    Seq::empty()
        .push(("id"@, Some(JsonView::Text(v.id))))
        .push(("phase"@, Some(JsonView::Text(v.phase.name()))))
        .push(("startedAt"@, Some(JsonView::Text(v.started_at))))
        .push(("audioPath"@, opt_text_json(v.audio_path)))
        .push(("recorderPid"@, number_json(opt_nat32(v.recorder_pid))))
        .push(("durationSeconds"@, opt_seconds_json(v.duration)))
        .push(("sample"@, (match v.sample { Some(x) => Some(sample_json(x)), None => None })))
        .push(("approvedMode"@, opt_mode_json(v.approved_mode)))
        .push(("note"@, opt_text_json(v.note)))
        .push(("error"@, opt_text_json(v.error)))
        .push(("sourceLevels"@, (if v.source_levels.len() > 0 { Some(levels_json(v.source_levels)) } else { None })))
        .push(("sampleSource"@, opt_text_json(v.sample_source)))
        .push(("gateBlocked"@, opt_text_json(v.gate_blocked)))
        .push(("imported"@, (if v.imported { Some(JsonView::Bool(true)) } else { None })))
}

pub open spec fn meeting_json(v: MeetingView) -> JsonView {
    JsonView::Object(fields(meeting_fields(v)))
}

/// Whether a document holds a meeting.
pub open spec fn meeting_fits(j: JsonView) -> bool {
    &&& j is Object
    &&& j.text_at("id"@) is Some
    &&& phase_in(j, "phase"@) is Some
    &&& j.text_at("startedAt"@) is Some
    &&& opt_text_in(j, "audioPath"@) is Some
    &&& opt_number_in(j, "recorderPid"@, u32::MAX as nat) is Some
    &&& opt_seconds_in(j, "durationSeconds"@) is Some
    &&& opt_sample_at(j, "sample"@) is Some
    &&& opt_mode_in(j, "approvedMode"@) is Some
    &&& opt_text_in(j, "note"@) is Some
    &&& opt_text_in(j, "error"@) is Some
    &&& levels_or_none_at(j, "sourceLevels"@) is Some
    &&& opt_text_in(j, "sampleSource"@) is Some
    &&& opt_text_in(j, "gateBlocked"@) is Some
    &&& flag_or_off_in(j, "imported"@) is Some
}

/// What is read out of a document as a meeting.
pub open spec fn meeting_in(j: JsonView) -> Option<MeetingView> {
    if meeting_fits(j) {
        Some(MeetingView {
            id: j.text_at("id"@)->0,
            phase: phase_in(j, "phase"@)->0,
            started_at: j.text_at("startedAt"@)->0,
            audio_path: opt_text_in(j, "audioPath"@)->0,
            recorder_pid: opt_u32(opt_number_in(j, "recorderPid"@, u32::MAX as nat)->0),
            duration: opt_seconds_in(j, "durationSeconds"@)->0,
            sample: opt_sample_at(j, "sample"@)->0,
            approved_mode: opt_mode_in(j, "approvedMode"@)->0,
            note: opt_text_in(j, "note"@)->0,
            error: opt_text_in(j, "error"@)->0,
            source_levels: levels_or_none_at(j, "sourceLevels"@)->0,
            sample_source: opt_text_in(j, "sampleSource"@)->0,
            gate_blocked: opt_text_in(j, "gateBlocked"@)->0,
            imported: flag_or_off_in(j, "imported"@)->0,
        })
    } else {
        None
    }
}

spec fn meeting_place(name: Seq<char>) -> int {
    if name == "id"@ {
        0
    } else if name == "phase"@ {
        1
    } else if name == "startedAt"@ {
        2
    } else if name == "audioPath"@ {
        3
    } else if name == "recorderPid"@ {
        4
    } else if name == "durationSeconds"@ {
        5
    } else if name == "sample"@ {
        6
    } else if name == "approvedMode"@ {
        7
    } else if name == "note"@ {
        8
    } else if name == "error"@ {
        9
    } else if name == "sourceLevels"@ {
        10
    } else if name == "sampleSource"@ {
        11
    } else if name == "gateBlocked"@ {
        12
    } else if name == "imported"@ {
        13
    } else {
        -1
    }
}

proof fn meeting_names_differ(v: MeetingView)
    ensures
        distinct_fields(meeting_fields(v)),
        has_ordinary_fields(meeting_fields(v)),
{
    reveal(mark);
    reveal_strlit("$serde_json::private::Number");
    reveal_strlit("id");
    reveal_strlit("phase");
    reveal_strlit("startedAt");
    reveal_strlit("audioPath");
    reveal_strlit("recorderPid");
    reveal_strlit("durationSeconds");
    reveal_strlit("sample");
    reveal_strlit("approvedMode");
    reveal_strlit("note");
    reveal_strlit("error");
    reveal_strlit("sourceLevels");
    reveal_strlit("sampleSource");
    reveal_strlit("gateBlocked");
    reveal_strlit("imported");
    assert(mark("id"@) == (2nat, 'i', 'd', 'i'));
    assert(mark("phase"@) == (5nat, 'p', 'h', 'a'));
    assert(mark("startedAt"@) == (9nat, 's', 't', 'd'));
    assert(mark("audioPath"@) == (9nat, 'a', 'u', 'a'));
    assert(mark("recorderPid"@) == (11nat, 'r', 'e', 'P'));
    assert(mark("durationSeconds"@) == (15nat, 'd', 'u', 'n'));
    assert(mark("sample"@) == (6nat, 's', 'a', 'p'));
    assert(mark("approvedMode"@) == (12nat, 'a', 'p', 'o'));
    assert(mark("note"@) == (4nat, 'n', 'o', 'o'));
    assert(mark("error"@) == (5nat, 'e', 'r', 'r'));
    assert(mark("sourceLevels"@) == (12nat, 's', 'o', 'e'));
    assert(mark("sampleSource"@) == (12nat, 's', 'a', 'r'));
    assert(mark("gateBlocked"@) == (11nat, 'g', 'a', 'k'));
    assert(mark("imported"@) == (8nat, 'i', 'm', 't'));
    let all = meeting_fields(v);
    assert forall|i: int| 0 <= i < all.len() implies meeting_place((#[trigger] all[i]).0) == i by {}
    assert forall|i: int, j: int| 0 <= i < j < all.len() implies (#[trigger] all[i]).0 != (
    #[trigger] all[j]).0 by {
        assert(meeting_place(all[i].0) == i);
        assert(meeting_place(all[j].0) == j);
    }
    assert(meeting_place(NUMBER_NAME@) == -1);
    assert forall|i: int| 0 <= i < all.len() implies (#[trigger] all[i]).0 != NUMBER_NAME@ by {
        assert(meeting_place(all[i].0) == i);
    }
}

/// Whether every time of a meeting can be written and read back.
pub open spec fn meeting_storable(v: MeetingView) -> bool {
    &&& (v.duration is Some ==> v.duration->0 > i128::MIN)
    &&& (v.sample is Some ==> sample_storable(v.sample->0))
}

/// What is read back of a meeting is what was written.
pub proof fn meeting_reads_back(v: MeetingView)
    requires
        meeting_storable(v),
    ensures
        meeting_in(meeting_json(v)) == Some(v),
{
    let all = meeting_fields(v);
    let j = meeting_json(v);
    meeting_names_differ(v);
    field_listed(all, 0);
    assert(j.get("id"@) == Some(JsonView::Text(v.id)));
    assert(j.text_at("id"@)->0 == v.id);
    field_listed(all, 1);
    assert(j.get("phase"@) == Some(JsonView::Text(v.phase.name())));
    phase_name_reads_back(v.phase);
    assert(phase_in(j, "phase"@)->0 == v.phase);
    field_listed(all, 2);
    assert(j.get("startedAt"@) == Some(JsonView::Text(v.started_at)));
    assert(j.text_at("startedAt"@)->0 == v.started_at);
    field_listed(all, 3);
    assert(j.get("audioPath"@) == opt_text_json(v.audio_path));
    assert(opt_text_in(j, "audioPath"@)->0 == v.audio_path);
    field_listed(all, 4);
    assert(j.get("recorderPid"@) == number_json(opt_nat32(v.recorder_pid)));
    if v.recorder_pid is Some {
        parse_reads_back_decimal(v.recorder_pid->0 as nat, u32::MAX as nat);
    }
    assert(opt_u32(opt_number_in(j, "recorderPid"@, u32::MAX as nat)->0) == v.recorder_pid);
    field_listed(all, 5);
    assert(j.get("durationSeconds"@) == opt_seconds_json(v.duration));
    if v.duration is Some {
        seconds_read_back(v.duration->0 as int);
    }
    assert(opt_seconds_in(j, "durationSeconds"@)->0 == v.duration);
    field_listed(all, 6);
    assert(j.get("sample"@) == (match v.sample { Some(x) => Some(sample_json(x)), None => None }));
    if v.sample is Some {
        sample_reads_back(v.sample->0);
    }
    assert(opt_sample_at(j, "sample"@)->0 == v.sample);
    field_listed(all, 7);
    assert(j.get("approvedMode"@) == opt_mode_json(v.approved_mode));
    if v.approved_mode is Some {
        mode_name_reads_back(v.approved_mode->0);
    }
    assert(opt_mode_in(j, "approvedMode"@)->0 == v.approved_mode);
    field_listed(all, 8);
    assert(j.get("note"@) == opt_text_json(v.note));
    assert(opt_text_in(j, "note"@)->0 == v.note);
    field_listed(all, 9);
    assert(j.get("error"@) == opt_text_json(v.error));
    assert(opt_text_in(j, "error"@)->0 == v.error);
    field_listed(all, 10);
    assert(j.get("sourceLevels"@) == (if v.source_levels.len() > 0 { Some(levels_json(v.source_levels)) } else { None }));
    levels_read_back(v.source_levels);
    assert(levels_or_none_at(j, "sourceLevels"@)->0 == v.source_levels);
    field_listed(all, 11);
    assert(j.get("sampleSource"@) == opt_text_json(v.sample_source));
    assert(opt_text_in(j, "sampleSource"@)->0 == v.sample_source);
    field_listed(all, 12);
    assert(j.get("gateBlocked"@) == opt_text_json(v.gate_blocked));
    assert(opt_text_in(j, "gateBlocked"@)->0 == v.gate_blocked);
    field_listed(all, 13);
    assert(j.get("imported"@) == (if v.imported { Some(JsonView::Bool(true)) } else { None }));
    assert(flag_or_off_in(j, "imported"@)->0 == v.imported);
    assert(meeting_in(j)->0 =~= v);
}

/// The document of a meeting.
pub fn write_meeting(x: &ActiveMeeting) -> (r: Json)
    ensures
        r@ == meeting_json(meeting_view(*x)),
{
    broadcast use fields_of_push;

    let mut e = new_entries();
    assert(entry_list(e@) =~= fields(Seq::empty()));
    put_value(&mut e, "id", Some(text_value(x.id.as_str())));
    put_value(&mut e, "phase", Some(text_value(x.phase.as_str())));
    put_value(&mut e, "startedAt", Some(text_value(x.started_at.as_str())));
    put_value(&mut e, "audioPath", opt_text_value(&x.audio_path));
    put_number(&mut e, "recorderPid", widened(x.recorder_pid));
    put_value(&mut e, "durationSeconds", opt_seconds(x.duration));
    put_value(&mut e, "sample", match &x.sample { Some(x) => Some(write_sample(x)), None => None });
    put_value(&mut e, "approvedMode", match x.approved_mode { Some(mode) => Some(text_value(mode.as_str())), None => None });
    put_value(&mut e, "note", opt_text_value(&x.note));
    put_value(&mut e, "error", opt_text_value(&x.error));
    put_value(&mut e, "sourceLevels", if x.source_levels.len() > 0 { Some(write_levels(&x.source_levels)) } else { None });
    put_value(&mut e, "sampleSource", opt_text_value(&x.sample_source));
    put_value(&mut e, "gateBlocked", opt_text_value(&x.gate_blocked));
    put_value(&mut e, "imported", if x.imported { Some(Json::Bool(true)) } else { None });
    object(e)
}

/// Reads a meeting out of a document.
pub fn read_meeting(j: &Json) -> (r: Option<ActiveMeeting>)
    ensures
        match r {
            Some(x) => meeting_in(j@) == Some(meeting_view(x)),
            None => meeting_in(j@) is None,
        },
{
    match j {
        Json::Object(_) => {},
        _ => {
            return None;
        },
    }
    let id = match read_text(j, "id") {
        Some(value) => value,
        None => {
            return None;
        },
    };
    let phase = match read_phase(j, "phase") {
        Some(value) => value,
        None => {
            return None;
        },
    };
    let started_at = match read_text(j, "startedAt") {
        Some(value) => value,
        None => {
            return None;
        },
    };
    let audio_path = match read_opt_text(j, "audioPath") {
        Some(value) => value,
        None => {
            return None;
        },
    };
    let recorder_pid = match read_opt_number(j, "recorderPid", u32::MAX as u64) {
        Some(value) => value,
        None => {
            return None;
        },
    };
    let duration = match read_opt_seconds(j, "durationSeconds") {
        Some(value) => value,
        None => {
            return None;
        },
    };
    let sample = match read_opt_sample_at(j, "sample") {
        Some(value) => value,
        None => {
            return None;
        },
    };
    let approved_mode = match read_opt_mode(j, "approvedMode") {
        Some(value) => value,
        None => {
            return None;
        },
    };
    let note = match read_opt_text(j, "note") {
        Some(value) => value,
        None => {
            return None;
        },
    };
    let error = match read_opt_text(j, "error") {
        Some(value) => value,
        None => {
            return None;
        },
    };
    let source_levels = match read_levels_or_none_at(j, "sourceLevels") {
        Some(value) => value,
        None => {
            return None;
        },
    };
    let sample_source = match read_opt_text(j, "sampleSource") {
        Some(value) => value,
        None => {
            return None;
        },
    };
    let gate_blocked = match read_opt_text(j, "gateBlocked") {
        Some(value) => value,
        None => {
            return None;
        },
    };
    let imported = match read_flag_or_off(j, "imported") {
        Some(value) => value,
        None => {
            return None;
        },
    };
    let r = ActiveMeeting {
        id,
        phase,
        started_at,
        audio_path,
        recorder_pid: narrowed(recorder_pid),
        duration,
        sample,
        approved_mode,
        note,
        error,
        source_levels,
        sample_source,
        gate_blocked,
        imported,
    };
    assert(meeting_in(j@)->0 =~= meeting_view(r));
    Some(r)
}

/// The meeting in the text of a file. One that cannot be read is none.
pub open spec fn loaded_meeting(text: Seq<char>) -> Option<MeetingView> {
    match json_read(text) {
        Some(j) => meeting_in(j),
        None => None,
    }
}

/// What is loaded can be kept again.
pub fn load_meeting(text: &str) -> (r: Option<ActiveMeeting>)
    ensures
        match r {
            Some(m) => loaded_meeting(text@) == Some(meeting_view(m)) && meeting_writable(
                meeting_view(m),
            ),
            None => loaded_meeting(text@) is None,
        },
{
    match parse_json(text) {
        Some(j) => {
            proof {
                if meeting_in(j@) is Some {
                    meeting_that_was_read(j@, READABLE_DEPTH as nat);
                }
            }
            read_meeting(&j)
        },
        None => None,
    }
}

// ----------------------------------------------------------------------- the file

proof fn candidate_is_plain(v: CandidateView, depth: nat)
    ensures
        is_plain(candidate_json(v), depth + 1),
{
    let all = candidate_fields(v);
    candidate_names_differ(v);
    seconds_are_numeral(v.elapsed as int);
    seconds_are_numeral(v.sample_length as int);
    if v.covered is Some {
        seconds_are_numeral(v.covered->0 as int);
    }
    decimal_is_numeral(v.segment_count as nat);
    decimal_is_numeral(v.speaker_labels as nat);
    decimal_is_numeral(v.overlapping_segments as nat);
    assert(all[0].1 == Some(JsonView::Text(v.mode.name())));
    assert(all[1].1 == Some(JsonView::Text(v.text)));
    assert(is_plain(all[2].1->0, depth));
    assert(is_plain(all[3].1->0, depth));
    assert(is_plain(all[4].1->0, depth));
    assert(is_plain(all[5].1->0, depth));
    assert(is_plain(all[6].1->0, depth));
    assert(is_plain(all[7].1->0, depth));
    assert(is_plain(all[8].1->0, depth));
    assert(is_plain(all[9].1->0, depth));
    assert forall|i: int| 0 <= i < all.len() implies ((#[trigger] all[i]).1 is Some ==> is_plain(
        all[i].1->0,
        depth,
    )) by {
        assert(i == 0 || i == 1 || i == 2 || i == 3 || i == 4 || i == 5 || i == 6 || i == 7 || i == 8
            || i == 9);
    }
    fields_are_plain(all, depth);
}

proof fn sample_is_plain(v: SampleView, depth: nat)
    requires
        is_numeral(v.window_rms),
    ensures
        is_plain(sample_json(v), depth + 3),
{
    let all = sample_fields(v);
    sample_names_differ(v);
    seconds_are_numeral(v.window_start as int);
    seconds_are_numeral(v.window_length as int);
    let items = candidates_json(v.candidates)->Array_0;
    assert forall|i: int| 0 <= i < items.len() implies is_plain(#[trigger] items[i], depth + 1) by {
        candidate_is_plain(v.candidates[i], depth);
    }
    assert(is_plain(candidates_json(v.candidates), depth + 2));
    assert(has_plain_fields(all, depth + 2));
    fields_are_plain(all, depth + 2);
}

proof fn level_is_plain(v: LevelView, depth: nat)
    requires
        is_numeral(v.peak),
        is_numeral(v.rms),
    ensures
        is_plain(level_json(v), depth + 1),
{
    let all = level_fields(v);
    level_names_differ(v);
    assert(has_plain_fields(all, depth));
    fields_are_plain(all, depth);
}

/// Whether a meeting can be written and read back: its times can, and what was measured of
/// its sound are numbers.
pub open spec fn meeting_writable(v: MeetingView) -> bool {
    &&& meeting_storable(v)
    &&& v.sample is Some ==> is_numeral(v.sample->0.window_rms)
    &&& forall|i: int|
        0 <= i < v.source_levels.len() ==> is_numeral((#[trigger] v.source_levels[i]).peak)
            && is_numeral(v.source_levels[i].rms)
}

proof fn candidate_that_was_read(j: JsonView)
    requires
        candidate_in(j) is Some,
    ensures
        candidate_storable(candidate_in(j)->0),
{
    seconds_that_were_read(j.get("elapsedSeconds"@)->0->Number_0);
    seconds_that_were_read(j.get("sampleSeconds"@)->0->Number_0);
    seconds_that_were_read(j.get("coveredSeconds"@)->0->Number_0);
}

proof fn sample_that_was_read(j: JsonView, depth: nat)
    requires
        is_plain(j, depth),
        sample_in(j) is Some,
    ensures
        sample_storable(sample_in(j)->0),
        is_numeral(sample_in(j)->0.window_rms),
{
    let v = sample_in(j)->0;
    seconds_that_were_read(j.get("windowStartSeconds"@)->0->Number_0);
    seconds_that_were_read(j.get("windowSeconds"@)->0->Number_0);
    member_is_plain(j, "windowRms"@, depth);
    let items = j.array_at("candidates"@)->0;
    assert forall|i: int| 0 <= i < v.candidates.len() implies candidate_storable(
        #[trigger] v.candidates[i],
    ) by {
        assert(candidate_in(items[i]) is Some);
        candidate_that_was_read(items[i]);
    }
}

proof fn level_that_was_read(j: JsonView, depth: nat)
    requires
        is_plain(j, depth),
        level_in(j) is Some,
    ensures
        is_numeral(level_in(j)->0.peak),
        is_numeral(level_in(j)->0.rms),
{
    member_is_plain(j, "peak"@, depth);
    member_is_plain(j, "rms"@, depth);
}

proof fn meeting_that_was_read(j: JsonView, depth: nat)
    requires
        is_plain(j, depth),
        meeting_in(j) is Some,
    ensures
        meeting_writable(meeting_in(j)->0),
{
    let v = meeting_in(j)->0;
    seconds_that_were_read(j.get("durationSeconds"@)->0->Number_0);
    if v.sample is Some {
        member_is_plain(j, "sample"@, depth);
        sample_that_was_read(j.get("sample"@)->0, (depth - 1) as nat);
    }
    if v.source_levels.len() > 0 {
        member_is_plain(j, "sourceLevels"@, depth);
        let items = j.array_at("sourceLevels"@)->0;
        assert forall|i: int| 0 <= i < v.source_levels.len() implies is_numeral(
            (#[trigger] v.source_levels[i]).peak,
        ) && is_numeral(v.source_levels[i].rms) by {
            assert(level_in(items[i]) is Some);
            assert(is_plain(items[i], (depth - 2) as nat));
            level_that_was_read(items[i], (depth - 2) as nat);
        }
    }
}

proof fn meeting_is_plain(v: MeetingView)
    requires
        meeting_writable(v),
    ensures
        is_plain(meeting_json(v), READABLE_DEPTH as nat),
{
    let depth: nat = (READABLE_DEPTH - 1) as nat;
    let all = meeting_fields(v);
    meeting_names_differ(v);
    if v.recorder_pid is Some {
        decimal_is_numeral(v.recorder_pid->0 as nat);
    }
    if v.duration is Some {
        seconds_are_numeral(v.duration->0 as int);
    }
    if v.sample is Some {
        sample_is_plain(v.sample->0, (depth - 3) as nat);
    }
    let items = levels_json(v.source_levels)->Array_0;
    assert forall|i: int| 0 <= i < items.len() implies is_plain(
        #[trigger] items[i],
        (depth - 1) as nat,
    ) by {
        assert(is_numeral(v.source_levels[i].peak));
        level_is_plain(v.source_levels[i], (depth - 2) as nat);
    }
    assert(is_plain(levels_json(v.source_levels), depth));
    assert(has_plain_fields(all, depth));
    fields_are_plain(all, depth);
}

/// The text that a meeting is kept as. What is loaded out of it is that meeting.
pub fn meeting_text(meeting: &ActiveMeeting) -> (r: String)
    ensures
        r@ == json_pretty(json_stored(meeting_json(meeting_view(*meeting)))),
        meeting_writable(meeting_view(*meeting)) ==> loaded_meeting(r@) == Some(
            meeting_view(*meeting),
        ),
{
    proof {
        if meeting_writable(meeting_view(*meeting)) {
            meeting_is_plain(meeting_view(*meeting));
            meeting_reads_back(meeting_view(*meeting));
        }
    }
    pretty_json(&write_meeting(meeting))
}

// ------------------------------------------------------------------ names in the file

/// Everything that is known of a candidate is written under its own name.
pub proof fn a_candidate_is_written_under_its_names(v: CandidateView)
    ensures
        candidate_json(v).get("mode"@) == Some(JsonView::Text(v.mode.name())),
        candidate_json(v).get("text"@) == Some(JsonView::Text(v.text)),
        candidate_json(v).get("elapsedSeconds"@) == Some(seconds_json(v.elapsed as int)),
        candidate_json(v).get("segmentCount"@) == Some(JsonView::Number(decimal(v.segment_count as nat))),
        candidate_json(v).get("speakerLabels"@) == Some(JsonView::Number(decimal(v.speaker_labels as nat))),
        candidate_json(v).get("overlappingSegments"@) == Some(JsonView::Number(decimal(v.overlapping_segments as nat))),
        candidate_json(v).get("detectedLanguage"@) == Some(or_null(opt_text_json(v.detected_language))),
        candidate_json(v).get("coveredSeconds"@) == Some(or_null(opt_seconds_json(v.covered))),
        candidate_json(v).get("sampleSeconds"@) == Some(seconds_json(v.sample_length as int)),
        candidate_json(v).get("error"@) == Some(or_null(opt_text_json(v.error))),
{
    let all = candidate_fields(v);
    candidate_names_differ(v);
    field_listed(all, 0);
    field_listed(all, 1);
    field_listed(all, 2);
    field_listed(all, 3);
    field_listed(all, 4);
    field_listed(all, 5);
    field_listed(all, 6);
    field_listed(all, 7);
    field_listed(all, 8);
    field_listed(all, 9);
}

/// Everything that is known of a sample is written under its own name.
pub proof fn a_sample_is_written_under_its_names(v: SampleView)
    ensures
        sample_json(v).get("windowStartSeconds"@) == Some(seconds_json(v.window_start as int)),
        sample_json(v).get("windowSeconds"@) == Some(seconds_json(v.window_length as int)),
        sample_json(v).get("windowRms"@) == Some(JsonView::Number(v.window_rms)),
        sample_json(v).get("candidates"@) == Some(candidates_json(v.candidates)),
{
    let all = sample_fields(v);
    sample_names_differ(v);
    field_listed(all, 0);
    field_listed(all, 1);
    field_listed(all, 2);
    field_listed(all, 3);
}

/// Everything that is known of a level is written under its own name.
pub proof fn a_level_is_written_under_its_names(v: LevelView)
    ensures
        level_json(v).get("source"@) == Some(JsonView::Text(v.source)),
        level_json(v).get("peak"@) == Some(JsonView::Number(v.peak)),
        level_json(v).get("rms"@) == Some(JsonView::Number(v.rms)),
        level_json(v).get("silent"@) == Some(JsonView::Bool(v.silent)),
{
    let all = level_fields(v);
    level_names_differ(v);
    field_listed(all, 0);
    field_listed(all, 1);
    field_listed(all, 2);
    field_listed(all, 3);
}

/// Everything that is known of a meeting is written under its own name, and what is not known is
/// left out.
pub proof fn a_meeting_is_written_under_its_names(v: MeetingView)
    ensures
        meeting_json(v).get("id"@) == Some(JsonView::Text(v.id)),
        meeting_json(v).get("phase"@) == Some(JsonView::Text(v.phase.name())),
        meeting_json(v).get("startedAt"@) == Some(JsonView::Text(v.started_at)),
        meeting_json(v).get("audioPath"@) == opt_text_json(v.audio_path),
        meeting_json(v).get("recorderPid"@) == number_json(opt_nat32(v.recorder_pid)),
        meeting_json(v).get("durationSeconds"@) == opt_seconds_json(v.duration),
        meeting_json(v).get("sample"@) == (match v.sample { Some(x) => Some(sample_json(x)), None => None }),
        meeting_json(v).get("approvedMode"@) == opt_mode_json(v.approved_mode),
        meeting_json(v).get("note"@) == opt_text_json(v.note),
        meeting_json(v).get("error"@) == opt_text_json(v.error),
        meeting_json(v).get("sourceLevels"@) == (if v.source_levels.len() > 0 { Some(levels_json(v.source_levels)) } else { None }),
        meeting_json(v).get("sampleSource"@) == opt_text_json(v.sample_source),
        meeting_json(v).get("gateBlocked"@) == opt_text_json(v.gate_blocked),
        meeting_json(v).get("imported"@) == (if v.imported { Some(JsonView::Bool(true)) } else { None }),
{
    let all = meeting_fields(v);
    meeting_names_differ(v);
    field_listed(all, 0);
    field_listed(all, 1);
    field_listed(all, 2);
    field_listed(all, 3);
    field_listed(all, 4);
    field_listed(all, 5);
    field_listed(all, 6);
    field_listed(all, 7);
    field_listed(all, 8);
    field_listed(all, 9);
    field_listed(all, 10);
    field_listed(all, 11);
    field_listed(all, 12);
    field_listed(all, 13);
}

} // verus!
