//! The measurements of a run as the document that is written beside its notes.
use vstd::prelude::*;
use crate::deliverables::Metadata;
use crate::json::{
    Json, JsonView, distinct_names, every_member_is_found, json_texts, new_entries, object, put,
    text_array, text_json, text_value,
};
use crate::meeting_file::{level_views, levels_json, write_levels};
use crate::members::{
    opt_seconds, opt_seconds_json, opt_text_value, or_null, seconds_json, value_or_null,
    write_count, write_seconds,
};
use crate::number::{decimal, to_decimal};
use crate::state::SourceLevel;
use crate::text::texts;

verus! {

/// A fraction as the number that writes it, where there is one.
pub open spec fn fraction_json(fraction: Option<String>) -> JsonView {
    match fraction {
        Some(n) => JsonView::Number(n@),
        None => JsonView::Null,
    }
}

fn write_fraction(fraction: &Option<String>) -> (r: Json)
    ensures
        r@ == fraction_json(*fraction),
{
    match fraction {
        Some(n) => Json::Number(n.clone()),
        None => Json::Null,
    }
}

/// The measurements, the levels of the sources, and the number that writes how much of the
/// audio is covered. A language stands there as detected, and nothing claims an accuracy.
pub open spec fn metadata_json(
    m: Metadata,
    levels: Seq<SourceLevel>,
    fraction: Option<String>,
) -> JsonView {
    JsonView::Object(
        Seq::empty()
            .push(("meetingId"@, JsonView::Text(m.meeting_id@)))
            .push(("startedAt"@, JsonView::Text(m.started_at@)))
            .push(("audioSeconds"@, seconds_json(m.audio_length as int)))
            .push(("audioSampleRate"@, JsonView::Number(decimal(m.audio_sample_rate as nat))))
            .push(("audioChannels"@, JsonView::Number(decimal(m.audio_channels as nat))))
            .push(("recordedSeconds"@, or_null(opt_seconds_json(m.recorded))))
            .push(("sourceLevels"@, levels_json(level_views(levels))))
            .push(("transcriptionMode"@, JsonView::Text(m.transcription_mode@)))
            .push(("batchJobId"@, JsonView::Text(m.batch_job_id@)))
            .push(("batchElapsedSeconds"@, seconds_json(m.batch_elapsed as int)))
            .push(("partiallyCompleted"@, JsonView::Bool(m.partially_completed)))
            .push(("failedInputs"@, json_texts(texts(m.failed_inputs@))))
            .push(("segmentCount"@, JsonView::Number(decimal(m.segment_count as nat))))
            .push(("speakerLabelCount"@, JsonView::Number(decimal(m.speaker_label_count as nat))))
            .push(("overlappingSegments"@, JsonView::Number(decimal(m.overlapping_segments as nat))))
            .push(("detectedLanguage"@, or_null(text_json(m.detected_language))))
            .push(("firstTimestampSeconds"@, or_null(opt_seconds_json(m.first_timestamp))))
            .push(("lastTimestampSeconds"@, or_null(opt_seconds_json(m.last_timestamp))))
            .push(("timestampCoverageFraction"@, fraction_json(fraction)))
            .push(("trust"@, JsonView::Text(m.trust@)))
            .push(("trustReasons"@, json_texts(texts(m.trust_reasons@)))),
    )
}

pub fn write_metadata(m: &Metadata, levels: &Vec<SourceLevel>, fraction: &Option<String>) -> (r: Json)
    ensures
        r@ == metadata_json(*m, levels@, *fraction),
{
    let mut e = new_entries();
    put(&mut e, "meetingId", text_value(m.meeting_id.as_str()));
    put(&mut e, "startedAt", text_value(m.started_at.as_str()));
    put(&mut e, "audioSeconds", write_seconds(m.audio_length));
    put(&mut e, "audioSampleRate", Json::Number(to_decimal(m.audio_sample_rate as u64)));
    put(&mut e, "audioChannels", Json::Number(to_decimal(m.audio_channels as u64)));
    put(&mut e, "recordedSeconds", value_or_null(opt_seconds(m.recorded)));
    put(&mut e, "sourceLevels", write_levels(levels));
    put(&mut e, "transcriptionMode", text_value(m.transcription_mode.as_str()));
    put(&mut e, "batchJobId", text_value(m.batch_job_id.as_str()));
    put(&mut e, "batchElapsedSeconds", write_seconds(m.batch_elapsed));
    put(&mut e, "partiallyCompleted", Json::Bool(m.partially_completed));
    put(&mut e, "failedInputs", text_array(&m.failed_inputs));
    put(&mut e, "segmentCount", write_count(m.segment_count));
    put(&mut e, "speakerLabelCount", write_count(m.speaker_label_count));
    put(&mut e, "overlappingSegments", write_count(m.overlapping_segments));
    put(&mut e, "detectedLanguage", value_or_null(opt_text_value(&m.detected_language)));
    put(&mut e, "firstTimestampSeconds", value_or_null(opt_seconds(m.first_timestamp)));
    put(&mut e, "lastTimestampSeconds", value_or_null(opt_seconds(m.last_timestamp)));
    put(&mut e, "timestampCoverageFraction", write_fraction(fraction));
    put(&mut e, "trust", text_value(m.trust.as_str()));
    put(&mut e, "trustReasons", text_array(&m.trust_reasons));
    object(e)
}

/// Everything that is known of the processing is written under its own name.
#[verifier::spinoff_prover]
pub proof fn the_processing_is_written_under_its_names(
    m: Metadata,
    levels: Seq<SourceLevel>,
    fraction: Option<String>,
)
    ensures
        metadata_json(m, levels, fraction).get("meetingId"@) == Some(JsonView::Text(m.meeting_id@)),
        metadata_json(m, levels, fraction).get("startedAt"@) == Some(JsonView::Text(m.started_at@)),
        metadata_json(m, levels, fraction).get("audioSeconds"@) == Some(seconds_json(m.audio_length as int)),
        metadata_json(m, levels, fraction).get("audioSampleRate"@) == Some(JsonView::Number(decimal(m.audio_sample_rate as nat))),
        metadata_json(m, levels, fraction).get("audioChannels"@) == Some(JsonView::Number(decimal(m.audio_channels as nat))),
        metadata_json(m, levels, fraction).get("recordedSeconds"@) == Some(or_null(opt_seconds_json(m.recorded))),
        metadata_json(m, levels, fraction).get("sourceLevels"@) == Some(levels_json(level_views(levels))),
        metadata_json(m, levels, fraction).get("transcriptionMode"@) == Some(JsonView::Text(m.transcription_mode@)),
        metadata_json(m, levels, fraction).get("batchJobId"@) == Some(JsonView::Text(m.batch_job_id@)),
        metadata_json(m, levels, fraction).get("batchElapsedSeconds"@) == Some(seconds_json(m.batch_elapsed as int)),
        metadata_json(m, levels, fraction).get("partiallyCompleted"@) == Some(JsonView::Bool(m.partially_completed)),
        metadata_json(m, levels, fraction).get("failedInputs"@) == Some(json_texts(texts(m.failed_inputs@))),
        metadata_json(m, levels, fraction).get("segmentCount"@) == Some(JsonView::Number(decimal(m.segment_count as nat))),
        metadata_json(m, levels, fraction).get("speakerLabelCount"@) == Some(JsonView::Number(decimal(m.speaker_label_count as nat))),
        metadata_json(m, levels, fraction).get("overlappingSegments"@) == Some(JsonView::Number(decimal(m.overlapping_segments as nat))),
        metadata_json(m, levels, fraction).get("detectedLanguage"@) == Some(or_null(text_json(m.detected_language))),
        metadata_json(m, levels, fraction).get("firstTimestampSeconds"@) == Some(or_null(opt_seconds_json(m.first_timestamp))),
        metadata_json(m, levels, fraction).get("lastTimestampSeconds"@) == Some(or_null(opt_seconds_json(m.last_timestamp))),
        metadata_json(m, levels, fraction).get("timestampCoverageFraction"@) == Some(fraction_json(fraction)),
        metadata_json(m, levels, fraction).get("trust"@) == Some(JsonView::Text(m.trust@)),
        metadata_json(m, levels, fraction).get("trustReasons"@) == Some(json_texts(texts(m.trust_reasons@))),
{
    let all = metadata_json(m, levels, fraction)->Object_0;
    the_names_of_the_metadata_differ(m, levels, fraction);
    every_member_is_found(all, 0);
    every_member_is_found(all, 1);
    every_member_is_found(all, 2);
    every_member_is_found(all, 3);
    every_member_is_found(all, 4);
    every_member_is_found(all, 5);
    every_member_is_found(all, 6);
    every_member_is_found(all, 7);
    every_member_is_found(all, 8);
    every_member_is_found(all, 9);
    every_member_is_found(all, 10);
    every_member_is_found(all, 11);
    every_member_is_found(all, 12);
    every_member_is_found(all, 13);
    every_member_is_found(all, 14);
    every_member_is_found(all, 15);
    every_member_is_found(all, 16);
    every_member_is_found(all, 17);
    every_member_is_found(all, 18);
    every_member_is_found(all, 19);
    every_member_is_found(all, 20);
}

#[verifier::spinoff_prover]
#[verifier::rlimit(60)]
proof fn the_names_of_the_metadata_differ(
    m: Metadata,
    levels: Seq<SourceLevel>,
    fraction: Option<String>,
)
    ensures
        distinct_names(metadata_json(m, levels, fraction)->Object_0),
{
    reveal_strlit("meetingId");
    reveal_strlit("startedAt");
    reveal_strlit("audioSeconds");
    reveal_strlit("audioSampleRate");
    reveal_strlit("audioChannels");
    reveal_strlit("recordedSeconds");
    reveal_strlit("sourceLevels");
    reveal_strlit("transcriptionMode");
    reveal_strlit("batchJobId");
    reveal_strlit("batchElapsedSeconds");
    reveal_strlit("partiallyCompleted");
    reveal_strlit("failedInputs");
    reveal_strlit("segmentCount");
    reveal_strlit("speakerLabelCount");
    reveal_strlit("overlappingSegments");
    reveal_strlit("detectedLanguage");
    reveal_strlit("firstTimestampSeconds");
    reveal_strlit("lastTimestampSeconds");
    reveal_strlit("timestampCoverageFraction");
    reveal_strlit("trust");
    reveal_strlit("trustReasons");
    let all = metadata_json(m, levels, fraction)->Object_0;
    let marks = seq![
        (9nat, 'm', 'e'),
        (9nat, 's', 't'),
        (12nat, 'a', 'u'),
        (15nat, 'a', 'u'),
        (13nat, 'a', 'u'),
        (15nat, 'r', 'e'),
        (12nat, 's', 'o'),
        (17nat, 't', 'r'),
        (10nat, 'b', 'a'),
        (19nat, 'b', 'a'),
        (18nat, 'p', 'a'),
        (12nat, 'f', 'a'),
        (12nat, 's', 'e'),
        (17nat, 's', 'p'),
        (19nat, 'o', 'v'),
        (16nat, 'd', 'e'),
        (21nat, 'f', 'i'),
        (20nat, 'l', 'a'),
        (25nat, 't', 'i'),
        (5nat, 't', 'r'),
        (12nat, 't', 'r'),
    ];
    assert(all.len() == marks.len());
    assert forall|i: int| 0 <= i < all.len() implies (
    #[trigger] all[i]).0.len() == marks[i].0 && all[i].0[0] == marks[i].1 && all[i].0[1]
        == marks[i].2 by {}
    assert forall|i: int, k: int| 0 <= i < k < all.len() implies (#[trigger] all[i]).0 != (
    #[trigger] all[k]).0 by {
        assert(marks[i] != marks[k]);
    }
}

} // verus!
