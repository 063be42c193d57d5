use nextbase::config::Config;
use nextbase::deliverables::{
    caveat, files_as_listed, metadata, render_diarized, render_note, render_plain,
    timestamped_points, trust, Deliverable, Trust,
};
use nextbase::json::{parse_json, write_json, Json};
use nextbase::meeting_file::{load_meeting, meeting_text, write_meeting};
use nextbase::metadata_file::write_metadata;
use nextbase::pipeline::{
    audio_details, cut_sample, delivery_plan, gate_modes, gate_report, is_intermediate, options,
    prepare_inputs, recorded_audio, resumable, BatchFacts, DeliveryStep, MeetingEntry,
    SavedTranscript, MAX_FILE_LENGTH, SAMPLE_LENGTH, SAMPLE_SKIP, SAVED_TRANSCRIPT,
};
use nextbase::recorder::{
    audio_path, check_worker, mark_recording, request_stop, stop_progress, why_stop, StopProgress,
    StopRequest,
};
use nextbase::sarvam_batch::{Mode, MAX_FILES_PER_JOB};
use nextbase::state::{
    check_ready, has_summary_key, meeting_id_at, new_meeting_id, ActiveMeeting, Phase,
    SampleCandidate, SampleReport, SourceLevel,
};
use nextbase::summary::{
    analysis_reply, analysis_request, parse_analysis, ActionItem, Analysis, Confidence,
    SYSTEM_PROMPT,
};
use nextbase::time::{NANOSECOND, SECOND};
use nextbase::transcript_file::{load_saved, saved_text, write_saved};
use nextbase::transcription::{Segment, Transcription};
use nextbase::wav::{to_wav, WavInfo};
use nextbase::window::Window;


fn audio(seconds: u64) -> WavInfo {
    WavInfo {
        sample_rate: 16_000,
        channels: 1,
        bits_per_sample: 16,
        frames: seconds * 16_000,
    }
}

fn transcription(segments: Vec<(i128, i128, &str)>) -> Transcription {
    Transcription {
        text: segments
            .iter()
            .map(|(_, _, t)| *t)
            .collect::<Vec<_>>()
            .join(" "),
        segments: segments
            .into_iter()
            .enumerate()
            .map(|(index, (start, end, text))| Segment {
                speaker: Some(format!("SPEAKER_{:02}", index % 2)),
                text: text.to_string(),
                start: Some(start * SECOND),
                end: Some(end * SECOND),
            })
            .collect(),
        language_code: Some("gu-IN".into()),
    }
}

fn deliverable<'a>(
    meeting: &'a ActiveMeeting,
    details: &'a Transcription,
    analysis: Option<&'a Analysis>,
    seconds: u64,
    mode: Mode,
) -> Deliverable<'a> {
    Deliverable {
        meeting,
        audio: audio(seconds),
        transcription: details,
        analysis,
        mode,
        batch_elapsed: 85 * SECOND / 2,
        job_id: "job-9".into(),
        partial: false,
        failed_inputs: vec![],
    }
}

fn analysis() -> Analysis {
    Analysis {
        title: "Test".into(),
        summary: "A summary".into(),
        decisions: vec![],
        action_items: vec![],
        blockers: vec![],
        open_questions: vec![],
        language: "mixed".into(),
    }
}

#[test]
fn full_coverage_with_clean_segments_reaches_medium_trust() {
    let details = transcription(vec![(0, 30, "one"), (31, 60, "two")]);
    let (level, reasons) = trust(&details, &audio(60), false);
    assert_eq!(level, Trust::Medium);
    assert!(reasons.is_empty(), "{reasons:?}");
}

#[test]
fn a_transcript_that_stops_early_is_downgraded_and_says_why() {
    let details = transcription(vec![(0, 30, "one")]);
    let (level, reasons) = trust(&details, &audio(600), false);
    assert_eq!(level, Trust::HighLevelOnly);
    assert!(
        reasons.iter().any(|r| r.contains("cover only 5%")),
        "{reasons:?}"
    );
}

#[test]
fn a_partial_job_is_always_downgraded() {
    let details = transcription(vec![(0, 60, "all of it")]);
    let (level, reasons) = trust(&details, &audio(60), true);
    assert_eq!(level, Trust::HighLevelOnly);
    assert!(reasons.iter().any(|r| r.contains("partly completed")));
}

#[test]
fn no_segments_means_nothing_is_attributable() {
    let empty = Transcription {
        text: "words".into(),
        segments: Vec::new(),
        language_code: None,
    };
    let (level, reasons) = trust(&empty, &audio(60), false);
    assert_eq!(level, Trust::HighLevelOnly);
    assert!(reasons
        .iter()
        .any(|r| r.contains("nothing is attributable")));
}

#[test]
fn the_caveat_never_claims_an_accuracy_figure() {
    let details = transcription(vec![(0, 60, "hello")]);
    let text = caveat(&details, &audio(60), false);

    assert!(text.contains("Speaker labels are generic"));
    assert!(text.contains("not word-level"));
    assert!(text.contains("not whether the words are correct"));
    assert!(!text.contains("% accurate"));
    assert!(!text.to_lowercase().contains("accuracy of"));
}

#[test]
fn a_suggested_owner_is_never_printed_as_an_assignment() {
    let meeting = ActiveMeeting::started("meeting-x", "2026-07-25T10:00:00Z".to_string());
    let details = transcription(vec![(0, 60, "discussion")]);
    let mut analysis = analysis();
    analysis.action_items = vec![
        ActionItem {
            task: "Explicit thing".into(),
            owner: Some("Dixit".into()),
            due_date: None,
            confidence: Confidence::Explicit,
        },
        ActionItem {
            task: "Merely suggested".into(),
            owner: Some("Priya".into()),
            due_date: None,
            confidence: Confidence::Suggested,
        },
    ];

    let note = render_note(&deliverable(
        &meeting,
        &details,
        Some(&analysis),
        60,
        Mode::Codemix,
    ));

    assert!(note.contains("**Dixit**"));
    assert!(!note.contains("Priya"), "{note}");
    assert!(note.contains("_unassigned_"));
}

#[test]
fn a_silent_source_is_called_out_in_the_note() {
    let mut meeting = ActiveMeeting::new("meeting-y");
    meeting.source_levels = vec![SourceLevel {
        source: "system audio".into(),
        peak: "0.0".into(),
        rms: "0.0".into(),
        silent: true,
    }];
    let details = transcription(vec![(0, 60, "only me talking")]);

    let note = render_note(&deliverable(&meeting, &details, None, 60, Mode::Transcribe));

    assert!(note.contains("**system audio** was silent"), "{note}");
    assert!(note.contains("missing from this transcript"));
}

#[test]
fn the_diarized_file_states_labels_are_not_identities() {
    let meeting = ActiveMeeting::new("meeting-z");
    let details = transcription(vec![(0, 10, "hello"), (11, 20, "hi")]);
    let body = render_diarized(&deliverable(&meeting, &details, None, 20, Mode::Transcribe));

    assert!(body.contains("**not** identities"));
    assert!(body.contains("not a named person"));
    assert!(body.contains("SPEAKER_00"));
    assert!(body.contains("`0:11`"));
}

#[test]
fn the_plain_transcript_falls_back_to_segments_when_no_text_field_came_back() {
    let details = Transcription {
        text: String::new(),
        segments: transcription(vec![(0, 5, "first"), (6, 9, "second")]).segments,
        language_code: None,
    };
    let meeting = ActiveMeeting::new("meeting-w");
    let body = render_plain(&deliverable(&meeting, &details, None, 10, Mode::Transcribe));
    assert_eq!(body, "first second\n");
}

#[test]
fn metadata_records_measurements_and_not_an_accuracy_claim() {
    let meeting = ActiveMeeting::new("meeting-m");
    let details = transcription(vec![(0, 30, "a"), (31, 59, "b")]);
    let measured = metadata(&deliverable(&meeting, &details, None, 60, Mode::Codemix));
    let covered = measured.timestamp_coverage.as_ref().unwrap();
    let fraction = covered.part as f64 / covered.whole as f64;
    let value = write_metadata(&measured, &meeting.source_levels, &Some(fraction.to_string()));

    assert_eq!(value.text_at("transcriptionMode").unwrap(), "codemix");
    assert!(
        matches!(value.get("batchElapsedSeconds"), Some(Json::Number(n)) if n.parse::<f64>().unwrap() == 42.5)
    );
    assert!(matches!(value.get("segmentCount"), Some(Json::Number(n)) if n == "2"));
    assert!(matches!(value.get("speakerLabelCount"), Some(Json::Number(n)) if n == "2"));
    assert_eq!(value.text_at("detectedLanguage").unwrap(), "gu-IN");
    assert!(
        matches!(value.get("timestampCoverageFraction"), Some(Json::Number(n)) if n.parse::<f64>().unwrap() > 0.98)
    );
    assert_eq!(value.text_at("trust").unwrap(), "medium");
    assert!(value.get("accuracy").is_none());
}

#[test]
fn the_transcript_files_do_not_depend_on_the_summary() {
    let meeting = ActiveMeeting::new("meeting-early");
    let details = transcription(vec![(0, 30, "one"), (31, 60, "two")]);
    let mut analysis = analysis();
    analysis.title = "Summarised".into();
    analysis.summary = "A summary that must not reach the transcript".into();
    analysis.decisions = vec!["A decision".into()];

    let without = deliverable(&meeting, &details, None, 60, Mode::Codemix);
    let with = deliverable(&meeting, &details, Some(&analysis), 60, Mode::Codemix);

    assert_eq!(render_diarized(&without), render_diarized(&with));
    assert_eq!(render_plain(&without), render_plain(&with));
    assert!(render_note(&with).contains("A decision"));
}

#[test]
fn a_long_meeting_yields_a_readable_outline_not_the_whole_transcript() {
    let segments: Vec<(i128, i128, &str)> = (0..400).map(|i| (i * 10, i * 10 + 9, "line")).collect();
    let details = transcription(segments);
    let points = timestamped_points(&details, 25);
    assert!(points.len() <= 25, "{}", points.len());
    assert!(points.len() > 10);
}

#[test]
fn meeting_ids_sort_chronologically_and_are_path_safe() {
    let id = new_meeting_id();
    assert!(id.starts_with("meeting-"));
    assert_eq!(id.len(), "meeting-20260725-181500".len());
    assert!(
        id.chars().all(|c| c.is_ascii_alphanumeric() || c == '-'),
        "{id}"
    );
    assert!(meeting_id_at("20260725-181500") < meeting_id_at("20260726-000000"));
}

fn a_transcript() -> SavedTranscript {
    SavedTranscript {
        mode: Mode::Codemix,
        transcription: Transcription {
            text: "aa meeting ma budget nakki thayu".into(),
            segments: vec![Segment {
                speaker: Some("SPEAKER_00".into()),
                text: "aa meeting ma budget nakki thayu".into(),
                start: Some(4 * SECOND),
                end: Some(95 * SECOND / 10),
            }],
            language_code: Some("gu-IN".into()),
        },
        facts: BatchFacts {
            job_id: "job-77".into(),
            elapsed: 415 * SECOND / 10,
            partial: false,
            failed_inputs: vec![],
        },
    }
}

#[test]
fn a_saved_transcript_survives_the_process_that_wrote_it() {
    let written = write_json(&write_saved(&a_transcript()));
    let back = load_saved(written.as_str()).expect("a saved transcript");
    assert_eq!(back.mode, Mode::Codemix);
    assert_eq!(back.transcription.segments.len(), 1);
    assert_eq!(back.transcription.language_code.as_deref(), Some("gu-IN"));
    assert_eq!(back.facts.job_id, "job-77");
    assert_eq!(back.facts.elapsed, 83 * SECOND / 2);
    assert_eq!(back.transcription.segments[0].end, Some(19 * SECOND / 2));
}

#[test]
fn an_empty_or_unreadable_record_means_transcribe_again() {
    assert!(load_saved("").is_none());
    assert!(load_saved("{\"mode\":\"codemix\"").is_none());
    let mut empty = a_transcript();
    empty.transcription = Transcription::empty();
    assert!(load_saved(write_json(&write_saved(&empty)).as_str()).is_none());
}

#[test]
fn the_resume_record_is_not_one_of_the_four_deliverables() {
    assert!(SAVED_TRANSCRIPT.ends_with(".json"));
    for deliverable in [
        "meeting-note.md",
        "full-diarized-transcript.md",
        "full-transcript.txt",
        "processing-metadata.json",
    ] {
        assert_ne!(SAVED_TRANSCRIPT, deliverable);
        assert!(files_as_listed().contains(&deliverable.to_string()));
    }
    assert_eq!(files_as_listed().len(), 4);
}

#[test]
fn the_sample_window_matches_what_the_skill_asks_for() {
    assert!((120..=300).contains(&(SAMPLE_LENGTH / 1_000_000_000)));
    assert!(SAMPLE_SKIP / 1_000_000_000 >= 30);
}

#[test]
fn the_model_falls_back_when_config_holds_a_non_sarvam_model() {
    let mut config = Config::empty();
    config.model = Some("whisper-large-v3-turbo".into());
    assert_eq!(options(&config, Some(Mode::Transcribe)).model, "saaras:v3");

    config.meeting_model = Some("saaras:v3".into());
    assert_eq!(options(&config, Some(Mode::Codemix)).model, "saaras:v3");
    assert_eq!(
        options(&config, Some(Mode::Codemix)).mode,
        Some(Mode::Codemix)
    );

    config.meeting_model = Some("saarika:v2.5".into());
    assert_eq!(options(&config, Some(Mode::Codemix)).mode, None);
}

#[test]
fn language_detection_is_left_on_and_speaker_count_unguessed() {
    let options = options(&Config::empty(), Some(Mode::Transcribe));
    assert_eq!(options.language_code, "unknown");
    assert_eq!(options.num_speakers, None);
    assert!(options.with_diarization);
    assert!(options.with_timestamps);
}

#[test]
fn an_in_flight_meeting_is_not_treated_as_orphaned() {
    for phase in [
        Phase::Starting,
        Phase::Recording,
        Phase::Stopping,
        Phase::Sampling,
        Phase::AwaitingApproval,
        Phase::Transcribing,
        Phase::Summarising,
    ] {
        assert!(
            !phase.is_finished() && phase != Phase::Recorded,
            "{} should be excluded from the resumable list",
            phase.as_str()
        );
        let mut active = ActiveMeeting::started("meeting-b", String::new());
        active.phase = phase;
        let entries = vec![entry("meeting-a", true, false), entry("meeting-b", true, false)];
        assert_eq!(resumable(&entries, Some(&active)), vec!["meeting-a".to_string()]);
    }
    assert!(!Phase::Recorded.is_finished());
}

fn entry(id: &str, has_audio: bool, has_note: bool) -> MeetingEntry {
    MeetingEntry {
        id: id.to_string(),
        has_audio,
        has_note,
    }
}

#[test]
fn unfinished_meetings_are_listed_newest_first() {
    let entries = vec![
        entry("meeting-1", true, false),
        entry("meeting-2", true, true),
        entry("meeting-3", true, false),
        entry("meeting-4", false, false),
    ];
    assert_eq!(
        resumable(&entries, None),
        vec!["meeting-3".to_string(), "meeting-1".to_string()]
    );
}

#[test]
fn a_recording_needing_more_parts_than_a_job_allows_is_refused_clearly() {
    let hours = MAX_FILES_PER_JOB as u64 * 2;
    assert_eq!(
        MAX_FILE_LENGTH / 1_000_000_000 * MAX_FILES_PER_JOB as u64,
        hours * 3600
    );
}

#[test]
fn audio_lands_beside_its_deliverables() {
    let path = audio_path("meeting-123").to_text();
    assert!(path.ends_with("meetings/meeting-123/audio.wav"), "{path:?}");
}

#[test]
fn phases_serialise_as_readable_kebab_case() {
    let mut meeting = ActiveMeeting::new("meeting-k");
    meeting.phase = Phase::AwaitingApproval;
    let json = write_meeting(&meeting);
    assert_eq!(json.text_at("phase").unwrap(), "awaiting-approval");
    let read = load_meeting(r#"{"id":"m","phase":"recorded","startedAt":""}"#).unwrap();
    assert_eq!(read.phase, Phase::Recorded);
    assert!(load_meeting(r#"{"id":"m","phase":"Recorded","startedAt":""}"#).is_none());
}

#[test]
fn capturing_phases_are_the_ones_holding_the_microphone() {
    for phase in [Phase::Starting, Phase::Recording, Phase::Stopping] {
        assert!(phase.is_capturing(), "{phase:?}");
    }
    for phase in [
        Phase::Recorded,
        Phase::Sampling,
        Phase::AwaitingApproval,
        Phase::Transcribing,
        Phase::Summarising,
        Phase::Done,
        Phase::Failed,
    ] {
        assert!(!phase.is_capturing(), "{phase:?}");
    }
}

#[test]
fn only_done_and_failed_are_finished() {
    assert!(Phase::Done.is_finished());
    assert!(Phase::Failed.is_finished());
    assert!(!Phase::AwaitingApproval.is_finished());
    assert!(!Phase::Recorded.is_finished());
}

#[test]
fn processing_phases_have_work_in_flight() {
    for phase in [Phase::Sampling, Phase::Transcribing, Phase::Summarising] {
        assert!(phase.is_processing(), "{phase:?}");
    }
    assert!(!Phase::AwaitingApproval.is_processing());
    assert!(!Phase::Recording.is_processing());
}

#[test]
fn a_meeting_round_trips_through_json_with_its_sample() {
    let mut meeting = ActiveMeeting::new("meeting-1");
    meeting.phase = Phase::AwaitingApproval;
    meeting.approved_mode = Some(Mode::Codemix);
    meeting.source_levels = vec![SourceLevel {
        source: "microphone".into(),
        peak: "0.25".into(),
        rms: "0.031".into(),
        silent: false,
    }];
    meeting.sample = Some(SampleReport {
        window_start: 60 * SECOND,
        window_length: 180 * SECOND,
        window_rms: "0.05".into(),
        candidates: vec![SampleCandidate {
            mode: Mode::Transcribe,
            text: "hello".into(),
            elapsed: 25 * SECOND / 2,
            segment_count: 4,
            speaker_labels: 2,
            overlapping_segments: 1,
            detected_language: Some("gu-IN".into()),
            covered: Some(178 * SECOND),
            sample_length: 180 * SECOND,
            error: None,
        }],
    });

    let json = write_json(&write_meeting(&meeting));
    let back = load_meeting(json.as_str()).unwrap();
    assert_eq!(back.phase, Phase::AwaitingApproval);
    assert_eq!(back.approved_mode, Some(Mode::Codemix));
    assert_eq!(back.source_levels[0].peak, "0.25");
    let sample = back.sample.unwrap();
    assert_eq!(sample.window_start, 60 * SECOND);
    assert_eq!(sample.candidates[0].mode, Mode::Transcribe);
    assert_eq!(sample.candidates[0].covered, Some(178 * SECOND));
    assert_eq!(sample.candidates[0].elapsed, 25 * SECOND / 2);
}

#[test]
fn elapsed_is_measured_from_the_recorded_start_time() {
    let started = (chrono::Utc::now() - chrono::Duration::seconds(90)).to_rfc3339();
    let meeting = ActiveMeeting::started("meeting-2", started);
    let elapsed = meeting.elapsed();
    assert!((89 * SECOND..=92 * SECOND).contains(&elapsed), "{elapsed}");
}

#[test]
fn an_unparseable_start_time_reports_zero_rather_than_panicking() {
    let meeting = ActiveMeeting::started("meeting-3", "not a timestamp".to_string());
    assert_eq!(meeting.elapsed(), 0);
}

#[test]
fn a_well_formed_reply_parses_completely() {
    let analysis = parse_analysis(
        r#"{"title":"Sprint planning","summary":"Discussed the release.",
            "decisions":["Ship on Friday"],
            "actionItems":[{"task":"Write the migration","owner":"Dixit","confidence":"explicit","dueDate":"2026-08-01"}],
            "blockers":["Staging is down"],"openQuestions":["Who signs off?"],"language":"Gujarati/English"}"#,
    )
    .unwrap();

    assert_eq!(analysis.title, "Sprint planning");
    assert_eq!(analysis.decisions, vec!["Ship on Friday"]);
    assert_eq!(analysis.action_items.len(), 1);
    assert_eq!(analysis.action_items[0].owner.as_deref(), Some("Dixit"));
    assert_eq!(analysis.action_items[0].confidence, Confidence::Explicit);
    assert_eq!(
        analysis.action_items[0].due_date.as_deref(),
        Some("2026-08-01")
    );
    assert_eq!(analysis.blockers, vec!["Staging is down"]);
}

#[test]
fn a_code_fenced_reply_still_parses() {
    let analysis = parse_analysis("```json\n{\"title\":\"Fenced\"}\n```").unwrap();
    assert_eq!(analysis.title, "Fenced");
}

#[test]
fn an_owner_on_a_suggested_task_is_dropped() {
    let analysis = parse_analysis(
        r#"{"actionItems":[{"task":"Review the PR","owner":"Priya","confidence":"suggested"}]}"#,
    )
    .unwrap();

    assert_eq!(analysis.action_items[0].owner, None);
    assert_eq!(analysis.action_items[0].confidence, Confidence::Suggested);
}

#[test]
fn explicit_without_an_owner_is_downgraded_not_trusted() {
    let analysis =
        parse_analysis(r#"{"actionItems":[{"task":"Fix the build","confidence":"explicit"}]}"#)
            .unwrap();
    assert_eq!(analysis.action_items[0].confidence, Confidence::Suggested);
    assert_eq!(analysis.action_items[0].owner, None);
}

#[test]
fn an_unrecognised_confidence_falls_to_the_weakest_claim() {
    let analysis = parse_analysis(
        r#"{"actionItems":[{"task":"Something","confidence":"very sure indeed"}]}"#,
    )
    .unwrap();
    assert_eq!(analysis.action_items[0].confidence, Confidence::Unassigned);
}

#[test]
fn missing_fields_get_honest_defaults_rather_than_failing() {
    let analysis = parse_analysis("{}").unwrap();
    assert_eq!(analysis.title, "Untitled meeting");
    assert_eq!(analysis.language, "mixed");
    assert!(analysis.summary.is_empty());
    assert!(analysis.decisions.is_empty());
    assert!(analysis.action_items.is_empty());
}

#[test]
fn wrongly_typed_fields_are_skipped_not_stringified() {
    let analysis = parse_analysis(
        r#"{"title":42,"decisions":["real",7,""],"actionItems":[{"task":""},{"task":"kept"}]}"#,
    )
    .unwrap();

    assert_eq!(analysis.title, "Untitled meeting");
    assert_eq!(analysis.decisions, vec!["real"]);
    assert_eq!(analysis.action_items.len(), 1);
    assert_eq!(analysis.action_items[0].task, "kept");
}

#[test]
fn invalid_json_is_an_error_with_a_readable_message() {
    let error = parse_analysis("not json at all").unwrap_err();
    assert!(error.contains("invalid JSON"), "{error}");
}

#[test]
fn the_prompt_forbids_inventing_owners_and_naming_speakers() {
    assert!(SYSTEM_PROMPT.contains("Never invent"));
    assert!(SYSTEM_PROMPT.contains("explicitly assigns"));
    assert!(SYSTEM_PROMPT.contains("SPEAKER_00 are not names"));
}

#[test]
fn a_summary_needs_a_key_and_answers_in_its_shape() {
    let mut config = Config::empty();
    assert!(analysis_request("words", &config).is_err());
    assert!(!has_summary_key(&config));
    assert!(check_ready(&config).is_err());
    config.save_key("groq", "g");
    config.save_key("sarvam", "s");
    assert!(has_summary_key(&config) && check_ready(&config).is_ok());
    assert_eq!(analysis_request("words", &config).unwrap().key, "g");
    let reply =
        parse_json(r#"{"choices":[{"message":{"content":"{\"title\":\"Weekly\"}"}}]}"#).unwrap();
    assert_eq!(analysis_reply(200, &reply).unwrap().title, "Weekly");
    assert!(analysis_reply(500, &reply).is_err());
}

#[test]
fn a_sample_is_cut_and_its_findings_reported() {
    let samples: Vec<i16> = (0..16_000 * 20).map(|i| if i % 2 == 0 { 900 } else { -900 }).collect();
    let bytes = to_wav(16_000, 1, &samples).unwrap();
    let sample = cut_sample(&bytes).unwrap();
    assert_eq!(sample.details.frames, 16_000 * 20);
    assert_eq!(gate_modes(&Config::empty()).len(), 2);
    let window = Window {
        start: 5,
        length: 6,
        energy: 0,
        count: 0,
    };
    let failed = SampleCandidate {
        mode: Mode::Transcribe,
        text: String::new(),
        elapsed: 0,
        segment_count: 0,
        speaker_labels: 0,
        overlapping_segments: 0,
        detected_language: None,
        covered: None,
        sample_length: 0,
        error: Some("no credit".to_string()),
    };
    let error = gate_report(&window, "0.1", vec![failed.clone()]).unwrap_err();
    assert!(error.contains("transcribe: no credit"), "{error}");
    let mut fine = failed.clone();
    fine.error = None;
    let report = gate_report(&window, "0.1", vec![failed, fine]).unwrap();
    assert_eq!(report.window_start, 5 * NANOSECOND);
    assert_eq!(report.window_rms, "0.1");
}

#[test]
fn inputs_are_split_only_where_they_are_long_wavs() {
    let short = to_wav(16_000, 1, &[1, 2, 3]).unwrap();
    assert!(prepare_inputs("/m/audio.wav", &short, "linux").unwrap().is_none());
    assert!(prepare_inputs("/m/audio.mp3", b"anything", "linux").unwrap().is_none());
    assert!(prepare_inputs("C:\\m.x\\audio.wav", b"anything", "windows").is_err());
    assert!(prepare_inputs("C:\\m.wav\\audio", b"anything", "windows").unwrap().is_none());
    let unknown = audio_details(None, None, Some(2 * SECOND));
    assert_eq!(unknown.frames, 32_000);
}

#[test]
fn the_words_are_on_disk_before_the_summary_is_asked_for() {
    let plan = delivery_plan(false, true);
    let written = plan.iter().position(|s| *s == DeliveryStep::WriteTranscript);
    let asked = plan.iter().position(|s| *s == DeliveryStep::Summarise);
    assert!(written.unwrap() < asked.unwrap());
    assert!(!delivery_plan(false, false).contains(&DeliveryStep::Summarise));
    assert!(is_intermediate("sample.wav"));
    assert!(is_intermediate("audio-part01.wav"));
    assert!(is_intermediate(SAVED_TRANSCRIPT));
    assert!(!is_intermediate("meeting-note.md"));
    assert!(!is_intermediate("audio.wav"));
    assert_eq!(
        recorded_audio(&vec!["meeting-note.md".to_string(), "audio.m4a".to_string()]).as_deref(),
        Some("audio.m4a")
    );
}

#[test]
fn a_recorder_stops_when_it_is_told_to() {
    let mut meeting = ActiveMeeting::started("meeting-s", String::new());
    assert!(check_worker(Some(&meeting), "meeting-s").is_ok());
    assert!(check_worker(Some(&meeting), "meeting-t").is_err());
    assert!(check_worker(None, "meeting-s").is_err());
    mark_recording(&mut meeting, "/m/audio.wav".to_string(), 7);
    assert_eq!(meeting.phase, Phase::Recording);
    assert_eq!(why_stop(Some(&meeting), "meeting-s", 1), None);
    assert!(matches!(request_stop(Some(&meeting)), Ok(StopRequest::Ask)));
    assert!(request_stop(None).is_err());
    meeting.phase = Phase::Stopping;
    assert!(why_stop(Some(&meeting), "meeting-s", 1).is_some());
    assert!(matches!(stop_progress(Some(&meeting)), StopProgress::Waiting));
    meeting.phase = Phase::Recorded;
    assert!(matches!(stop_progress(Some(&meeting)), StopProgress::Recorded));
    meeting.phase = Phase::Failed;
    assert!(matches!(stop_progress(Some(&meeting)), StopProgress::Failed(_)));
}

#[test]
fn a_meeting_is_read_back_out_of_its_file_exactly() {
    for duration in [0, 1, 9, 10, 123, SECOND - 1, SECOND, 25 * SECOND / 2, 7_200 * SECOND + 1, i128::MAX] {
        let mut meeting = ActiveMeeting::new("meeting-1");
        meeting.phase = Phase::Recorded;
        meeting.duration = Some(duration);
        meeting.audio_path = Some("/tmp/audio.wav".to_string());
        let back = load_meeting(&meeting_text(&meeting)).unwrap();
        assert_eq!(back.duration, Some(duration));
        assert_eq!(back.audio_path, meeting.audio_path);
        assert_eq!(back.started_at, meeting.started_at);
    }
}

#[test]
fn a_new_meeting_id_is_safe_as_a_name() {
    let id = new_meeting_id();
    assert!(id.starts_with("meeting-"));
    assert!(id.len() >= "meeting-20260725-181500".len());
    assert!(!id.contains('/') && !id.contains('\\') && !id.contains('.'));
}

#[test]
fn a_meeting_is_kept_with_all_that_was_measured() {
    let mut meeting = ActiveMeeting::new("meeting-1");
    meeting.phase = Phase::AwaitingApproval;
    meeting.duration = Some(25 * SECOND / 2);
    meeting.recorder_pid = Some(7);
    meeting.source_levels = vec![SourceLevel {
        source: "mic".to_string(),
        peak: "0.75".to_string(),
        rms: "0.0625".to_string(),
        silent: false,
    }];
    meeting.sample = Some(SampleReport {
        window_start: 30 * SECOND,
        window_length: 180 * SECOND,
        window_rms: "0.125".to_string(),
        candidates: Vec::new(),
    });
    let text = meeting_text(&meeting);
    assert!(text.contains("\"durationSeconds\": 12.5,"), "{text}");
    let back = load_meeting(&text).unwrap();
    assert_eq!(back.source_levels[0].rms, "0.0625");
    let sample = back.sample.as_ref().unwrap();
    assert_eq!(sample.window_rms, "0.125");
    assert_eq!(sample.window_length, 180 * SECOND);
    assert_eq!(meeting_text(&back), text);
    assert!(load_meeting("{}").is_none());
}

#[test]
fn a_transcription_is_read_back_out_of_its_file() {
    let text = saved_text(&a_transcript());
    let back = load_saved(&text).unwrap();
    assert_eq!(back.transcription.segments[0].end, Some(95 * SECOND / 10));
    assert_eq!(back.facts.elapsed, 415 * SECOND / 10);
    assert_eq!(saved_text(&back), text);
}

#[test]
fn a_short_recording_is_sampled_to_its_last_frame() {
    for (rate, channels, frames) in [(16_000, 1, 3), (16_000, 1, 1), (44_100, 2, 2), (44_100, 2, 44_099)] {
        let count = frames * channels as usize;
        let samples: Vec<i16> = (0..count).map(|i| (i % 500) as i16 - 250).collect();
        let bytes = to_wav(rate, channels, &samples).unwrap();
        let sample = cut_sample(&bytes).unwrap();
        assert_eq!(sample.window.count, count);
        assert_eq!(sample.details.frames, frames as u64);
        assert_eq!(sample.details.sample_rate, rate);
        assert_eq!(sample.details.channels, channels);
        assert_eq!(sample.bytes, bytes);
    }
    let three = to_wav(16_000, 1, &[1, 2, 3]).unwrap();
    assert_eq!(cut_sample(&three).unwrap().window.length, 187_500);
}

#[test]
fn a_long_recording_gives_a_sample_of_full_length() {
    let samples: Vec<i16> = (0..16_000 * 185).map(|i| if i % 2 == 0 { 900 } else { -900 }).collect();
    let bytes = to_wav(16_000, 1, &samples).unwrap();
    let sample = cut_sample(&bytes).unwrap();
    assert_eq!(sample.window.start, 5_000_000_000);
    assert_eq!(sample.window.length, SAMPLE_LENGTH);
    assert_eq!(sample.details.frames, 16_000 * 180);
    assert_eq!(sample.window.count, 16_000 * 180);
    assert_eq!(sample.window.energy, 900 * 900 * 16_000 * 180);
}
