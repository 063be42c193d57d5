use nextbase::job::{
    azure_error_message, error_message, files_request, is_azure_blob, job_parameters, signed_url,
    upload_error, upload_headers, upload_name, JobState, SignedUrl,
};
use nextbase::json::{parse_json, write_json, Json};
use nextbase::sarvam_batch::{parse_output, BatchOptions, BatchResult, Mode};
use nextbase::submission::{
    advance, begin, combine, failed_input_names, files_to_retry, output_file_names, retry_note,
    Event, Next, Request, Stage,
};
use nextbase::time::{clock, SECOND};
use nextbase::transcription::{Segment, Transcription};

fn json(text: &str) -> Json {
    parse_json(text).unwrap()
}

#[test]
fn modes_round_trip_through_their_names() {
    assert_eq!(Mode::from_name("transcribe"), Some(Mode::Transcribe));
    assert_eq!(Mode::from_name("Codemix"), Some(Mode::Codemix));
    assert_eq!(Mode::from_name("code-mix"), Some(Mode::Codemix));
    assert_eq!(Mode::from_name("translate"), None);
    assert_eq!(Mode::Codemix.as_str(), "codemix");
}

#[test]
fn job_parameters_are_nested_and_omit_unknown_speaker_counts() {
    let body = job_parameters(&BatchOptions::default());
    let parameters = body.get("job_parameters").expect("nested object");
    assert_eq!(parameters.text_at("model").unwrap(), "saaras:v3");
    assert_eq!(parameters.text_at("mode").unwrap(), "transcribe");
    assert_eq!(parameters.text_at("language_code").unwrap(), "unknown");
    assert!(matches!(
        parameters.get("with_diarization"),
        Some(Json::Bool(true))
    ));
    assert!(parameters.get("num_speakers").is_none());
    assert!(body.get("model").is_none());

    let body = job_parameters(&BatchOptions {
        num_speakers: Some(3),
        ..Default::default()
    });
    let parameters = body.get("job_parameters").unwrap();
    assert!(matches!(parameters.get("num_speakers"), Some(Json::Number(n)) if n == "3"));
}

#[test]
fn diarized_output_is_parsed_into_segments() {
    let value = json(
        r#"{
            "transcript": "hello there",
            "language_code": "gu-IN",
            "diarized_transcript": {
                "entries": [
                    {"transcript": "hello", "speaker_id": 0, "start_time_seconds": 1.0, "end_time_seconds": 2.0},
                    {"transcript": "there", "speaker_id": 1, "start_time_seconds": 2.5, "end_time_seconds": 4.0}
                ]
            }
        }"#,
    );

    let parsed = parse_output(&value);
    assert_eq!(parsed.text, "hello there");
    assert_eq!(parsed.language_code.as_deref(), Some("gu-IN"));
    assert_eq!(parsed.segments.len(), 2);
    assert_eq!(parsed.segments[0].speaker.as_deref(), Some("SPEAKER_00"));
    assert_eq!(parsed.segments[1].speaker.as_deref(), Some("SPEAKER_01"));
    assert_eq!(parsed.speaker_labels().len(), 2);
    assert_eq!(parsed.coverage(), Some((SECOND, 4 * SECOND)));
    assert_eq!(parsed.overlapping_segments(), 0);
}

#[test]
fn a_plain_transcript_without_diarization_still_parses() {
    let parsed = parse_output(&json(r#"{"text": "just words"}"#));
    assert_eq!(parsed.text, "just words");
    assert!(parsed.segments.is_empty());
    assert_eq!(parsed.as_labelled_text(), "just words");
    assert_eq!(parsed.coverage(), None);
}

#[test]
fn an_unexpected_shape_yields_empty_data_rather_than_an_error() {
    let parsed = parse_output(&json(r#"{"unexpected": {"nested": 1}}"#));
    assert!(parsed.text.is_empty());
    assert!(parsed.segments.is_empty());
    assert!(parsed.language_code.is_none());
}

#[test]
fn entries_without_text_are_dropped_and_string_speakers_are_kept() {
    let value = json(
        r#"{
            "diarized_transcript": {
                "entries": [
                    {"transcript": "   ", "speaker_id": 0},
                    {"text": "kept", "speaker": "Speaker A", "start": 5.0, "end": 6.0},
                    {"transcript": "numeric string", "speaker_id": "2"}
                ]
            }
        }"#,
    );

    let parsed = parse_output(&value);
    assert_eq!(parsed.segments.len(), 2);
    assert_eq!(parsed.segments[0].speaker.as_deref(), Some("Speaker A"));
    assert_eq!(parsed.segments[0].start, Some(5 * SECOND));
    assert_eq!(parsed.segments[1].speaker.as_deref(), Some("SPEAKER_02"));
}

#[test]
fn overlapping_segments_are_counted() {
    let value = json(
        r#"{
            "diarized_transcript": {"entries": [
                {"transcript": "a", "speaker_id": 0, "start_time_seconds": 0.0, "end_time_seconds": 5.0},
                {"transcript": "b", "speaker_id": 1, "start_time_seconds": 4.0, "end_time_seconds": 8.0},
                {"transcript": "c", "speaker_id": 0, "start_time_seconds": 9.0, "end_time_seconds": 10.0}
            ]}
        }"#,
    );
    assert_eq!(parse_output(&value).overlapping_segments(), 1);
}

#[test]
fn labelled_text_carries_clock_stamps_and_generic_labels() {
    let value = json(
        r#"{
            "diarized_transcript": {"entries": [
                {"transcript": "opening", "speaker_id": 0, "start_time_seconds": 65.0}
            ]}
        }"#,
    );
    assert_eq!(
        parse_output(&value).as_labelled_text(),
        "[1:05] SPEAKER_00: opening"
    );
}

#[test]
fn output_and_failed_names_are_read_from_job_details() {
    let status = json(
        r#"{
            "job_state": "PartiallyCompleted",
            "job_details": [
                {"inputs": [{"file_name": "audio-part01.wav"}], "outputs": [{"file_name": "0.json"}]},
                {"inputs": [{"file_name": "audio-part02.wav"}], "outputs": [], "task_state": "Failed"}
            ]
        }"#,
    );

    assert_eq!(output_file_names(&status), vec!["0.json".to_string()]);
    assert_eq!(
        failed_input_names(&status),
        vec!["audio-part02.wav".to_string()]
    );
}

#[test]
fn merging_parts_shifts_later_timestamps_past_earlier_ones() {
    let result = BatchResult {
        job_id: "j".into(),
        outputs: vec![
            Transcription {
                text: "first".into(),
                segments: vec![Segment {
                    speaker: Some("SPEAKER_00".into()),
                    text: "first".into(),
                    start: Some(0),
                    end: Some(100 * SECOND),
                }],
                language_code: Some("hi-IN".into()),
            },
            Transcription {
                text: "second".into(),
                segments: vec![Segment {
                    speaker: Some("SPEAKER_01".into()),
                    text: "second".into(),
                    start: Some(10 * SECOND),
                    end: Some(20 * SECOND),
                }],
                language_code: None,
            },
        ],
        failed_inputs: Vec::new(),
        elapsed: SECOND,
        partial: false,
    };

    let merged = result.merged();
    assert_eq!(merged.text, "first second");
    assert_eq!(merged.segments[1].start, Some(110 * SECOND));
    assert_eq!(merged.segments[1].end, Some(120 * SECOND));
    assert_eq!(merged.language_code.as_deref(), Some("hi-IN"));
}

#[test]
fn upload_names_gain_an_extension_only_when_missing() {
    assert_eq!(upload_name("/tmp/audio.wav", "linux"), "audio.wav");
    assert_eq!(upload_name("/tmp/meeting.m4a", "linux"), "meeting.m4a");
    assert_eq!(upload_name("/tmp/recording", "linux"), "recording.wav");
}

#[test]
fn upload_names_go_by_the_paths_of_the_platform() {
    assert_eq!(upload_name("C:\\Users\\me\\talk.m4a", "windows"), "talk.m4a");
    assert_eq!(upload_name("C:/Users/me\\talk", "windows"), "talk.wav");
    assert_eq!(upload_name("C:talk.mp3", "windows"), "talk.mp3");
    assert_eq!(upload_name("\\\\server\\share\\talk.mp3", "windows"), "talk.mp3");
    assert_eq!(upload_name("//server/share.mp3", "windows"), "audio.wav.wav");
    assert_eq!(upload_name("//server/share.mp3", "linux"), "share.mp3");
    assert_eq!(upload_name("//server", "windows"), "server.wav");
    assert_eq!(upload_name("a\\b.wav", "linux"), "a\\b.wav");
    assert_eq!(upload_name("/tmp/..", "linux"), "audio.wav.wav");
}

#[test]
fn segments_that_overlap_by_next_to_nothing_overlap() {
    let overlapping = |end: &str, start: &str| {
        parse_output(&json(&format!(
            r#"{{"diarized_transcript": {{"entries": [
                {{"transcript": "a", "speaker_id": 0, "start_time_seconds": 1.1, "end_time_seconds": {end}}},
                {{"transcript": "b", "speaker_id": 1, "start_time_seconds": {start}, "end_time_seconds": 5.5}}
            ]}}}}"#
        )))
        .overlapping_segments()
    };
    assert_eq!(overlapping("3.3000000000000003", "3.3"), 1);
    assert_eq!(overlapping("3.3", "3.3000000000000003"), 0);
    assert_eq!(overlapping("3.3", "3.3"), 0);
    assert_eq!(overlapping("0.009999999776482582", "9.999999776482581e-3"), 1);
}

#[test]
fn case_and_spacing_of_a_mode_do_not_matter() {
    for written in ["codemix", "CODEMIX", " Code-Mix\t", "\u{a0}code_MIX\n"] {
        assert_eq!(Mode::from_name(written), Some(Mode::Codemix), "{written}");
    }
    assert_eq!(Mode::from_name("TRANSCR\u{130}BE"), None);
    assert_eq!(Mode::from_name("code mix"), None);
}

#[test]
fn signed_urls_replay_metadata_headers() {
    let payload = json(
        r#"{
            "upload_urls": {
                "audio.wav": {
                    "file_url": "https://blob.example/put",
                    "file_metadata": {"x-ms-blob-type": "BlockBlob", "ignored": 5}
                }
            }
        }"#,
    );

    let details = signed_url(&payload, "upload_urls", "audio.wav").expect("url");
    assert_eq!(details.url, "https://blob.example/put");
    assert_eq!(
        details.headers,
        vec![("x-ms-blob-type".to_string(), "BlockBlob".to_string())]
    );
}

#[test]
fn azure_uploads_are_detected_from_the_container_type_or_the_host() {
    assert!(is_azure_blob(
        "https://x.blob.core.windows.net/c/f",
        &Some("Azure".to_string())
    ));
    assert!(is_azure_blob(
        "https://x.blob.core.windows.net/c/f",
        &Some("Azure_V1".to_string())
    ));
    assert!(is_azure_blob(
        "https://acct.blob.core.windows.net/c/f?sig=x",
        &None
    ));

    assert!(!is_azure_blob(
        "https://storage.googleapis.com/c/f",
        &Some("Google".to_string())
    ));
    assert!(!is_azure_blob(
        "http://127.0.0.1/c/f",
        &Some("Local".to_string())
    ));
    assert!(!is_azure_blob("https://example.com/upload", &None));
}

#[test]
fn azure_error_bodies_are_reduced_to_the_sentence_that_matters() {
    let body = "<?xml version=\"1.0\"?><Error><Code>MissingRequiredHeader</Code>\
<Message>An HTTP header that's mandatory for this request is not specified.\nRequestId:abc\nTime:2026-07-26</Message></Error>";
    assert_eq!(
        azure_error_message(body),
        "MissingRequiredHeader: An HTTP header that's mandatory for this request is not specified."
    );

    assert_eq!(
        azure_error_message("<Error><Code>AuthenticationFailed</Code></Error>"),
        "AuthenticationFailed"
    );
    let html = "<html>".to_string() + &"x".repeat(500);
    assert_eq!(azure_error_message(&html).len(), 200);
    assert!(azure_error_message("   ").is_empty());
}

#[test]
fn a_single_returned_url_is_used_even_when_the_key_differs() {
    let payload = json(r#"{"download_urls": {"0.json": {"file_url": "https://blob.example/get"}}}"#);
    assert!(signed_url(&payload, "download_urls", "unexpected.json").is_some());

    let two = json(
        r#"{
            "download_urls": {
                "0.json": {"file_url": "https://a"},
                "1.json": {"file_url": "https://b"}
            }
        }"#,
    );
    assert!(signed_url(&two, "download_urls", "2.json").is_none());
}

#[test]
fn job_states_include_the_undocumented_partial_one() {
    assert_eq!(
        JobState::parse("PartiallyCompleted"),
        JobState::PartiallyCompleted
    );
    assert!(JobState::parse("PartiallyCompleted").is_terminal());
    assert!(JobState::parse("Completed").is_terminal());
    assert!(JobState::parse("Failed").is_terminal());
    assert!(!JobState::parse("Running").is_terminal());
    assert!(!JobState::parse("Accepted").is_terminal());
    assert_eq!(JobState::parse("something new"), JobState::Unknown);
}

#[test]
fn error_messages_are_found_in_every_shape_sarvam_uses() {
    assert_eq!(
        error_message(&json(r#"{"error": {"message": "nested"}}"#), 400, "x"),
        "nested"
    );
    assert_eq!(
        error_message(&json(r#"{"message": "flat"}"#), 400, "x"),
        "flat"
    );
    assert_eq!(
        error_message(&json(r#"{"detail": "detail"}"#), 400, "x"),
        "detail"
    );
    assert_eq!(
        error_message(&Json::Null, 400, "create the job"),
        "create the job failed: HTTP 400"
    );
}

#[test]
fn clock_formats_hours_only_when_needed() {
    assert_eq!(clock(0), "0:00");
    assert_eq!(clock(654 * SECOND / 10), "1:05");
    assert_eq!(clock(3661 * SECOND), "1:01:01");
}

#[test]
fn the_blob_type_header_is_sent_to_azure_alone() {
    let details = SignedUrl {
        url: "http://127.0.0.1:4000/container/audio.wav?sig=x".to_string(),
        headers: Vec::new(),
    };
    assert_eq!(
        upload_headers(&details, &Some("Azure".to_string())),
        vec![("x-ms-blob-type".to_string(), "BlockBlob".to_string())]
    );
    assert!(upload_headers(&details, &Some("Google".to_string())).is_empty());
    let error = upload_error(
        "/tmp/audio.wav",
        400,
        "<Error><Code>MissingRequiredHeader</Code><Message>A mandatory header.</Message></Error>",
    );
    assert!(error.contains("HTTP 400"), "{error}");
    assert!(error.contains("MissingRequiredHeader"), "{error}");
    assert!(error.contains("mandatory"), "{error}");
}

#[test]
fn a_job_over_the_documented_file_limit_is_refused_before_upload() {
    match begin(21, &BatchOptions::default()).next {
        Next::Failed { message } => assert!(message.contains("20 files per job"), "{message}"),
        other => panic!("{other:?}"),
    }
    match begin(0, &BatchOptions::default()).next {
        Next::Failed { message } => assert!(message.contains("No audio files"), "{message}"),
        other => panic!("{other:?}"),
    }
}

fn reply(text: &str) -> Event {
    Event::Reply {
        body: json(text),
        total: 5 * SECOND,
        polled: SECOND,
    }
}

fn asked(next: Next) -> (Stage, Request) {
    match next {
        Next::Ask { stage, request } => (stage, request),
        other => panic!("{other:?}"),
    }
}

#[test]
fn a_job_runs_from_its_creation_to_its_words() {
    let names = vec!["audio.wav".to_string()];
    let (stage, request) = asked(begin(1, &BatchOptions::default()).next);
    assert!(matches!(request, Request::Post { .. }));
    let (stage, _) = asked(advance(&names, stage, reply(r#"{"job_id":"j-1"}"#)).next);
    let (stage, request) = asked(
        advance(
            &names,
            stage,
            reply(r#"{"upload_urls":{"audio.wav":{"file_url":"https://x.blob.core.windows.net/c"}}}"#),
        )
        .next,
    );
    match request {
        Request::Put { index, url, headers } => {
            assert_eq!(index, 0);
            assert_eq!(url, "https://x.blob.core.windows.net/c");
            assert_eq!(headers[0].0, "x-ms-blob-type");
        }
        other => panic!("{other:?}"),
    }
    let (stage, _) = asked(advance(&names, stage, reply("null")).next);
    let (stage, request) = asked(advance(&names, stage, reply("null")).next);
    assert!(matches!(request, Request::Status { .. }));
    let (stage, request) =
        asked(advance(&names, stage, reply(r#"{"job_state":"Running"}"#)).next);
    assert!(matches!(request, Request::Status { .. }));
    let (stage, _) = asked(
        advance(
            &names,
            stage,
            reply(r#"{"job_state":"Completed","job_details":[{"inputs":[{"file_name":"audio.wav"}],"outputs":[{"file_name":"0.json"}]}]}"#),
        )
        .next,
    );
    let (stage, request) = asked(
        advance(
            &names,
            stage,
            reply(r#"{"download_urls":{"0.json":{"file_url":"https://get"}}}"#),
        )
        .next,
    );
    assert!(matches!(request, Request::Get { .. }));
    match advance(&names, stage, reply(r#"{"transcript":"hello"}"#)).next {
        Next::Finished { result } => {
            assert_eq!(result.job_id, "j-1");
            assert_eq!(result.combined_text(), "hello");
            assert!(!result.partial);
            assert_eq!(result.elapsed, 5 * SECOND);
        }
        other => panic!("{other:?}"),
    }
}

#[test]
fn a_refusal_ends_the_job_with_its_own_words() {
    let names = vec!["audio.wav".to_string()];
    let (stage, _) = asked(begin(1, &BatchOptions::default()).next);
    match advance(
        &names,
        stage,
        Event::Refused {
            message: "no credit".to_string(),
        },
    )
    .next
    {
        Next::Failed { message } => assert!(message.contains("no credit"), "{message}"),
        other => panic!("{other:?}"),
    }
}

#[test]
fn only_the_files_that_failed_are_sent_again() {
    let names = vec!["a.wav".to_string(), "b.wav".to_string()];
    assert_eq!(files_to_retry(&names, &vec!["b.wav".to_string()]), vec![1]);
    assert!(retry_note(1).contains('1'));
    let first = BatchResult {
        job_id: "one".into(),
        outputs: vec![Transcription {
            text: "a".into(),
            segments: Vec::new(),
            language_code: None,
        }],
        failed_inputs: vec!["b.wav".into()],
        elapsed: 2,
        partial: true,
    };
    let second = BatchResult {
        job_id: "two".into(),
        outputs: vec![Transcription {
            text: "b".into(),
            segments: Vec::new(),
            language_code: None,
        }],
        failed_inputs: Vec::new(),
        elapsed: 3,
        partial: false,
    };
    let both = combine(first, second);
    assert_eq!(both.combined_text(), "a\nb");
    assert_eq!(both.elapsed, 5);
    assert!(!both.partial);
}

#[test]
fn a_document_is_written_as_it_was_read() {
    let text = r#"{"a":[1,2.5,"x\n\"y\""],"b":{"c":null,"d":true}}"#;
    assert_eq!(write_json(&json(text)), text);
    assert!(parse_json("{\"a\":").is_none());
    assert_eq!(
        write_json(&files_request("j", &vec!["a.wav".to_string()])),
        r#"{"job_id":"j","files":["a.wav"]}"#
    );
}
