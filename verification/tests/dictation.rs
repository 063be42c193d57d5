use nextbase::audio::{
    choose_device, is_likely_virtual, new_recording_path, probe_order, probe_result,
    recording_name_at, stale_recordings, Levels, RecordingFile,
};
use nextbase::config::{Config, Provider};
use nextbase::json::parse_json;
use nextbase::polish::{
    dictation_text, normalize_transcript_text, rewrite_reply, rewrite_request, RewriteMode,
};
use nextbase::transcribe::{
    clip_name, first_attempt, form_fields, names_duration, provider_error, recover, refused_size,
    sarvam_model, transcript_from, transcription_reply, Recovery, Service, CODEX_MAX_BYTES,
};
use nextbase::updater::{is_newer, release_status, UpdateStatus};
use nextbase::verify::{check_key, judge_key, CheckReply, KeyCheck};

fn levels(peak: f32, rms: f32) -> Levels {
    Levels {
        peak: peak.to_bits(),
        rms: rms.to_bits(),
    }
}

#[test]
fn spaces_before_punctuation_are_removed() {
    assert_eq!(normalize_transcript_text("hello , world ."), "hello, world");
}

#[test]
fn whitespace_runs_collapse() {
    assert_eq!(normalize_transcript_text("too   many    spaces"), "too many spaces");
    assert_eq!(normalize_transcript_text("line\n\nbreak"), "line break");
}

#[test]
fn edge_punctuation_and_whitespace_are_trimmed() {
    assert_eq!(normalize_transcript_text("  ...hello world!  "), "hello world");
    assert_eq!(normalize_transcript_text("- dash lead"), "dash lead");
}

#[test]
fn inner_punctuation_survives() {
    assert_eq!(
        normalize_transcript_text("first. second, third"),
        "first. second, third"
    );
}

#[test]
fn empty_input_stays_empty() {
    assert_eq!(normalize_transcript_text("   ,,, "), "");
}

#[test]
fn mode_names_round_trip() {
    assert_eq!(RewriteMode::from_name("spell"), Some(RewriteMode::Spell));
    assert_eq!(RewriteMode::from_name("nonsense"), None);
}

#[test]
fn tidying_twice_changes_nothing_more() {
    let once = normalize_transcript_text(" well ,  that   is it . ");
    assert_eq!(normalize_transcript_text(once.as_str()), once);
}

#[test]
fn polishing_never_loses_what_was_said() {
    assert_eq!(dictation_text(" hello , you ", None), "hello, you");
    assert_eq!(dictation_text("hello", Some("  ".to_string())), "hello");
    assert_eq!(dictation_text("hello", Some("Hello!".to_string())), "Hello!");
}

#[test]
fn rewriting_needs_text_and_a_key() {
    let mut config = Config::empty();
    assert!(rewrite_request("hello", &config, RewriteMode::Polish).is_err());
    config.set_key(Provider::Groq, "k");
    let request = rewrite_request("hello", &config, RewriteMode::Polish).unwrap();
    assert_eq!(request.key, "k");
    assert!(request.body.get("messages").is_some());
    let reply = parse_json(r#"{"choices":[{"message":{"content":" Hello. "}}]}"#).unwrap();
    assert_eq!(rewrite_reply(200, &reply).unwrap(), "Hello.");
    let refusal = parse_json(r#"{"error":{"message":"slow down"}}"#).unwrap();
    assert!(rewrite_reply(429, &refusal).unwrap_err().contains("slow down"));
}

#[test]
fn retired_sarvam_model_is_upgraded() {
    assert_eq!(sarvam_model("saarika:v2"), "saarika:v2.5");
    assert_eq!(sarvam_model("saaras:v3"), "saaras:v3");
}

#[test]
fn error_messages_are_found_in_every_provider_shape() {
    assert_eq!(
        provider_error(
            &parse_json(r#"{"error": {"message": "bad key"}}"#).unwrap(),
            401,
            "Groq"
        ),
        "bad key"
    );
    assert_eq!(
        provider_error(
            &parse_json(r#"{"detail": "not allowed"}"#).unwrap(),
            403,
            "ElevenLabs"
        ),
        "not allowed"
    );
    assert_eq!(
        provider_error(&parse_json(r#"{"message": "nope"}"#).unwrap(), 400, "Sarvam"),
        "nope"
    );
    assert_eq!(
        provider_error(&parse_json("{}").unwrap(), 500, "Groq"),
        "Groq transcription failed: HTTP 500"
    );
}

#[test]
fn transcript_is_read_from_either_field_name() {
    assert_eq!(
        transcript_from(&parse_json(r#"{"text": " hi "}"#).unwrap()),
        "hi"
    );
    assert_eq!(
        transcript_from(&parse_json(r#"{"transcript": "namaste"}"#).unwrap()),
        "namaste"
    );
    assert_eq!(transcript_from(&parse_json("{}").unwrap()), "");
}

#[test]
fn only_duration_errors_trigger_the_groq_fallback() {
    let duration = "audio duration exceeds the maximum limit";
    assert!(names_duration(duration));
    let auth = "invalid api subscription key";
    assert!(!names_duration(auth));

    let mut config = Config::empty();
    config.provider = Some(Provider::Sarvam);
    config.set_key(Provider::Sarvam, "s");
    config.set_key(Provider::Groq, "g");
    match recover(&config, Service::Sarvam, "Audio DURATION exceeds the maximum limit") {
        Recovery::Retry { attempt, .. } => assert_eq!(attempt.key, "g"),
        other => panic!("{other:?}"),
    }
    match recover(&config, Service::Sarvam, auth) {
        Recovery::Fail { message } => assert!(message.contains("subscription key"), "{message}"),
        other => panic!("{other:?}"),
    }
}

#[test]
fn a_clip_is_sent_as_its_provider_asks() {
    let mut config = Config::empty();
    assert!(first_attempt(&config).is_err());
    config.provider = Some(Provider::Groq);
    assert!(first_attempt(&config).is_err());
    config.set_key(Provider::Groq, "g");
    let attempt = first_attempt(&config).unwrap();
    assert_eq!(attempt.key, "g");
    assert!(attempt.service.url().starts_with("https://"));
    assert!(!form_fields(attempt.service, attempt.model.as_str()).is_empty());
    assert_eq!(clip_name("/tmp/a/clip.wav", "linux"), "clip.wav");
    assert_eq!(clip_name("C:\\a.b\\clip", "windows"), "clip.wav");
    assert!(refused_size(Service::NextbaseCodex, CODEX_MAX_BYTES + 1).is_some());
    assert!(refused_size(Service::Groq, CODEX_MAX_BYTES + 1).is_none());
    let body = parse_json(r#"{"text":"ok"}"#).unwrap();
    assert_eq!(transcription_reply(200, &body, Service::Groq).unwrap(), "ok");
    assert!(transcription_reply(500, &body, Service::Groq).is_err());
}

#[test]
fn newer_versions_are_detected() {
    assert!(is_newer("0.2.0", "0.1.0"));
    assert!(is_newer("v1.0.0", "0.9.9"));
    assert!(is_newer("0.1.10", "0.1.9"));
}

#[test]
fn same_or_older_is_not_an_update() {
    assert!(!is_newer("0.1.0", "0.1.0"));
    assert!(!is_newer("v0.1.0", "0.1.0"));
    assert!(!is_newer("0.1.0", "0.2.0"));
    assert!(!is_newer("0.9.9", "1.0.0"));
}

#[test]
fn missing_segments_count_as_zero() {
    assert!(is_newer("0.2", "0.1.9"));
    assert!(!is_newer("0.1", "0.1.0"));
}

#[test]
fn a_zero_behind_a_version_changes_nothing() {
    for (candidate, current) in [("v1.2", "1.1.9"), ("1.2", "1.2"), ("vv", "0.0.1"), ("1.2-rc", "1.2.1")] {
        let expected = is_newer(candidate, current);
        assert_eq!(is_newer(&format!("{candidate}.0"), current), expected);
        assert_eq!(is_newer(candidate, &format!("{current}.0")), expected);
    }
}

#[test]
fn a_release_is_compared_with_this_version() {
    let body = parse_json(r#"{"tag_name":"v0.3.0"}"#).unwrap();
    match release_status(200, &body, "0.2.0") {
        Ok(UpdateStatus::Available { current, latest }) => {
            assert_eq!(current, "0.2.0");
            assert_eq!(latest, "v0.3.0");
        }
        other => panic!("{other:?}"),
    }
    assert!(matches!(
        release_status(200, &body, "0.3.0"),
        Ok(UpdateStatus::UpToDate { .. })
    ));
    assert!(matches!(
        release_status(404, &body, "0.3.0"),
        Ok(UpdateStatus::NoReleases)
    ));
    assert!(release_status(500, &body, "0.3.0").is_err());
}

#[test]
fn silence_uses_the_field_tuned_floor() {
    assert!(levels(0.00005, 0.00001).is_silent());
    assert!(!levels(0.02, 0.005).is_silent());
}

#[test]
fn virtual_devices_are_recognised() {
    for name in [
        "VB-Audio Virtual Cable",
        "BlackHole 2ch Loopback",
        "VoiceMeeter Output",
        "Aggregate Device",
    ] {
        assert!(is_likely_virtual(name), "{name}");
    }
    assert!(!is_likely_virtual("MacBook Pro Microphone"));
    assert!(!is_likely_virtual("Shure MV7"));
}

#[test]
fn the_loudest_device_that_opened_is_chosen() {
    let devices = vec!["Virtual Cable".to_string(), "Shure MV7".to_string()];
    let order = probe_order(&devices, &None);
    assert_eq!(order[0], "Shure MV7");
    let probes = vec![
        probe_result("Shure MV7", Ok((levels(0.1, 0.01), 0.18f32.to_bits()))),
        probe_result("Virtual Cable", Err("busy".to_string())),
    ];
    assert!(!probes[1].ok);
    assert_eq!(probes[1].error.as_deref(), Some("busy"));
    assert_eq!(choose_device(&probes, &devices), "Shure MV7");
}

#[test]
fn old_recordings_go_and_recent_ones_stay() {
    let files: Vec<RecordingFile> = [10i64, 30, 20]
        .iter()
        .map(|modified| RecordingFile {
            name: format!("{modified}.wav"),
            modified: *modified,
        })
        .collect();
    assert_eq!(stale_recordings(&files, 2, 1_000, 40), vec![true, false, false]);
    assert_eq!(stale_recordings(&files, 5, 15, 40), vec![true, false, true]);
    assert_eq!(recording_name_at("20260725"), "recording-20260725.wav");
    assert!(new_recording_path().to_text().ends_with(".wav"));
}

#[test]
fn a_key_is_asked_about_and_judged() {
    assert!(matches!(
        check_key(Provider::Groq, "  "),
        KeyCheck::Settled { .. }
    ));
    match check_key(Provider::Groq, "gsk_abc") {
        KeyCheck::Ask { url, value, .. } => {
            assert!(url.starts_with("https://"));
            assert!(value.contains("gsk_abc"));
        }
        other => panic!("{other:?}"),
    }
    assert!(judge_key(Provider::Groq, &CheckReply::Status { status: 200 }).ok);
    assert!(!judge_key(Provider::Groq, &CheckReply::Status { status: 401 }).ok);
    let lost = judge_key(
        Provider::Groq,
        &CheckReply::Error {
            message: "no route".to_string(),
        },
    );
    assert!(!lost.ok && lost.message.contains("no route"));
}

#[test]
fn tidying_keeps_every_word() {
    let tidy = normalize_transcript_text("  - well ,  so\tit -- works !\n and ends . ");
    assert_eq!(tidy, "well, so it -- works! and ends");
    let letters = |text: &str| text.chars().filter(|c| !c.is_whitespace()).collect::<String>();
    assert_eq!(letters(&tidy), "well,soit--works!andends");
}
