use nextbase::capture::{SourceKind, SourceProbe, SystemAudioStatus};
use nextbase::audio::Levels;
use nextbase::config::{Config, Provider};
use nextbase::dashboard::{
    address, approve_meeting, dashboard_url, deleted_status, import_audio, is_dashboard,
    is_old_upload, ok, problem, query_name, read_source, refuse_import, safe_file_name,
    set_meeting_model, set_wisper_model, start_meeting, upload_audio, UPLOAD_AGE,
};
use nextbase::import::{imported, Conversion};
use nextbase::json::{array, parse_json, write_json, Json};
use nextbase::meeting_cli::{
    approve, ask_for_mode, check_start, choose_route, completed_report, confirm_upload,
    default_mode, mark_awaiting, mark_done, mark_retry, mark_transcribing, mode_choices, reject,
    remember_consent, report_sources, show_sample, start_progress, stop_report,
    warn_about_capture_gaps, Approval, Consent, Route, StartProgress,
};
use nextbase::meeting_desk::{
    check_import, choose_pickup, gate, gate_action, history_line, idle_report, import_source,
    imported_meeting, imported_note, key_report, meeting_settings, newest_first, note_title_of,
    pickup_note, recovered_meeting, report_probe, save_meeting_key, status, system_verdict,
    unfinished_count, Pickup, Remains,
};
use nextbase::page::{
    history_document, idle_document, meeting_document, meeting_setup, state_document, Measured,
    MeetingModel, PastMeeting,
};
use nextbase::pipeline::MeetingEntry;
use nextbase::report::{Line, Report};
use nextbase::sarvam_batch::Mode;
use nextbase::state::{ActiveMeeting, Phase, SampleCandidate, SampleReport, SourceLevel};
use nextbase::storage::Transcript;
use nextbase::summary::Analysis;
use nextbase::time::SECOND;
use nextbase::upkeep::SwitchAction;

fn meeting(phase: Phase) -> ActiveMeeting {
    let mut m = ActiveMeeting::started("meeting-1", "2026-07-25T10:00:00+00:00".to_string());
    m.phase = phase;
    m
}

fn words(parts: &[&str]) -> Vec<String> {
    parts.iter().map(|part| part.to_string()).collect()
}

fn shown(report: &Report) -> String {
    format!("{:?}", report.lines)
}

fn ready() -> Config {
    let mut config = Config::empty();
    config.set_key(Provider::Sarvam, "s");
    config.meeting_consent = Some(true);
    config
}

fn sample() -> SampleReport {
    let candidate = SampleCandidate {
        mode: Mode::Transcribe,
        text: (0..14).map(|i| format!("line {i}")).collect::<Vec<_>>().join("\n"),
        elapsed: 12 * SECOND,
        segment_count: 4,
        speaker_labels: 2,
        overlapping_segments: 1,
        detected_language: None,
        covered: None,
        sample_length: 180 * SECOND,
        error: None,
    };
    let mut failed = candidate.clone();
    failed.mode = Mode::Codemix;
    failed.error = Some("no credit".to_string());
    SampleReport {
        window_start: 60 * SECOND,
        window_length: 180 * SECOND,
        window_rms: "0.0049".to_string(),
        candidates: vec![candidate, failed],
    }
}

#[test]
fn a_meeting_in_the_way_stops_a_new_one() {
    assert!(check_start(None).is_ok());
    assert!(check_start(Some(&meeting(Phase::Done))).is_ok());
    for (phase, word) in [
        (Phase::Recording, "nbmeet stop"),
        (Phase::AwaitingApproval, "nbmeet approve"),
        (Phase::Recorded, "nbmeet process"),
    ] {
        let error = check_start(Some(&meeting(phase))).unwrap_err();
        assert!(error.contains(word), "{error}");
    }
    assert!(matches!(start_progress(Some(&meeting(Phase::Recording))), StartProgress::Recording));
    assert!(matches!(start_progress(None), StartProgress::Waiting));
    let mut failed = meeting(Phase::Failed);
    failed.error = Some("no device".to_string());
    assert!(matches!(start_progress(Some(&failed)), StartProgress::Failed(e)
        if e == "The recorder could not start: no device"));
}

#[test]
fn nothing_is_uploaded_without_consent() {
    let mut config = Config::empty();
    assert!(matches!(confirm_upload(&config, false, true), Consent::Ask));
    assert!(matches!(confirm_upload(&config, false, false), Consent::Refused(_)));
    assert!(matches!(confirm_upload(&config, true, false), Consent::GivenNow));
    remember_consent(&mut config);
    assert!(matches!(confirm_upload(&config, false, false), Consent::Given));

    let mut asked = ready();
    asked.meeting_consent = None;
    let refusal = start_meeting(&asked, None).unwrap();
    assert_eq!(refusal.status, 400);
    assert!(start_meeting(&ready(), None).is_none());
    assert_eq!(start_meeting(&ready(), Some(&meeting(Phase::Recording))).unwrap().status, 409);
    assert_eq!(refuse_import(&asked, None).unwrap().status, 400);
    assert_eq!(refuse_import(&ready(), Some(&meeting(Phase::Sampling))).unwrap().status, 409);
    assert!(import_audio("https://e.com/a.mp3", false, &ready(), None).is_none());
    assert_eq!(import_audio("/nowhere", false, &ready(), None).unwrap().status, 400);
    assert_eq!(upload_audio(12, &ready(), None).unwrap().status, 400);
    assert!(upload_audio(4096, &ready(), None).is_none());
}

#[test]
fn missing_sources_are_said_up_front() {
    let mut config = Config::empty();
    let missing = SystemAudioStatus::Unavailable {
        reason: "no display".to_string(),
    };
    assert!(shown(&warn_about_capture_gaps(&config, &missing)).contains("no display"));
    assert!(warn_about_capture_gaps(&config, &SystemAudioStatus::Ready).lines.is_empty());
    config.meeting_system = Some(false);
    assert!(shown(&warn_about_capture_gaps(&config, &missing)).contains("System audio is off"));
    assert!(shown(&report_sources(&Config::empty(), &None)).contains("only your side"));
    assert!(system_verdict(&config, &missing).is_some());
}

#[test]
fn stopping_reports_silence_and_mis_starts() {
    let mut m = meeting(Phase::Recorded);
    m.duration = Some(4 * SECOND);
    m.source_levels = vec![SourceLevel {
        source: "microphone".to_string(),
        peak: "0".to_string(),
        rms: "0".to_string(),
        silent: true,
    }];
    let (report, goes_on) = stop_report(&m, &words(&["0.000"]));
    assert!(!goes_on);
    assert!(shown(&report).contains("microphone was silent"));
    m.duration = Some(5 * SECOND);
    assert!(stop_report(&m, &words(&["0.000"])).1);
}

#[test]
fn the_sample_decides_before_the_full_run() {
    let mut config = Config::empty();
    assert!(matches!(choose_route(&meeting(Phase::Recorded), &config).0, Route::Gate));
    config.meeting_gate = Some(false);
    config.meeting_mode = Some("codemix".to_string());
    assert_eq!(default_mode(&config), Mode::Codemix);
    assert!(matches!(
        choose_route(&meeting(Phase::Recorded), &config).0,
        Route::Direct(Mode::Codemix)
    ));
    let mut blocked = meeting(Phase::Recorded);
    blocked.gate_blocked = Some("no converter".to_string());
    assert!(matches!(choose_route(&blocked, &Config::empty()).0, Route::Blocked(Mode::Transcribe)));

    let text = shown(&show_sample(&sample(), "0.0049"));
    assert!(text.contains("nearly silent"), "{text}");
    assert!(text.contains("... and 2 more line(s)"), "{text}");
    assert!(text.contains("no credit"));
    let mut loud = sample();
    loud.window_rms = "0.005".to_string();
    assert!(!shown(&show_sample(&loud, "0.0050")).contains("nearly silent"));

    let choices = mode_choices(&sample()).unwrap();
    assert_eq!(choices.modes, vec![Mode::Transcribe]);
    assert_eq!(ask_for_mode(&choices, 0), Some(Mode::Transcribe));
    assert_eq!(ask_for_mode(&choices, 1), None);
    let mut none = sample();
    none.candidates[0].error = Some("late".to_string());
    assert!(mode_choices(&none).is_err());
}

#[test]
fn approval_and_rejection_need_a_waiting_sample() {
    assert!(approve(None, &None, true).is_err());
    assert!(approve(Some(&meeting(Phase::Recorded)), &None, true).is_err());
    let mut waiting = meeting(Phase::AwaitingApproval);
    assert!(matches!(
        approve(Some(&waiting), &Some("Codemix".to_string()), false),
        Ok(Approval::Mode(Mode::Codemix))
    ));
    assert!(approve(Some(&waiting), &Some("loud".to_string()), false).is_err());
    assert!(approve(Some(&waiting), &None, true).is_err());
    waiting.sample = Some(sample());
    assert!(approve(Some(&waiting), &None, false).is_err());
    assert!(matches!(approve(Some(&waiting), &None, true), Ok(Approval::Ask)));
    assert!(reject(&mut waiting).is_ok());
    assert_eq!(waiting.phase, Phase::Recorded);
    assert!(waiting.sample.is_none());
    assert!(reject(&mut waiting).is_err());
    assert_eq!(approve_meeting(None, "transcribe").unwrap_err().status, 404);
    assert_eq!(approve_meeting(Some(&waiting), "transcribe").unwrap_err().status, 409);
    let again = meeting(Phase::AwaitingApproval);
    assert_eq!(approve_meeting(Some(&again), "loud").unwrap_err().status, 400);
    assert_eq!(approve_meeting(Some(&again), "codemix").unwrap(), Mode::Codemix);
}

#[test]
fn a_failed_run_can_be_tried_again() {
    let mut m = meeting(Phase::Transcribing);
    m.audio_path = Some("/m/audio.wav".to_string());
    mark_retry(&mut m, "no credit".to_string());
    assert_eq!(m.phase, Phase::Recorded);
    assert_eq!(m.error.as_deref(), Some("no credit"));
    assert_eq!(m.audio_path.as_deref(), Some("/m/audio.wav"));
    mark_awaiting(&mut m, sample());
    assert_eq!(m.phase, Phase::AwaitingApproval);
    assert!(m.error.is_none());
    mark_transcribing(&mut m, Mode::Codemix);
    assert_eq!(m.approved_mode, Some(Mode::Codemix));
    mark_done(&mut m, Mode::Codemix);
    assert_eq!(m.phase, Phase::Done);
    let empty = Analysis {
        title: "Weekly".to_string(),
        summary: String::new(),
        decisions: words(&["Ship"]),
        action_items: Vec::new(),
        blockers: Vec::new(),
        open_questions: Vec::new(),
        language: "mixed".to_string(),
    };
    let text = shown(&completed_report(true, Some(&empty), &words(&["/m/meeting-note.md"])));
    assert!(text.contains("partly completed") && text.contains("Weekly"), "{text}");
    assert!(shown(&completed_report(false, None, &Vec::new())).contains("No summary"));
}

#[test]
fn a_meeting_is_shown_as_it_stands() {
    assert!(shown(&idle_report(2)).contains("2 recorded meeting(s)"));
    let mut m = meeting(Phase::Recording);
    m.duration = Some(65 * SECOND);
    let text = shown(&status(&m, 5 * SECOND, None, &Vec::new()));
    assert!(text.contains("0:05") && text.contains("1:05"), "{text}");
    let entries = vec![MeetingEntry {
        id: "meeting-9".to_string(),
        has_audio: true,
        has_note: false,
    }];
    assert_eq!(unfinished_count(&entries, None), 1);
}

#[test]
fn audio_that_exists_already_becomes_a_meeting() {
    assert!(import_source(&Vec::new()).is_err());
    assert_eq!(import_source(&words(&[" my", "talk.wav "])).unwrap(), "my talk.wav");
    assert!(check_import(None).is_ok());
    assert!(check_import(Some(&meeting(Phase::Sampling))).is_err());
    let parts = imported("/m/audio.mp3".to_string(), true, Conversion::NoConverter);
    let m = imported_meeting("meeting-7", "now".to_string(), &parts, Some(61 * SECOND));
    assert_eq!(m.phase, Phase::Recorded);
    assert!(m.imported && m.gate_blocked.is_some());
    assert_eq!(imported_note("/m/audio.mp3", Some(61 * SECOND)), "Imported /m/audio.mp3 (1:01).");
}

#[test]
fn an_unfinished_meeting_is_picked_up() {
    let recorded = meeting(Phase::Recorded);
    assert!(matches!(choose_pickup(Some(&recorded), &None, &Vec::new()), Ok(Pickup::Active)));
    let waiting = meeting(Phase::AwaitingApproval);
    assert!(matches!(choose_pickup(Some(&waiting), &None, &Vec::new()), Ok(Pickup::Approve)));
    assert!(matches!(
        choose_pickup(Some(&recorded), &Some("meeting-3".to_string()), &Vec::new()),
        Ok(Pickup::Recover(id)) if id == "meeting-3"
    ));
    assert!(choose_pickup(None, &None, &Vec::new()).is_err());
    let remains = Remains {
        id: "meeting-3".to_string(),
        audio: "/m/audio.wav".to_string(),
        length: Some(61 * SECOND),
        sample_source: None,
    };
    let archived = meeting(Phase::Failed);
    let m = recovered_meeting(&remains, "now".to_string(), Some(archived));
    assert_eq!(m.started_at, "2026-07-25T10:00:00+00:00");
    assert_eq!(m.phase, Phase::Recorded);
    assert_eq!(recovered_meeting(&remains, "now".to_string(), None).started_at, "now");
    assert_eq!(
        pickup_note("meeting-3", Some(61 * SECOND)),
        "Picking up meeting-3 (1:01 of audio)."
    );
}

#[test]
fn past_meetings_are_listed_by_their_titles() {
    assert_eq!(note_title_of("## Weekly sync\nmore").as_deref(), Some("Weekly sync"));
    assert_eq!(note_title_of(""), None);
    assert_eq!(history_line("m", &None, true), "m  recorded, not transcribed");
    assert_eq!(history_line("m", &None, false), "m  no notes");
    assert_eq!(newest_first(&words(&["a", "c", "b"]), 2), words(&["c", "b"]));
}

#[test]
fn the_gate_can_be_switched() {
    let mut config = Config::empty();
    assert!(matches!(gate_action(&words(&["off"])), Ok(SwitchAction::Off)));
    assert!(gate_action(&words(&["ajar"])).is_err());
    assert!(shown(&gate(&mut config, SwitchAction::Off)).contains("unchecked"));
    assert_eq!(config.meeting_gate, Some(false));
    gate(&mut config, SwitchAction::On);
    assert!(config.meeting_gate_enabled());
    save_meeting_key(&mut config, "s");
    assert_eq!(config.model.as_deref(), Some("saaras:v3"));
    assert!(shown(&key_report(&config)).contains("Sarvam: saved"));
    assert!(shown(&meeting_settings(&config, "/meetings")).contains("/meetings"));
    let probe = SourceProbe {
        kind: SourceKind::Mic,
        source: None,
        opened: false,
        levels: Levels::default(),
        error: Some("busy".to_string()),
    };
    assert!(matches!(report_probe(&probe, "0.000"), Line::Failure(text) if text.contains("busy")));
}

#[test]
fn an_uploaded_name_stays_in_its_directory() {
    assert_eq!(safe_file_name("../../etc/pass wd.wav"), "pass-wd.wav");
    assert_eq!(safe_file_name("..\\..\\boot.ini"), "boot.ini");
    assert_eq!(safe_file_name("..."), "upload.wav");
    for raw in ["../../etc/pass wd.wav", "-.a b.-", "...", "x/", "talk.wav"] {
        let name = safe_file_name(raw);
        assert!(!name.starts_with(['.', '-']) && !name.ends_with(['.', '-']), "{name}");
        assert_eq!(safe_file_name(&name), name);
    }
    assert_eq!(
        query_name(&Some("a=1&name=my%20talk+one.wav".to_string())).as_deref(),
        Some("my talk one.wav")
    );
    assert_eq!(query_name(&None), None);
    assert!(is_old_upload(Some(UPLOAD_AGE + 1)) && !is_old_upload(Some(UPLOAD_AGE)));
    assert!(!is_old_upload(None));
}

#[test]
fn the_dashboard_listens_on_the_loopback_alone() {
    assert_eq!(address(None), "127.0.0.1:3838");
    assert_eq!(dashboard_url("127.0.0.1:99"), "http://127.0.0.1:99");
    assert!(is_dashboard("HTTP/1.1 200 OK\r\n\r\n{\"active\":false}"));
    assert!(!is_dashboard("HTTP/1.1 200 OK\r\n\r\nhello"));
    assert_eq!(deleted_status(true), 204);
    assert_eq!(deleted_status(false), 404);
    assert_eq!(ok(Json::Null).status, 200);
    assert_eq!(write_json(&problem(400, "no").body), r#"{"error":"no"}"#);
    assert!(read_source(&parse_json(r#"{"source":"  "}"#).unwrap()).is_err());
    assert_eq!(
        read_source(&parse_json(r#"{"source":" a.wav "}"#).unwrap()).unwrap(),
        "a.wav"
    );
}

#[test]
fn models_are_changed_from_the_page() {
    let mut config = Config::empty();
    let models = words(&["saaras:v3"]);
    let summaries = words(&["llama"]);
    let refused = set_meeting_model(&mut config, &parse_json("{}").unwrap(), &models, &summaries);
    assert_eq!(refused.unwrap().status, 400);
    let refused = set_meeting_model(
        &mut config,
        &parse_json(r#"{"model":"other"}"#).unwrap(),
        &models,
        &summaries,
    );
    assert_eq!(refused.unwrap().status, 400);
    assert!(config.meeting_model.is_none());
    let accepted = set_meeting_model(
        &mut config,
        &parse_json(r#"{"model":"saaras:v3","mode":"codemix"}"#).unwrap(),
        &models,
        &summaries,
    );
    assert!(accepted.is_none());
    assert_eq!(config.meeting_mode.as_deref(), Some("codemix"));

    let wanted = parse_json(r#"{"model":"scribe_v2"}"#).unwrap();
    assert_eq!(set_wisper_model(&mut config, &wanted).status, 400);
    assert!(config.provider.is_none());
    config.set_key(Provider::ElevenLabs, "e");
    assert_eq!(set_wisper_model(&mut config, &wanted).status, 200);
    assert_eq!(config.provider, Some(Provider::ElevenLabs));
}

#[test]
fn the_page_is_told_what_it_shows() {
    let mut config = ready();
    config.provider = Some(Provider::Sarvam);
    let history = vec![Transcript {
        id: "a".to_string(),
        text: "hello".to_string(),
        created_at: "t".to_string(),
        source: None,
    }];
    let state = state_document(&config, 2, &history);
    let setup = state.get("setup").unwrap();
    assert_eq!(setup.text_at("provider").unwrap(), "sarvam");
    assert!(matches!(setup.get("model"), Some(Json::Null)));
    let offered = state.array_at("models").unwrap();
    assert_eq!(offered.len(), 4);
    assert!(matches!(offered[2].get("hasKey"), Some(Json::Bool(true))));
    assert!(matches!(offered[0].get("hasKey"), Some(Json::Bool(false))));
    assert!(matches!(state.get("listeners"), Some(Json::Number(n)) if n == "2"));

    let models = vec![MeetingModel {
        label: "Saaras".to_string(),
        model: "saaras:v3".to_string(),
        supports_mode: true,
    }];
    let setup = meeting_setup(&config, &models, &words(&["llama"]));
    assert!(matches!(setup.get("gate"), Some(Json::Bool(true))));
    let idle = idle_document(1, meeting_setup(&config, &models, &words(&["llama"])));
    assert!(matches!(idle.get("active"), Some(Json::Bool(false))));
    let mut m = meeting(Phase::Recording);
    m.duration = Some(3 * SECOND / 2);
    let page = meeting_document(
        &m,
        Measured {
            elapsed: 2 * SECOND,
            on_disk: None,
            levels: array(Vec::new()),
            sample: Json::Null,
            progress: Some("Polling".to_string()),
            progress_age: Some(SECOND / 2),
        },
        0,
        setup,
    );
    assert!(matches!(page.get("recordedSeconds"), Some(Json::Number(n)) if n == "1.5"));
    assert!(matches!(page.get("onDiskSeconds"), Some(Json::Null)));
    assert!(matches!(page.get("progress"), Some(Json::Text(t)) if t == "Polling"));
    assert!(matches!(page.get("progressAgeSeconds"), Some(Json::Number(n)) if n == "0.5"));
    assert!(matches!(page.get("capturing"), Some(Json::Bool(true))));

    let past = history_document(&vec![PastMeeting {
        id: "m".to_string(),
        transcribed: true,
        note: Some("# Title\n".to_string()),
        directory: "/m".to_string(),
        length: Some(3 * SECOND),
    }]);
    assert!(write_json(&past).contains(r#""title":"Title""#));
}
