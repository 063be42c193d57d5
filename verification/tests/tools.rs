use nextbase::audio::{DeviceProbe, Levels};
use nextbase::autostart::{
    launch_agent_file, legacy_autostart_present, legacy_launch_agent_file, managed, plist, restart,
    service_text, shim, status as autostart_status, task_script, AutostartResult,
};
use nextbase::commands::{
    add, auto_select_mic, choose_provider, clip_seconds, clip_verdict, disable_polish,
    enable_polish, entered_key, given_shortcut, history, keep_transcription, microphone_choices,
    needs_polish_key, polish_action, polish_status, set_shortcut, spell_action, status,
    store_shortcut, transcribe, KeyStep, PolishAction, ShortcutKind, SpellAction,
};
use nextbase::config::{Config, Provider};
use nextbase::hotkey::HotkeyEvent;
use nextbase::listener::{
    check_recording, check_registered, check_transcript, drain_note, drains_after, job_for,
    next_action, opening_lines, plan, recording_note, registration_log, rewrite_kind, timing_note,
    Action, Job, Timing,
};
use nextbase::media::{is_supported, volume_keys, Ducking, VolumeChange, VolumeKeys};
use nextbase::moment::{elapsed_between, log_line, timestamp};
use nextbase::number::{parse_signed, parse_unsigned, to_decimal};
use nextbase::order::{drop_repeats, sort_texts};
use nextbase::overview::{meeting_overview, nextbase_overview, wisper_overview};
use nextbase::paths::{
    active_meeting_file, config_file, history_file, log_file, meeting_dir, tmp_dir,
};
use nextbase::polish::RewriteMode;
use nextbase::process_state::{
    is_listener_command, listener_is_running, other_listener_pids, read_pid, ProcessInfo,
};
use nextbase::report::{Line, Report};
use nextbase::setup::{
    choose_autostart, choose_ducking, choose_model, choose_polish, fill_defaults, find_offer,
    kept_note, setup_end, setup_steps, SetupEnd, SetupStep,
};
use nextbase::storage::Transcript;
use nextbase::text::{lines, replace, split, split_whitespace, trim};
use nextbase::time::{parse_seconds, write_seconds_text, MICROSECOND, SECOND};
use nextbase::updater::UpdateStatus;
use nextbase::upkeep::{
    autostart, autostart_action, check_autostart, check_duck_test, check_survivors, doctor,
    duck_test, ducking_disabled, media_action, media_status, permission_line,
    report_listener_start, revival, revived, set_ducking, start_route, stop, stop_managed,
    unset_ducking, update_action, update_found, MediaAction, Revival, SwitchAction, UpdateAction,
    LISTEN_REFUSAL,
};
use nextbase::verify::VerifyResult;

fn words(parts: &[&str]) -> Vec<String> {
    parts.iter().map(|part| part.to_string()).collect()
}

fn shown(report: &Report) -> String {
    report
        .lines
        .iter()
        .map(|line| match line {
            Line::Blank => String::new(),
            Line::Plain(t) => t.clone(),
            Line::Heading(t) => format!("# {t}"),
            Line::Success(t) => format!("+ {t}"),
            Line::Warn(t) => format!("! {t}"),
            Line::Failure(t) => format!("x {t}"),
            Line::Info(t) => format!("  {t}"),
            Line::Hint(t) => format!("~ {t}"),
            Line::Field(label, value) => format!("{label}: {value}"),
        })
        .collect::<Vec<_>>()
        .join("\n")
}

#[test]
fn an_empty_setup_shows_what_is_missing() {
    let text = shown(&status(&Config::empty()));
    assert!(text.starts_with("# Wisper setup\nProvider: not set"), "{text}");
    assert!(text.contains("Audio ducking: enabled at 35%"), "{text}");
    assert!(text.contains("API key: not set"));
    let overview = shown(&wisper_overview(&Config::empty()));
    assert!(overview.starts_with(&text));
    assert!(overview.ends_with("~ Full list: wisper --help"));
    assert!(shown(&nextbase_overview()).contains("~ Start here: nextbase wisper setup"));
    assert!(shown(&meeting_overview(None, 0)).contains("  No meeting in progress."));
}

#[test]
fn a_shortcut_is_checked_before_it_is_saved() {
    let mut config = Config::empty();
    assert!(store_shortcut(&mut config, ShortcutKind::Polish, "Ctrl+`", "macos").is_err());
    assert!(config.polish_shortcut.is_none());
    let report = store_shortcut(&mut config, ShortcutKind::Polish, "F16", "macos").unwrap();
    assert_eq!(config.polish_shortcut.as_deref(), Some("F16"));
    assert!(shown(&report).contains("+ polish shortcut set to F16."));
    assert_eq!(given_shortcut(&words(&["Ctrl", "Alt", "K"])).as_deref(), Some("Ctrl+Alt+K"));
    assert!(given_shortcut(&Vec::new()).is_none());
    set_shortcut(&mut config, &Vec::new(), "F15", "linux").unwrap();
    assert_eq!(config.shortcut.as_deref(), Some("F15"));
}

#[test]
fn polish_and_spell_read_their_first_word() {
    assert!(matches!(polish_action(&Vec::new()), Ok(PolishAction::Status)));
    assert!(matches!(spell_action(&Vec::new()), Ok(SpellAction::Status)));
    assert!(matches!(polish_action(&words(&["ENABLE"])), Ok(PolishAction::On)));
    assert!(matches!(polish_action(&words(&["off"])), Ok(PolishAction::Off)));
    match polish_action(&words(&["shorter", "long", "text"])) {
        Ok(PolishAction::Rewrite(mode, text)) => {
            assert_eq!(mode, RewriteMode::Shorter);
            assert_eq!(text, "long text");
        }
        other => panic!("{other:?}"),
    }
    assert!(polish_action(&words(&["shorter"])).is_err());
    assert!(matches!(
        spell_action(&words(&["shortcut", "F17"])),
        Ok(SpellAction::Shortcut(Some(_)))
    ));
    assert!(matches!(spell_action(&words(&["teh"])), Ok(SpellAction::Rewrite(_))));
    assert!(spell_action(&words(&[" "])).is_err());
    let mut config = Config::empty();
    assert!(needs_polish_key(&config));
    assert!(shown(&polish_status(&config)).contains("Groq key: not set"));
    enable_polish(&mut config);
    assert_eq!(config.auto_polish, Some(true));
    disable_polish(&mut config);
    assert_eq!(config.auto_polish, Some(false));
}

#[test]
fn only_a_key_that_verified_is_accepted() {
    let good = VerifyResult::ok("fine");
    let bad = VerifyResult::failed("refused");
    assert!(matches!(
        entered_key(Provider::Groq, "k".to_string(), &good, false),
        KeyStep::Accept(k) if k == "k"
    ));
    assert!(matches!(
        entered_key(Provider::Groq, "k".to_string(), &bad, true),
        KeyStep::AskAgain
    ));
    match entered_key(Provider::Groq, "k".to_string(), &bad, false) {
        KeyStep::Stop(reason) => {
            assert_eq!(reason, "Setup stopped: no verified key for groq.")
        }
        other => panic!("{other:?}"),
    }
    let mut config = Config::empty();
    let report = choose_provider(&mut config, Provider::ElevenLabs, "k");
    assert!(config.is_configured());
    assert_eq!(shown(&report), "+ Provider set to elevenlabs.");
}

#[test]
fn transcripts_are_listed_added_and_kept() {
    assert!(shown(&history(&Vec::new(), None)).contains("No transcripts yet."));
    assert!(add(Vec::new(), &words(&[" "])).is_err());
    let (items, _) = add(Vec::new(), &words(&["buy", "milk"])).unwrap();
    assert_eq!(items[0].text, "buy milk");
    assert!(shown(&history(&items, Some(1))).ends_with("  buy milk"));
    assert!(transcribe("a.wav", false, &Config::empty())
        .unwrap_err()
        .contains("a.wav"));
    assert_eq!(
        transcribe("a.wav", true, &Config::empty()).unwrap(),
        "Transcribing with provider..."
    );
    assert!(keep_transcription(Vec::new(), "", "a.wav").is_err());
    let (kept, report): (Vec<Transcript>, Report) =
        keep_transcription(Vec::new(), "hello", "a.wav").unwrap();
    assert_eq!(kept[0].source.as_deref(), Some("a.wav"));
    assert_eq!(shown(&report), "hello");
}

#[test]
fn a_microphone_is_chosen_by_name_or_by_ear() {
    assert!(microphone_choices(&Vec::new()).is_err());
    assert_eq!(microphone_choices(&words(&["Mic"])).unwrap()[0], "default");
    let mut config = Config::empty();
    let probes = vec![DeviceProbe {
        device: "Mic".to_string(),
        score: 0.5f32.to_bits(),
        ok: true,
        has_signal: true,
        error: None,
    }];
    let report = auto_select_mic(
        &mut config,
        &words(&["Mic"]),
        &probes,
        &words(&["0.50000"]),
        false,
    );
    assert_eq!(config.audio_device.as_deref(), Some("Mic"));
    assert!(shown(&report).contains("signal 0.50000"), "{}", shown(&report));
    assert_eq!(clip_seconds(None), 3);
    assert_eq!(clip_seconds(Some(0)), 1);
    assert_eq!(clip_seconds(Some(500)), 120);
    assert!(shown(&clip_verdict(&Levels::default())).starts_with("! Recording is silent"));
}

#[test]
fn ducking_remembers_the_volume_it_took() {
    let mut config = Config::empty();
    set_ducking(&mut config, 20);
    let mut ducking = Ducking::new();
    let lowered = ducking.start(&config, "macos", Some(80)).unwrap();
    assert_eq!(lowered, VolumeChange { from: 80, to: 20 });
    assert_eq!(volume_keys(lowered), VolumeKeys::Down(30));
    let again = ducking.start(&config, "macos", Some(20)).unwrap();
    assert_eq!(again, VolumeChange { from: 20, to: 20 });
    let restored = ducking.restore("macos").unwrap();
    assert_eq!(restored, VolumeChange { from: 20, to: 80 });
    assert_eq!(volume_keys(restored), VolumeKeys::Up(30));
    assert_eq!(ducking.restore("macos"), None);
    assert_eq!(ducking.start(&config, "linux", Some(80)), None);
    assert!(is_supported("windows") && !is_supported("linux"));
    assert_eq!(volume_keys(VolumeChange { from: 100, to: 40 }), VolumeKeys::Down(30));
    assert!(shown(&media_status(&config, Some(7), "linux")).contains("Not supported on linux."));
    assert!(matches!(media_action(&words(&["on", "200"])), Ok(MediaAction::On(100))));
    assert!(matches!(media_action(&words(&["on", "900"])), Ok(MediaAction::On(35))));
    assert!(matches!(media_action(&words(&["volume", "50"])), Ok(MediaAction::Volume(50))));
    assert!(media_action(&words(&["volume"])).is_err());
    assert!(media_action(&words(&["sideways"])).unwrap_err().contains("sideways"));
    assert!(check_duck_test("linux").is_err());
    assert!(shown(&duck_test(Some(50), Some(20), Some(40))).contains("did not return"));
    assert!(shown(&ducking_disabled(None, Some(10))).contains("volume keys"));
    unset_ducking(&mut config);
    assert_eq!(config.audio_ducking, Some(false));
}

#[test]
fn autostart_writes_what_each_platform_reads() {
    assert!(plist("/bin/wisper", "/tmp/log").contains("<string>/bin/wisper</string>"));
    assert!(shim("C:\\wisper.exe").contains("wisper.exe"));
    assert!(task_script("C:\\start.vbs").contains("start.vbs"));
    assert!(service_text("/bin/wisper").contains("/bin/wisper"));
    assert_ne!(launch_agent_file().to_text(), legacy_launch_agent_file().to_text());
    assert!(restart("macos", 501).unwrap().iter().any(|a| a.contains("501")));
    assert!(managed("macos", true) && !managed("macos", false));
    assert!(legacy_autostart_present("macos", true));
    assert!(!legacy_autostart_present("linux", true));
    let found = autostart_status("linux", "/unit", true, false);
    assert!(found.enabled);
    let mut config = Config::empty();
    autostart(&mut config, &found, false);
    assert_eq!(config.autostart, Some(true));
    assert!(matches!(autostart_action(&Vec::new()), Ok(SwitchAction::Status)));
    assert!(autostart_action(&words(&["maybe"])).is_err());
    assert!(check_autostart(true).is_err() && check_autostart(false).is_ok());
    let off = AutostartResult {
        enabled: false,
        message: "off".to_string(),
    };
    autostart(&mut config, &off, true);
    assert_eq!(config.autostart, Some(false));
}

#[test]
fn updates_are_found_and_the_listener_comes_back() {
    assert!(matches!(update_action(&words(&["on", "5"]), 60), Ok(UpdateAction::On(60))));
    assert!(matches!(update_action(&words(&["check"]), 60), Ok(UpdateAction::Check(true))));
    assert!(matches!(
        update_action(&words(&["check", "--apply"]), 60),
        Ok(UpdateAction::Check(false))
    ));
    assert!(update_action(&words(&["never"]), 60).is_err());
    let newer = UpdateStatus::Available {
        current: "0.1.0".to_string(),
        latest: "v0.2.0".to_string(),
    };
    assert!(update_found(&newer, false).1);
    assert!(!update_found(&newer, true).1);
    assert!(!update_found(&UpdateStatus::NoReleases, false).1);
    assert!(matches!(revival(true, true), Revival::Resume));
    assert!(matches!(revival(false, true), Revival::Spawn));
    assert!(matches!(revival(false, false), Revival::Nothing));
    assert!(revived(Revival::Spawn, &Ok(Some(7))).1);
    assert!(!revived(Revival::Spawn, &Err("gone".to_string())).1);
}

#[test]
fn there_is_one_listener_at_a_time() {
    assert!(check_survivors(&Vec::new(), LISTEN_REFUSAL).is_ok());
    let (report, refusal) = check_survivors(&vec![4, 5], LISTEN_REFUSAL).unwrap_err();
    assert_eq!(refusal, LISTEN_REFUSAL);
    assert!(shown(&report).contains("2 listener(s) could not be stopped: [4, 5]"));
    assert!(start_route(true, true).1 != start_route(false, false).1);
    assert!(shown(&report_listener_start(&words(&["[t] Shortcut registered: F13"])))
        .starts_with("+ Verified"));
    assert!(shown(&report_listener_start(&Vec::new())).starts_with("! "));
    assert!(shown(&stop(2, &Vec::new())).contains("Stopped 2 listener(s)."));
    assert!(shown(&stop(0, &vec![9])).starts_with("x 1 listener(s) are still running: [9]"));
    let mut config = Config::empty();
    stop_managed(&mut config);
    assert_eq!(config.autostart, Some(false));
    assert!(is_listener_command(&words(&["/usr/bin/wisper", "_listen"])));
    assert!(!is_listener_command(&words(&["/usr/bin/other", "_listen"])));
    let processes = vec![
        ProcessInfo {
            pid: 9,
            command: words(&["/opt/NextBase", "_LISTEN"]),
        },
        ProcessInfo {
            pid: 3,
            command: words(&["wisper", "_listen"]),
        },
        ProcessInfo {
            pid: 5,
            command: words(&["wisper", "status"]),
        },
    ];
    assert_eq!(other_listener_pids(&processes, 9, Some(5)), vec![3, 5]);
    assert_eq!(other_listener_pids(&processes, 9, Some(7)), vec![3]);
    assert_eq!(other_listener_pids(&processes, 3, Some(3)), vec![9]);
    assert!(listener_is_running(&processes, 3, None));
    let quiet = vec![ProcessInfo {
        pid: 5,
        command: words(&["wisper", "status"]),
    }];
    assert!(!listener_is_running(&quiet, 1, Some(7)));
    assert!(listener_is_running(&quiet, 1, Some(5)));
    assert_eq!(read_pid(" 42\n"), Some(42));
    assert_eq!(read_pid("0"), None);
    let text = shown(&doctor(&Config::empty(), &words(&["Mic"]), &vec![3, 7], "linux"));
    assert!(text.contains("Every shortcut press fires 2 times"), "{text}");
    assert!(matches!(permission_line(false), Line::Failure(_)));
}

#[test]
fn setup_asks_only_for_what_is_missing() {
    let mut config = Config::empty();
    assert_eq!(setup_steps(&config).len(), 5);
    assert_eq!(
        find_offer("Sarvam Saaras v3").unwrap(),
        (Provider::Sarvam, "saaras:v3".to_string())
    );
    assert!(find_offer("Another").is_err());
    choose_model(&mut config, Provider::Sarvam, "saaras:v3", "s");
    config.shortcut = Some("F13".to_string());
    choose_polish(&mut config, false);
    fill_defaults(&mut config);
    choose_ducking(&mut config, true);
    assert_eq!(setup_steps(&config), vec![SetupStep::Autostart]);
    choose_autostart(&mut config, true);
    assert!(setup_steps(&config).is_empty());
    assert!(kept_note(&config).unwrap().contains("model saaras:v3"));
    assert!(matches!(setup_end(true, Some(true)), SetupEnd::Legacy));
    assert!(matches!(setup_end(false, Some(true)), SetupEnd::Autostart));
    assert!(matches!(setup_end(false, None), SetupEnd::Listen));
}

#[test]
fn a_press_records_and_a_release_transcribes() {
    assert_eq!(
        job_for(ShortcutKind::Dictation, HotkeyEvent::Up),
        Some(Job::Dictation(HotkeyEvent::Up))
    );
    assert_eq!(job_for(ShortcutKind::Polish, HotkeyEvent::Up), None);
    let down = Job::Dictation(HotkeyEvent::Down);
    assert!(matches!(next_action(false, down), Action::StartRecording));
    assert!(matches!(next_action(true, down), Action::Ignore));
    let up = Job::Dictation(HotkeyEvent::Up);
    assert!(matches!(next_action(true, up), Action::FinishRecording));
    assert!(matches!(next_action(false, up), Action::Ignore));
    assert!(matches!(next_action(true, Job::PolishSelection), Action::IgnorePolish));
    assert!(matches!(next_action(true, Job::SpellFocusedInput), Action::IgnoreSpell));
    assert!(drains_after(Action::FinishRecording) && !drains_after(Action::StartRecording));
    assert!(drain_note(0).is_none());
    assert!(drain_note(3).unwrap().contains('3'));
    assert_eq!(
        rewrite_kind(Action::SpellFocusedInput),
        Some((RewriteMode::Spell, "spell-shortcut"))
    );
}

#[test]
fn shortcuts_that_clash_are_not_registered_twice() {
    let mut config = Config::empty();
    config.shortcut = Some("Ctrl+Alt+S".to_string());
    config.spell_shortcut = Some("alt + ctrl + s".to_string());
    let planned = plan(&config, "linux");
    assert_eq!(planned.len(), 3);
    assert!(planned[0].skipped.is_none());
    assert!(planned[2].skipped.as_ref().unwrap().contains("Skipped"));
    assert!(check_registered(0).is_err() && check_registered(1).is_ok());
    assert_eq!(
        registration_log(ShortcutKind::Dictation, "F13", &Ok(())),
        "Shortcut registered: F13"
    );
    assert!(registration_log(ShortcutKind::Spell, "F13", &Err("taken".to_string()))
        .contains("could not be registered"));
    assert!(opening_lines(&config, 1, false, "macos")
        .iter()
        .any(|line| line.contains("Accessibility")));
    assert!(recording_note(&None).contains("default"));
    let loud = Levels {
        peak: 0.5f32.to_bits(),
        rms: 0.1f32.to_bits(),
    };
    assert!(check_recording(499_999, &loud).unwrap_err().contains("too short"));
    assert!(check_recording(500_000, &Levels::default()).unwrap_err().contains("silent"));
    assert!(check_recording(500_000, &loud).is_ok());
    assert!(check_transcript("  ").is_err());
    assert_eq!(
        timing_note(&Timing {
            transcribe: 1,
            polish: 2,
            save: 3,
            paste: 4,
            total: 10
        }),
        "Timing: transcribe 1ms, polish 2ms, save 3ms, paste 4ms, total 10ms."
    );
}

#[test]
fn files_stand_where_they_always_stood() {
    assert_eq!(config_file().to_text(), ".wisper-cli/config.json");
    assert_eq!(history_file().to_text(), ".wisper-cli/history.json");
    assert_eq!(log_file().to_text(), ".wisper-cli/wisper.log");
    assert!(tmp_dir().to_text().starts_with(".wisper-cli/"));
    assert!(active_meeting_file().to_text().starts_with(".nextbase/"));
    assert_ne!(meeting_dir("a").to_text(), meeting_dir("b").to_text());
}

#[test]
fn moments_are_written_and_measured() {
    let stamp = timestamp();
    assert_eq!(stamp.len(), "2026-07-23T12:14:23.794Z".len());
    for (place, mark) in stamp.chars().enumerate() {
        match place {
            4 | 7 => assert_eq!(mark, '-'),
            10 => assert_eq!(mark, 'T'),
            13 | 16 => assert_eq!(mark, ':'),
            19 => assert_eq!(mark, '.'),
            23 => assert_eq!(mark, 'Z'),
            _ => assert!(mark.is_ascii_digit()),
        }
    }
    assert_eq!(log_line("t", "hello"), "[t] hello\n");
    assert_eq!(elapsed_between(Some(5_000), 9_500), 4_000 * MICROSECOND);
    assert_eq!(elapsed_between(Some(9_000), 5_000), 0);
    assert_eq!(elapsed_between(None, 5_000), 0);
}

#[test]
fn seconds_read_back_from_their_text() {
    for t in [0, 1, SECOND - 1, SECOND, 65_432_100, -5 * SECOND / 2, i128::MAX, -i128::MAX] {
        assert_eq!(parse_seconds(write_seconds_text(t).as_str()), t);
    }
    assert_eq!(write_seconds_text(-5 * SECOND / 2), "-2.5");
    assert_eq!(write_seconds_text(1), "0.000000000000000001");
    assert_eq!(parse_seconds("1.5e1"), 15 * SECOND);
    assert_eq!(parse_seconds("5.309999942779541"), 5_309_999_942_779_541_000);
    assert_eq!(parse_seconds("1e300"), i128::MAX);
    assert_eq!(parse_seconds("1e-99999999999999999999"), 0);
    assert_eq!(parse_seconds("-1e99999999999999999999"), -i128::MAX);
    assert_eq!(parse_seconds("0e99999999999999999999"), 0);
    assert_eq!(parse_seconds(&format!("1{}e-500", "0".repeat(500))), SECOND);
    assert_eq!(parse_seconds(&format!("0.{}1e501", "0".repeat(500))), SECOND);
    assert_eq!(parse_seconds("9e-19"), 0);
}

#[test]
fn numbers_and_texts_follow_their_rules() {
    assert_eq!(to_decimal(1_050), "1050");
    assert_eq!(parse_unsigned("+42", 255), Some(42));
    assert_eq!(parse_unsigned("256", 255), None);
    assert_eq!(parse_unsigned("4x", 255), None);
    assert_eq!(parse_signed("-9223372036854775808"), Some(i64::MIN));
    assert_eq!(sort_texts(&words(&["b", "a", "b"])), words(&["a", "b", "b"]));
    assert_eq!(drop_repeats(&words(&["a", "a", "b"])), words(&["a", "b"]));
    assert_eq!(trim("\u{a0} padded\t\n"), "padded");
    assert_eq!(split("a,,b", ','), words(&["a", "", "b"]));
    assert_eq!(split_whitespace("  a \n b"), words(&["a", "b"]));
    assert_eq!(replace("aXbX", "X", "--"), "a--b--");
    assert_eq!(lines("one\r\ntwo\n"), words(&["one", "two"]));
}
