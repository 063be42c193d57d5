use nextbase::config::{Config, Provider, DEFAULT_SHORTCUT};
use nextbase::config_file::{config_text, load_config, read_config, write_config};
use nextbase::json::{parse_json, pretty_json, write_json};
use nextbase::storage::{
    delete_transcript, history_text, load_history, record, save_transcript, write_history, Transcript,
};

#[test]
fn unknown_fields_survive_a_round_trip() {
    let raw = r#"{"provider":"groq","futureSetting":{"nested":true},"keys":{"groq":"k"}}"#;
    let config = read_config(&parse_json(raw).unwrap()).unwrap();
    let written = write_json(&write_config(&config));
    assert!(
        written.contains("futureSetting"),
        "unknown settings must be preserved, got {written}"
    );
    let again = load_config(written.as_str());
    assert_eq!(again.provider, Some(Provider::Groq));
    assert_eq!(again.key_for(Provider::Groq).unwrap(), "k");
    assert_eq!(again.extra.len(), 1);
}

#[test]
fn camel_case_matches_the_typescript_file() {
    let mut config = Config::empty();
    config.polish_shortcut = Some("CommandOrControl+Shift+P".into());
    config.auto_update_interval_minutes = Some(180);
    let written = write_json(&write_config(&config));
    assert!(written.contains("polishShortcut"));
    assert!(written.contains("autoUpdateIntervalMinutes"));
}

#[test]
fn absent_settings_are_not_written_as_null() {
    let written = write_json(&write_config(&Config::empty()));
    assert_eq!(written, "{}");
}

#[test]
fn a_file_of_the_wrong_kind_starts_clean() {
    for raw in [
        "not json",
        "[]",
        r#"{"provider":"unheard-of"}"#,
        r#"{"model":5}"#,
        r#"{"audioDuckingVolume":300}"#,
        r#"{"autostart":"yes"}"#,
        r#"{"keys":{"groq":1}}"#,
    ] {
        let config = load_config(raw);
        assert_eq!(write_json(&write_config(&config)), "{}", "{raw}");
    }
    let config = load_config(r#"{"model":null,"audioDuckingVolume":35}"#);
    assert!(config.model.is_none());
    assert_eq!(config.audio_ducking_volume, Some(35));
}

#[test]
fn a_provider_is_configured_once_its_key_is_there() {
    let mut config = Config::empty();
    assert!(!config.is_configured());
    config.provider = Some(Provider::Sarvam);
    assert!(!config.is_configured());
    config.set_key(Provider::Sarvam, "");
    assert!(!config.is_configured());
    config.set_key(Provider::Sarvam, "s");
    assert!(config.is_configured());
    config.set_key(Provider::Groq, "g");
    assert_eq!(config.key_for(Provider::Sarvam).unwrap(), "s");
    assert_eq!(config.shortcut_or_default(), DEFAULT_SHORTCUT);
    for provider in Provider::all() {
        assert_eq!(Provider::parse(provider.as_str()), Ok(provider));
    }
    assert!(Provider::parse("openai").is_err());
}

fn transcript(id: &str) -> Transcript {
    Transcript {
        id: id.to_string(),
        text: format!("text of {id}"),
        created_at: "2026-07-25T10:00:00.000Z".to_string(),
        source: None,
    }
}

#[test]
fn the_history_is_bounded_and_newest_first() {
    let mut history = Vec::new();
    for index in 0..503 {
        history = record(history, transcript(&format!("t{index}")));
    }
    assert_eq!(history.len(), 500);
    assert_eq!(history[0].id, "t502");
    assert_eq!(history[499].id, "t3");
    let history = delete_transcript(history, "t400").unwrap();
    assert_eq!(history.len(), 499);
    assert!(delete_transcript(history, "t400").is_none());
}

#[test]
fn a_saved_transcript_has_an_id_and_a_moment() {
    let (history, item) = save_transcript(Vec::new(), "hello", "clip.wav");
    assert_eq!(history.len(), 1);
    assert_eq!(item.id.len(), 36);
    assert!(item.created_at.ends_with('Z'));
    let (_, other) = save_transcript(history, "hello", "clip.wav");
    assert_ne!(item.id, other.id);
}

#[test]
fn a_history_reads_back_as_it_was_written() {
    let mut with_source = transcript("b");
    with_source.source = Some("clip.wav".to_string());
    let history = vec![transcript("a"), with_source];
    let text = write_json(&write_history(&history));
    assert!(text.contains("createdAt"));
    assert!(!text.contains("null"));
    let back = load_history(text.as_str());
    assert_eq!(back.len(), 2);
    assert_eq!(back[0].id, "a");
    assert!(back[0].source.is_none());
    assert_eq!(back[1].source.as_deref(), Some("clip.wav"));
    assert!(load_history("{}").is_empty());
    assert!(load_history(r#"[{"id":"a"}]"#).is_empty());
}

#[test]
fn settings_are_read_back_out_of_their_file() {
    let raw = r#"{"zebra":[1,{"b":null,"a":true}],"model":"saaras:v3","apple":18446744073709551615}"#;
    let mut config = load_config(raw);
    config.save_key("sarvam", "a \"quoted\"\nkey\u{1}");
    config.audio_ducking_volume = Some(35);
    let text = config_text(&config);
    let again = load_config(&text);
    assert_eq!(again.model.as_deref(), Some("saaras:v3"));
    assert_eq!(again.audio_ducking_volume, Some(35));
    assert_eq!(again.key_for(Provider::Sarvam).unwrap(), "a \"quoted\"\nkey\u{1}");
    // The settings that are not known stay in their order.
    assert_eq!(again.extra[0].0, "zebra");
    assert_eq!(write_json(&again.extra[0].1), r#"[1,{"b":null,"a":true}]"#);
    assert_eq!(again.extra[1].0, "apple");
    assert_eq!(write_json(&again.extra[1].1), "18446744073709551615");
    assert_eq!(config_text(&again), text);
}

#[test]
fn a_file_is_written_for_people_to_read() {
    let mut config = Config::empty();
    assert_eq!(config_text(&config), "{}");
    config.model = Some("scribe_v2".to_string());
    config.audio_ducking = Some(true);
    config.audio_ducking_volume = Some(20);
    assert_eq!(
        config_text(&config),
        "{\n  \"model\": \"scribe_v2\",\n  \"audioDucking\": true,\n  \"audioDuckingVolume\": 20\n}"
    );
    let seconds = parse_json(r#"{"seconds":12.5,"whole":3.0,"list":[]}"#).unwrap();
    assert_eq!(
        pretty_json(&seconds),
        "{\n  \"seconds\": 12.5,\n  \"whole\": 3.0,\n  \"list\": []\n}"
    );
}

#[test]
fn a_history_is_read_back_out_of_its_file() {
    let (history, _) = save_transcript(Vec::new(), "first \u{1F600} \\ line\nbreak", "manual");
    let (mut history, _) = save_transcript(history, "second", "file.wav");
    history[0].source = None;
    let back = load_history(&history_text(&history));
    assert_eq!(back.len(), 2);
    for (a, b) in back.iter().zip(&history) {
        assert_eq!(a.id, b.id);
        assert_eq!(a.text, b.text);
        assert_eq!(a.created_at, b.created_at);
        assert_eq!(a.source, b.source);
    }
    assert_eq!(history_text(&Vec::new()), "[]");
}

#[test]
fn carried_settings_keep_numbers_of_every_kind() {
    let raw = r#"{"a":-7,"b":0.1,"c":1E5,"d":-0,"e":123456789012345678901234567890}"#;
    let config = load_config(raw);
    let text = config_text(&config);
    let again = load_config(&text);
    let kept: Vec<String> = again.extra.iter().map(|(_, value)| write_json(value)).collect();
    assert_eq!(kept, ["-7", "0.1", "1e+5", "-0", "123456789012345678901234567890"]);
    assert_eq!(config_text(&again), text);
}

#[test]
fn documents_are_read_as_deep_as_they_may_be() {
    let nested = |depth: usize| format!("{}{}", "[".repeat(depth), "]".repeat(depth));
    let deepest = nested(127);
    assert_eq!(write_json(&parse_json(&deepest).unwrap()), deepest);
    assert!(parse_json(&nested(128)).is_none());
}

#[test]
fn the_name_kept_for_numbers_is_special_at_the_start_alone() {
    let later = r#"{"a":1,"$serde_json::private::Number":"5"}"#;
    assert_eq!(write_json(&parse_json(later).unwrap()), later);
    let first = parse_json(r#"{"$serde_json::private::Number":"5"}"#).unwrap();
    assert_eq!(write_json(&first), "5");
    let twice = parse_json(r#"{"a":1,"b":2,"a":3}"#).unwrap();
    assert_eq!(write_json(&twice), r#"{"a":3,"b":2}"#);
}
