use nextbase::import::{
    choose_extension, converter_error, download_name, extension_for_content_type, extension_note,
    imported, is_remote, is_supported_extension, local_name, local_path, missing_file, refuse_body,
    refuse_download, sliceable, Conversion,
};

#[test]
fn remote_sources_are_recognised_by_scheme() {
    assert!(is_remote("https://example.com/a.mp3"));
    assert!(is_remote("HTTP://example.com/a.wav"));
    assert!(!is_remote("/Users/me/meeting.m4a"));
    assert!(!is_remote("file:///Users/me/meeting.wav"));
    assert!(!is_remote("~/recording.wav"));
}

#[test]
fn content_types_map_to_the_extensions_sarvam_accepts() {
    assert_eq!(
        extension_for_content_type("audio/mpeg").as_deref(),
        Some("mp3")
    );
    assert_eq!(
        extension_for_content_type("audio/wav; charset=binary").as_deref(),
        Some("wav")
    );
    assert_eq!(
        extension_for_content_type("audio/x-m4a").as_deref(),
        Some("m4a")
    );
    assert_eq!(extension_for_content_type("application/octet-stream"), None);
    assert_eq!(extension_for_content_type("text/html"), None);
}

#[test]
fn every_mapped_extension_is_one_the_provider_accepts() {
    for content_type in [
        "audio/wav",
        "audio/mpeg",
        "audio/mp4",
        "audio/aac",
        "audio/ogg",
        "audio/opus",
        "audio/flac",
        "audio/webm",
        "video/mp4",
    ] {
        let extension = extension_for_content_type(content_type).expect(content_type);
        assert!(
            is_supported_extension(extension.as_str()),
            "{content_type} -> {extension}"
        );
    }
}

#[test]
fn a_missing_local_file_is_reported_by_path() {
    let error = missing_file("/definitely/not/here.wav");
    assert!(error.contains("not found"), "{error}");
    assert!(error.contains("/definitely/not/here.wav"), "{error}");
}

#[test]
fn a_local_file_is_copied_with_its_extension_kept() {
    assert_eq!(local_name("/tmp/nextbase-import/original.m4a", "linux"), "audio.m4a");
}

#[test]
fn a_file_url_is_treated_as_a_local_path() {
    let path = local_path("file:///tmp/nextbase-import-url/clip.wav");
    assert_eq!(path, "/tmp/nextbase-import-url/clip.wav");
    assert_eq!(local_name(path.as_str(), "linux"), "audio.wav");
}

#[test]
fn a_local_file_is_named_by_the_paths_of_the_platform() {
    assert_eq!(local_name("C:\\talks.d\\one.M4A", "windows"), "audio.m4a");
    assert_eq!(local_name("C:\\talks.d\\one", "windows"), "audio.wav");
    assert_eq!(local_name("C:\\talks.d\\one", "linux"), "audio.d\\one");
}

#[test]
fn a_download_is_named_by_its_url_or_its_type() {
    assert_eq!(
        download_name("https://example.com/talks/one.MP3?sig=a.wav", &None, "linux").unwrap(),
        "audio.mp3"
    );
    assert_eq!(
        download_name("https://example.com/stream", &Some("audio/flac".to_string()), "linux").unwrap(),
        "audio.flac"
    );
    assert!(download_name("https://", &None, "linux").is_err());
    assert_eq!(choose_extension("/stream", &None, "linux"), "wav");
    let flac = Some("audio/flac".to_string());
    assert_eq!(choose_extension("//server/share.mp3", &flac, "windows"), "flac");
    assert_eq!(choose_extension("//server/share.mp3", &flac, "linux"), "mp3");
}

#[test]
fn a_refused_download_says_why() {
    assert!(refuse_download("https://e.com/a.mp3", 404, None)
        .unwrap()
        .contains("404"));
    assert!(refuse_download("https://e.com/a.mp3", 200, Some(5_000_000_000)).is_some());
    assert!(refuse_download("https://e.com/a.mp3", 200, Some(5_000)).is_none());
    assert!(refuse_body(12).is_some());
    assert!(refuse_body(4096).is_none());
    assert!(extension_note("/tmp/a.xyz", "linux").is_some());
    assert!(extension_note("/tmp/a.mp3", "linux").is_none());
    assert!(extension_note("C:\\a.xyz\\b", "windows").is_none());
}

#[test]
fn what_the_converter_left_decides_whether_a_sample_can_be_cut() {
    let whole = imported("a.wav".to_string(), false, Conversion::NotNeeded);
    assert_eq!(whole.audio, "a.wav");
    assert!(whole.sampleable.is_none());
    assert!(whole.gate_blocked.is_none() && !whole.downloaded);
    let made = imported(
        "a.mp3".to_string(),
        true,
        Conversion::Made {
            path: "sample-source.wav".to_string(),
        },
    );
    assert_eq!(made.sampleable.as_deref(), Some("sample-source.wav"));
    assert!(made.downloaded);
    let without = imported("a.mp3".to_string(), false, Conversion::NoConverter);
    assert!(without.sampleable.is_none() && without.gate_blocked.is_some());
    let failed = imported(
        "a.mp3".to_string(),
        false,
        Conversion::Failed {
            error: "no stream".to_string(),
        },
    );
    assert!(failed.gate_blocked.unwrap().contains("no stream"));
    assert!(converter_error("first\nlast line \n").contains("last line"));
    assert!(!sliceable("a.wav", b"not really audio", "linux"));
    assert!(!sliceable("a.mp3", b"not really audio", "linux"));
}

#[test]
fn case_spacing_and_parameters_of_a_type_do_not_matter() {
    for written in ["audio/mpeg", " AUDIO/MPEG ", "Audio/Mpeg; charset=binary", "\taudio/mpeg;x;y"] {
        assert_eq!(extension_for_content_type(written).as_deref(), Some("mp3"), "{written}");
    }
}
