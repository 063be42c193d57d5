use nextbase::hotkey::{
    capture_event, modifier_keys, poll, react, registration, required_modifiers_down, still_held,
    CaptureUpdate, HotkeyEvent, KeyEvent, Mods, Registration,
};
use nextbase::keys::{
    capture_press, is_standalone, key_label, modifier_labels, preview, CaptureStep, Key,
};
use nextbase::shortcut::{
    mac_key_code, mac_key_label, normalize, normalize_with, parse_with, platform_control, validate_with,
    windows_virtual_key, ShortcutError,
};

fn mods(ctrl: bool, alt: bool, shift: bool, meta: bool) -> Mods {
    Mods { ctrl, alt, shift, meta }
}

#[test]
fn same_combo_written_differently_compares_equal_on_macos() {
    assert_eq!(
        normalize_with("Cmd+Alt+S", "META"),
        normalize_with("CommandOrControl+Alt+S", "META")
    );
    assert_eq!(
        normalize_with("Ctrl+Alt+S", "CTRL"),
        normalize_with("CommandOrControl+Alt+S", "CTRL")
    );
}

#[test]
fn command_or_control_follows_the_platform() {
    assert_eq!(normalize_with("CommandOrControl+P", "META"), "META+P");
    assert_eq!(normalize_with("CommandOrControl+P", "CTRL"), "CTRL+P");
    assert_eq!(platform_control("macos"), "META");
    assert_eq!(platform_control("windows"), "CTRL");
    assert_eq!(normalize("CommandOrControl+P", "macos"), "META+P");
}

#[test]
fn ordering_and_spacing_do_not_change_identity() {
    assert_eq!(
        normalize_with("Alt+Ctrl+Space", "CTRL"),
        normalize_with("Ctrl+Alt+Space", "CTRL")
    );
    assert_eq!(
        normalize_with(" ctrl + alt + space ", "CTRL"),
        "ALT+CTRL+SPACE"
    );
}

#[test]
fn window_spellings_all_mean_meta() {
    for spelling in ["Ctrl+Window", "Ctrl+Windows", "Ctrl+Win", "Ctrl+Cmd"] {
        assert_eq!(normalize_with(spelling, "CTRL"), "CTRL+META", "{spelling}");
    }
}

#[test]
fn modifier_only_shortcuts_parse_without_a_key() {
    let parsed = parse_with("Ctrl+Window", "CTRL").unwrap();
    assert!(parsed.is_modifier_only());
    assert!(parsed.ctrl && parsed.meta);
    assert!(!parsed.alt && !parsed.shift);
}

#[test]
fn a_lone_modifier_is_rejected() {
    assert!(parse_with("Ctrl", "CTRL").is_err());
}

#[test]
fn keys_the_listener_cannot_register_are_rejected_up_front() {
    for bad in ["CommandOrControl+`", "Ctrl+Alt+~", "CommandOrControl+F30"] {
        assert!(
            validate_with(bad, "macos").is_err(),
            "{bad} must be rejected"
        );
    }
    assert!(validate_with("CommandOrControl+F30", "windows").is_err());
}

#[test]
fn supported_keys_are_accepted() {
    for good in [
        "F13",
        "CommandOrControl+Shift+P",
        "Ctrl+Alt+Space",
        "Ctrl+Window",
    ] {
        assert!(
            validate_with(good, "macos").is_ok(),
            "{good} must be accepted"
        );
    }
    for good in ["F24", "Ctrl+Alt+Space", "Ctrl+Window"] {
        assert!(
            validate_with(good, "windows").is_ok(),
            "{good} must be accepted"
        );
    }
}

#[test]
fn modifier_only_is_rejected_on_linux() {
    assert!(validate_with("Ctrl+Window", "linux").is_err());
}

#[test]
fn mac_and_windows_tables_agree_on_the_documented_ranges() {
    assert!(mac_key_code("F20").is_ok());
    assert!(mac_key_code("F21").is_err());
    assert!(windows_virtual_key("F24").is_ok());
    assert!(windows_virtual_key("F25").is_err());
}

#[test]
fn each_kind_of_shortcut_error_comes_from_its_own_input() {
    assert!(matches!(
        parse_with("Ctrl", "CTRL"),
        Err(ShortcutError::MissingKey { .. })
    ));
    assert!(matches!(
        validate_with("Ctrl+F30", "macos"),
        Err(ShortcutError::UnsupportedMacKey { .. })
    ));
    assert!(matches!(
        validate_with("Ctrl+F30", "windows"),
        Err(ShortcutError::UnsupportedWindowsKey { .. })
    ));
    assert!(matches!(
        validate_with("Ctrl+Win", "linux"),
        Err(ShortcutError::ModifierOnly { .. })
    ));
    let message = validate_with("Ctrl+F30", "macos").unwrap_err().message();
    assert!(message.contains("F30"), "{message}");
}

#[test]
fn only_f_keys_may_stand_alone() {
    assert!(is_standalone("F13"));
    assert!(is_standalone("F1"));
    assert!(!is_standalone("F25"));
    assert!(!is_standalone("A"));
    assert!(!is_standalone("Space"));
}

#[test]
fn primary_modifier_is_written_portably() {
    for os in ["linux", "macos"] {
        let labels = modifier_labels(mods(true, true, false, false), os);
        assert!(labels.contains(&"Alt".to_string()));
        assert!(
            labels.contains(&"CommandOrControl".to_string())
                || labels.contains(&"Ctrl".to_string())
        );
    }
    assert_eq!(
        modifier_labels(mods(true, false, false, true), "macos"),
        vec!["CommandOrControl".to_string(), "Ctrl".to_string()]
    );
    assert_eq!(
        modifier_labels(mods(true, false, false, true), "windows"),
        vec!["Win".to_string(), "CommandOrControl".to_string()]
    );
}

#[test]
fn key_labels_cover_the_documented_keys() {
    assert_eq!(key_label(Key::Char('a')).unwrap(), "A");
    assert_eq!(key_label(Key::Char(' ')).unwrap(), "Space");
    assert_eq!(key_label(Key::F(15)).unwrap(), "F15");
    assert!(key_label(Key::Other).is_none());
}

#[test]
fn a_press_captures_cancels_or_is_refused() {
    let none = mods(false, false, false, false);
    assert!(matches!(
        capture_press(Key::Esc, none, "linux"),
        CaptureStep::TypeInstead
    ));
    assert!(matches!(
        capture_press(Key::Char('c'), mods(true, false, false, false), "linux"),
        CaptureStep::Cancelled
    ));
    assert!(matches!(
        capture_press(Key::Other, none, "linux"),
        CaptureStep::Ignored
    ));
    match capture_press(Key::Char('k'), none, "macos") {
        CaptureStep::Refused(reason) => assert_eq!(
            reason,
            "K alone would capture every keypress. Add a modifier, or use F13-F24."
        ),
        other => panic!("{other:?}"),
    }
    match capture_press(Key::Char('k'), mods(false, true, true, false), "windows") {
        CaptureStep::Captured(combo) => assert_eq!(combo, "Alt+Shift+K"),
        other => panic!("{other:?}"),
    }
    assert_eq!(
        preview(none, "linux"),
        "hold Ctrl / Alt / Shift / Cmd, then press a key"
    );
    assert_eq!(
        preview(mods(false, true, true, false), "linux"),
        "Alt + Shift + …"
    );
}

#[test]
fn a_held_shortcut_reports_one_press_and_one_release() {
    let parsed = parse_with("Ctrl+Alt+S", "META").unwrap();
    let code = mac_key_code("S").unwrap();
    let held = mods(true, true, false, false);
    let down = react(&parsed, Some(code), false, KeyEvent::KeyDown(code, held));
    assert_eq!(down.report, Some(HotkeyEvent::Down));
    assert!(down.swallow && down.held);
    let repeat = react(&parsed, Some(code), true, KeyEvent::KeyDown(code, held));
    assert_eq!(repeat.report, None);
    assert!(repeat.held);
    let up = react(&parsed, Some(code), true, KeyEvent::KeyUp(code));
    assert_eq!(up.report, Some(HotkeyEvent::Up));
    assert!(!up.held);
    let other = react(&parsed, Some(code), false, KeyEvent::KeyUp(code + 1));
    assert_eq!(other.report, None);
    assert!(!other.swallow);
}

#[test]
fn polling_reports_the_changes_alone() {
    assert_eq!(poll(true, false), (true, Some(HotkeyEvent::Down)));
    assert_eq!(poll(true, true), (true, None));
    assert_eq!(poll(false, true), (false, Some(HotkeyEvent::Up)));
    assert_eq!(poll(false, false), (false, None));
    let parsed = parse_with("Ctrl+Win", "CTRL").unwrap();
    let all = modifier_keys();
    assert!(required_modifiers_down(&parsed, &all));
    assert!(!required_modifiers_down(&parsed, &Vec::new()));
    assert!(!still_held(&parsed, false, &Vec::new()));
}

#[test]
fn a_shortcut_is_registered_as_its_platform_does() {
    let parsed = parse_with("Ctrl+Alt+S", "CTRL").unwrap();
    assert!(registration(&parsed, "macos", false).is_err());
    assert!(matches!(
        registration(&parsed, "macos", true),
        Ok(Registration::Tap(Some(_)))
    ));
    assert!(matches!(
        registration(&parsed, "windows", true),
        Ok(Registration::Hotkey(Some(_)))
    ));
    assert!(registration(&parsed, "linux", true).is_err());
}

#[test]
fn capturing_a_combination_swallows_what_it_reports() {
    let held = mods(true, false, false, false);
    let (update, _) = capture_event(KeyEvent::FlagsChanged(held));
    assert!(matches!(update, Some(CaptureUpdate::Mods(_))));
    let (update, swallow) = capture_event(KeyEvent::KeyDown(7, held));
    assert!(matches!(update, Some(CaptureUpdate::Key { key, .. }) if key == "X"));
    assert!(swallow);
    let (update, swallow) = capture_event(KeyEvent::KeyDown(36, held));
    assert!(matches!(update, Some(CaptureUpdate::Key { key, .. }) if key == "ENTER"));
    assert!(swallow);
    let (update, swallow) = capture_event(KeyEvent::KeyDown(200, held));
    assert!(update.is_none() && swallow);
    assert!(capture_event(KeyEvent::Other).0.is_none());
}

#[test]
fn letter_case_does_not_change_identity() {
    let written = normalize("Cmd+Alt+left window", "macos");
    assert_eq!(normalize("cMD+aLT+LEFT WINDOW", "macos"), written);
    assert_eq!(written, "ALT+META+META");
    assert_eq!(normalize("ctrl+\u{e9}", "linux"), normalize("CTRL+\u{c9}", "linux"));
    assert_eq!(normalize("Ctrl+stra\u{df}e", "linux"), "CTRL+STRASSE");
}

#[test]
fn a_canonical_form_is_its_own() {
    for shortcut in ["ctrl + page down", "WinWindowsCmd+x", "+", " left  x +Option", "Space+F13+a", "\u{1f0}+\u{df} \u{e9}+alt"] {
        let once = normalize_with(shortcut, "CTRL");
        assert_eq!(normalize_with(&once, "CTRL"), once);
    }
}

#[test]
fn the_key_is_the_first_name_that_is_no_modifier() {
    let parsed = parse_with("z+shift+b+ctrl", "CTRL").unwrap();
    assert_eq!(parsed.key.as_deref(), Some("B"));
    assert!(parsed.ctrl && parsed.shift && !parsed.alt);
}

#[test]
fn a_key_code_has_the_name_it_came_from() {
    for key in ["A", "0", "SPACE", "F20", "ENTER", "ESC"] {
        assert_eq!(mac_key_label(mac_key_code(key).unwrap()), Some(key));
    }
    assert_eq!(mac_key_label(10), None);
}
