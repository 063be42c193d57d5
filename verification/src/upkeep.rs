//! Keeping dictation running: audio ducking, autostart, updates, the background listener,
//! and finding out why it does not work.
use vstd::prelude::*;
use crate::audio::{is_likely_virtual, is_virtual};
use crate::autostart::AutostartResult;
use crate::commands::{
    RESTART_HINT, action_of, enabled_text, enabled_word, is_off, is_on, means_off, means_on,
    read_action,
};
use crate::config::{
    Config, DEFAULT_DUCKING_VOLUME, DEFAULT_POLISH_SHORTCUT, DEFAULT_SHORTCUT,
    DEFAULT_SPELL_SHORTCUT, DEFAULT_UPDATE_INTERVAL_MINUTES, setting_or,
};
use crate::media::{has_volume_control, is_supported};
use crate::number::{decimal, decimal_is_number, parse_unsigned, parsed, to_decimal};
use crate::report::{Line, LineView, Report, line_if};
use crate::shortcut::{
    ShortcutError, control_of, is_refusal, is_valid, normal_form, normalize, validate_with,
};
use crate::text::{
    contains, has, join, join_texts, joining_keeps_every_part, list_has, part_of_a_part, same,
    stands_inside, texts, texts_of_push,
};
use crate::updater::UpdateStatus;

verus! {

/// How long a permission dialog is watched, in seconds.
pub const PERMISSION_TIMEOUT: u64 = 60;

/// After how long the settings are opened for a dialog that may have been dismissed, in
/// seconds.
pub const PERMISSION_PATIENCE: u64 = 8;

broadcast use texts_of_push;

// --------------------------------------------------------------------------- media

/// What a media command asks for.
#[derive(Debug, Clone, Copy, PartialEq, Eq, Structural)]
pub enum MediaAction {
    Status,
    /// Ducking on, at a volume.
    On(u8),
    Off,
    Volume(u8),
    Test,
}

/// The volume in an argument, never above all.
pub open spec fn volume_of(argument: Option<Seq<char>>) -> Option<u8> {
    match argument {
        Some(t) => match parsed(t, u8::MAX as nat) {
            Some(n) => Some(
                if n > 100 {
                    100
                } else {
                    n as u8
                },
            ),
            None => None,
        },
        None => None,
    }
}

pub open spec fn second(args: Seq<Seq<char>>) -> Option<Seq<char>> {
    if args.len() > 1 {
        Some(args[1])
    } else {
        None
    }
}

fn read_volume(args: &Vec<String>) -> (r: Option<u8>)
    ensures
        r == volume_of(second(texts(args@))),
{
    if args.len() < 2 {
        return None;
    }
    assert(texts(args@)[1] == args@[1]@);
    match parse_unsigned(args[1].as_str(), 255) {
        Some(n) => Some(
            if n > 100 {
                100
            } else {
                n as u8
            },
        ),
        None => None,
    }
}

pub open spec fn is_media_action(
    r: Result<MediaAction, String>,
    action: Seq<char>,
    args: Seq<Seq<char>>,
) -> bool {
    let volume = volume_of(second(args));
    if action == "status"@ {
        r == Ok::<MediaAction, String>(MediaAction::Status)
    } else if means_on(action) {
        r == Ok::<MediaAction, String>(
            MediaAction::On(
                match volume {
                    Some(v) => v,
                    None => DEFAULT_DUCKING_VOLUME,
                },
            ),
        )
    } else if means_off(action) {
        r == Ok::<MediaAction, String>(MediaAction::Off)
    } else if action == "volume"@ {
        match volume {
            Some(v) => r == Ok::<MediaAction, String>(MediaAction::Volume(v)),
            None => r is Err && r->Err_0@ == "Usage: wisper media volume <0-100>"@,
        }
    } else if action == "test"@ {
        r == Ok::<MediaAction, String>(MediaAction::Test)
    } else {
        r is Err && r->Err_0@
            == "Usage: wisper media on|off|status|volume <0-100>|test (got \""@ + action + "\")"@
    }
}

proof fn actions_differ()
    ensures
        !means_on("status"@) && !means_off("status"@),
        !means_on("volume"@) && !means_off("volume"@),
        !means_on("test"@) && !means_off("test"@),
        !means_on("check"@) && !means_off("check"@),
        forall|s: Seq<char>| !(#[trigger] means_on(s) && means_off(s)),
        "status"@ != "volume"@ && "status"@ != "test"@ && "status"@ != "check"@ && "volume"@
            != "test"@,
{
    reveal_strlit("status");
    reveal_strlit("volume");
    reveal_strlit("test");
    reveal_strlit("check");
    reveal_strlit("on");
    reveal_strlit("off");
    reveal_strlit("enable");
    reveal_strlit("enabled");
    reveal_strlit("disable");
    reveal_strlit("disabled");
    assert("status"@[0] == 's' && "volume"@[0] == 'v' && "test"@[0] == 't' && "check"@[0] == 'c'
        && "on"@[0] == 'o' && "off"@[0] == 'o' && "enable"@[0] == 'e' && "enabled"@[0] == 'e'
        && "disable"@[0] == 'd' && "disabled"@[0] == 'd');
    assert("on"@.len() == 2 && "off"@.len() == 3);
}

/// What the arguments of a media command ask for, given the first of them in lower case.
pub fn media_action_of(action: &str, args: &Vec<String>) -> (r: Result<MediaAction, String>)
    ensures
        is_media_action(r, action@, texts(args@)),
{
    proof {
        actions_differ();
    }
    if same(action, "status") {
        return Ok(MediaAction::Status);
    }
    if is_on(action) {
        return Ok(
            MediaAction::On(
                match read_volume(args) {
                    Some(v) => v,
                    None => DEFAULT_DUCKING_VOLUME,
                },
            ),
        );
    }
    if is_off(action) {
        return Ok(MediaAction::Off);
    }
    if same(action, "volume") {
        return match read_volume(args) {
            Some(v) => Ok(MediaAction::Volume(v)),
            None => Err("Usage: wisper media volume <0-100>".to_owned()),
        };
    }
    if same(action, "test") {
        return Ok(MediaAction::Test);
    }
    Err(
        "Usage: wisper media on|off|status|volume <0-100>|test (got \"".to_owned().concat(
            action,
        ).concat("\")"),
    )
}

pub fn media_action(args: &Vec<String>) -> (r: Result<MediaAction, String>)
    ensures
        is_media_action(r, action_of(texts(args@), "status"@), texts(args@)),
{
    media_action_of(read_action(args, "status").as_str(), args)
}

pub open spec fn percent_text(volume: u8) -> Seq<char> {
    decimal(volume as nat) + "%"@
}

fn write_percent(volume: u8) -> (r: String)
    ensures
        r@ == percent_text(volume),
{
    to_decimal(volume as u64).concat("%")
}

/// The ducking settings, with the volume the system has now: a volume that is stuck down
/// shows nowhere in the settings.
pub open spec fn media_status_lines(config: Config, volume: Option<u8>, target_os: Seq<char>) -> Seq<
    LineView,
> {
    seq![
        LineView::Field("Audio ducking"@, enabled_word(config.audio_ducking != Some(false))),
        LineView::Field(
            "Duck volume"@,
            percent_text(
                match config.audio_ducking_volume {
                    Some(v) => v,
                    None => DEFAULT_DUCKING_VOLUME,
                },
            ),
        ),
    ] + line_if(volume is Some, LineView::Field("System volume"@, percent_text(volume->0)))
        + line_if(
        !has_volume_control(target_os),
        LineView::Warn("Not supported on "@ + target_os + "."@),
    )
}

pub fn media_status(config: &Config, volume: Option<u8>, target_os: &str) -> (r: Report)
    ensures
        r@ == media_status_lines(*config, volume, target_os@),
{
    let mut r = Report::new();
    r.field("Audio ducking", enabled_text(config.audio_ducking != Some(false)));
    let duck: u8 = match config.audio_ducking_volume {
        Some(v) => v,
        None => DEFAULT_DUCKING_VOLUME,
    };
    r.field("Duck volume", write_percent(duck).as_str());
    if let Some(v) = volume {
        r.field("System volume", write_percent(v).as_str());
    }
    if !is_supported(target_os) {
        r.warn("Not supported on ".to_owned().concat(target_os).concat(".").as_str());
    }
    assert(r@ =~= media_status_lines(*config, volume, target_os@));
    r
}

/// Switches ducking on at a volume.
pub fn set_ducking(config: &mut Config, volume: u8)
    ensures
        *final(config) == (Config {
            audio_ducking: Some(true),
            audio_ducking_volume: Some(volume),
            ..*old(config)
        }),
{
    config.audio_ducking = Some(true);
    config.audio_ducking_volume = Some(volume);
}

/// Switches ducking off, and keeps the volume it was set to.
pub fn unset_ducking(config: &mut Config)
    ensures
        *final(config) == (Config { audio_ducking: Some(false), ..*old(config) }),
{
    config.audio_ducking = Some(false);
}

pub fn ducking_enabled(volume: u8) -> (r: Report)
    ensures
        r@ == seq![LineView::Success("Audio ducking enabled at "@ + percent_text(volume) + "."@)],
{
    Report::of(
        Line::Success(
            "Audio ducking enabled at ".to_owned().concat(write_percent(volume).as_str()).concat(
                ".",
            ),
        ),
    )
}

pub fn duck_volume_set(volume: u8) -> (r: Report)
    ensures
        r@ == seq![LineView::Success("Duck volume set to "@ + percent_text(volume) + "."@)],
{
    Report::of(
        Line::Success(
            "Duck volume set to ".to_owned().concat(write_percent(volume).as_str()).concat("."),
        ),
    )
}

pub open spec fn ducking_off_lines(restored: Option<u8>, volume: Option<u8>) -> Seq<LineView> {
    match restored {
        Some(v) => seq![
            LineView::Success(
                "Audio ducking disabled. Volume restored to "@ + percent_text(v) + "."@,
            ),
        ],
        None => seq![LineView::Success("Audio ducking disabled."@)] + line_if(
            volume is Some,
            LineView::Info("System volume is "@ + percent_text(volume->0) + "."@),
        ) + line_if(
            volume is Some && volume->0 < 20,
            LineView::Hint(
                "If that is lower than you expect, set it back with your volume keys."@,
            ),
        ),
    }
}

/// What is told once ducking is off and the volume was restored, where this process knew it:
/// only the one that ducked does.
pub fn ducking_disabled(restored: Option<u8>, volume: Option<u8>) -> (r: Report)
    ensures
        r@ == ducking_off_lines(restored, volume),
{
    let mut r = Report::new();
    match restored {
        Some(v) => {
            r.success(
                "Audio ducking disabled. Volume restored to ".to_owned().concat(
                    write_percent(v).as_str(),
                ).concat(".").as_str(),
            );
        },
        None => {
            r.success("Audio ducking disabled.");
            if let Some(v) = volume {
                r.info(
                    "System volume is ".to_owned().concat(write_percent(v).as_str()).concat(
                        ".",
                    ).as_str(),
                );
                if v < 20 {
                    r.hint("If that is lower than you expect, set it back with your volume keys.");
                }
            }
        },
    }
    assert(r@ =~= ducking_off_lines(restored, volume));
    r
}

pub open spec fn duck_test_lines(before: Option<u8>, ducked: Option<u8>, after: Option<u8>) -> Seq<
    LineView,
> {
    (if before is Some && ducked is Some && after is Some {
        seq![
            LineView::Field("Before"@, percent_text(before->0)),
            LineView::Field("While recording"@, percent_text(ducked->0)),
            LineView::Field("Restored to"@, percent_text(after->0)),
        ] + line_if(
            after->0 != before->0,
            LineView::Warn("Volume did not return to where it started."@),
        )
    } else {
        Seq::<LineView>::empty()
    }) + seq![LineView::Success("Volume restored."@)]
}

pub fn duck_test(before: Option<u8>, ducked: Option<u8>, after: Option<u8>) -> (r: Report)
    ensures
        r@ == duck_test_lines(before, ducked, after),
{
    let mut r = Report::new();
    if let (Some(b), Some(d), Some(a)) = (before, ducked, after) {
        r.field("Before", write_percent(b).as_str());
        r.field("While recording", write_percent(d).as_str());
        r.field("Restored to", write_percent(a).as_str());
        if a != b {
            r.warn("Volume did not return to where it started.");
        }
    }
    r.success("Volume restored.");
    assert(r@ =~= duck_test_lines(before, ducked, after));
    r
}

pub fn check_duck_test(target_os: &str) -> (r: Result<(), String>)
    ensures
        r is Ok <==> has_volume_control(target_os@),
        r is Err ==> r->Err_0@ == "Audio ducking is not supported on "@ + target_os@ + "."@,
{
    if is_supported(target_os) {
        Ok(())
    } else {
        Err("Audio ducking is not supported on ".to_owned().concat(target_os).concat("."))
    }
}

// ----------------------------------------------------------------------- autostart

/// What a switch asks for.
#[derive(Debug, Clone, Copy, PartialEq, Eq, Structural)]
pub enum SwitchAction {
    Status,
    On,
    Off,
}

pub open spec fn is_switch_action(
    r: Result<SwitchAction, String>,
    action: Seq<char>,
    usage: Seq<char>,
) -> bool {
    if action == "status"@ {
        r == Ok::<SwitchAction, String>(SwitchAction::Status)
    } else if means_on(action) {
        r == Ok::<SwitchAction, String>(SwitchAction::On)
    } else if means_off(action) {
        r == Ok::<SwitchAction, String>(SwitchAction::Off)
    } else {
        r is Err && r->Err_0@ == usage + " (got \""@ + action + "\")"@
    }
}

/// What the argument of a switch asks for, given in lower case.
pub fn switch_action_of(action: &str, usage: &str) -> (r: Result<SwitchAction, String>)
    ensures
        is_switch_action(r, action@, usage@),
{
    proof {
        actions_differ();
    }
    if same(action, "status") {
        Ok(SwitchAction::Status)
    } else if is_on(action) {
        Ok(SwitchAction::On)
    } else if is_off(action) {
        Ok(SwitchAction::Off)
    } else {
        Err(usage.to_owned().concat(" (got \"").concat(action).concat("\")"))
    }
}

pub fn autostart_action(args: &Vec<String>) -> (r: Result<SwitchAction, String>)
    ensures
        is_switch_action(
            r,
            action_of(texts(args@), "status"@),
            "Usage: wisper autostart on|off|status"@,
        ),
{
    switch_action_of(
        read_action(args, "status").as_str(),
        "Usage: wisper autostart on|off|status",
    )
}

/// What is said of an entry of an older install: both would register the same shortcuts, so
/// one press would fire twice.
pub open spec fn legacy_lines(present: bool) -> Seq<LineView> {
    if present {
        seq![
            LineView::Warn("The TypeScript LaunchAgent (com.wisper.cli) is still installed."@),
            LineView::Hint(
                "Both builds would register the same shortcuts. Disable the old one first:"@,
            ),
            LineView::Hint("  launchctl bootout gui/$(id -u)/com.wisper.cli"@),
        ]
    } else {
        Seq::<LineView>::empty()
    }
}

pub fn warn_about_legacy_autostart(present: bool) -> (r: Report)
    ensures
        r@ == legacy_lines(present),
{
    let mut r = Report::new();
    if present {
        r.warn("The TypeScript LaunchAgent (com.wisper.cli) is still installed.");
        r.hint("Both builds would register the same shortcuts. Disable the old one first:");
        r.hint("  launchctl bootout gui/$(id -u)/com.wisper.cli");
    }
    assert(r@ =~= legacy_lines(present));
    r
}

/// What was found of autostart, which the settings then repeat.
pub fn autostart(config: &mut Config, found: &AutostartResult, legacy: bool) -> (r: Report)
    ensures
        *final(config) == (Config { autostart: Some(found.enabled), ..*old(config) }),
        r@ == seq![
            if found.enabled {
                LineView::Success(found.message@)
            } else {
                LineView::Info(found.message@)
            },
        ] + legacy_lines(legacy),
{
    config.autostart = Some(found.enabled);
    let mut r = Report::new();
    if found.enabled {
        r.success(found.message.as_str());
    } else {
        r.info(found.message.as_str());
    }
    let ghost first = r@;
    r.append(warn_about_legacy_autostart(legacy));
    assert(first =~= seq![
        if found.enabled {
            LineView::Success(found.message@)
        } else {
            LineView::Info(found.message@)
        },
    ]);
    r
}

/// Whether autostart may be switched on: not while an older entry is there.
pub fn check_autostart(legacy: bool) -> (r: Result<(), String>)
    ensures
        r is Ok <==> !legacy,
        r is Err ==> r->Err_0@
            == "Refusing to enable autostart while the TypeScript LaunchAgent is installed."@,
{
    if legacy {
        Err("Refusing to enable autostart while the TypeScript LaunchAgent is installed.".to_owned())
    } else {
        Ok(())
    }
}

/// What switching autostart came to.
pub fn autostart_switched(config: &mut Config, result: &AutostartResult) -> (r: Report)
    ensures
        *final(config) == (Config { autostart: Some(result.enabled), ..*old(config) }),
        r@ == seq![LineView::Success(result.message@)],
{
    config.autostart = Some(result.enabled);
    Report::of(Line::Success(result.message.clone()))
}

// ------------------------------------------------------------------------- updates

/// What an autoupdate command asks for.
#[derive(Debug, Clone, Copy, PartialEq, Eq, Structural)]
pub enum UpdateAction {
    Status,
    /// Checks on, every so many minutes.
    On(u64),
    Off,
    /// A check now, and whether it only reports.
    Check(bool),
}

pub open spec fn minutes_of(argument: Option<Seq<char>>, least: u64) -> u64 {
    let asked = match argument {
        Some(t) => match parsed(t, u64::MAX as nat) {
            Some(n) => n as u64,
            None => DEFAULT_UPDATE_INTERVAL_MINUTES,
        },
        None => DEFAULT_UPDATE_INTERVAL_MINUTES,
    };
    if asked < least {
        least
    } else {
        asked
    }
}

pub open spec fn is_update_action(
    r: Result<UpdateAction, String>,
    action: Seq<char>,
    args: Seq<Seq<char>>,
    least: u64,
) -> bool {
    if action == "status"@ {
        r == Ok::<UpdateAction, String>(UpdateAction::Status)
    } else if means_on(action) {
        r == Ok::<UpdateAction, String>(UpdateAction::On(minutes_of(second(args), least)))
    } else if means_off(action) {
        r == Ok::<UpdateAction, String>(UpdateAction::Off)
    } else if action == "check"@ {
        r == Ok::<UpdateAction, String>(UpdateAction::Check(!args.contains("--apply"@)))
    } else {
        r is Err && r->Err_0@ == "Usage: wisper autoupdate on|off|status|check (got \""@ + action
            + "\")"@
    }
}

/// What the arguments of an autoupdate command ask for, given the first of them in lower
/// case. No interval is shorter than `least` minutes.
pub fn update_action_of(action: &str, args: &Vec<String>, least: u64) -> (r: Result<
    UpdateAction,
    String,
>)
    ensures
        is_update_action(r, action@, texts(args@), least),
{
    proof {
        actions_differ();
    }
    if same(action, "status") {
        return Ok(UpdateAction::Status);
    }
    if is_on(action) {
        let asked: u64 = if args.len() > 1 {
            assert(texts(args@)[1] == args@[1]@);
            match parse_unsigned(args[1].as_str(), u64::MAX) {
                Some(n) => n,
                None => DEFAULT_UPDATE_INTERVAL_MINUTES,
            }
        } else {
            DEFAULT_UPDATE_INTERVAL_MINUTES
        };
        return Ok(
            UpdateAction::On(
                if asked < least {
                    least
                } else {
                    asked
                },
            ),
        );
    }
    if is_off(action) {
        return Ok(UpdateAction::Off);
    }
    if same(action, "check") {
        return Ok(UpdateAction::Check(!list_has(args, "--apply")));
    }
    Err(
        "Usage: wisper autoupdate on|off|status|check (got \"".to_owned().concat(action).concat(
            "\")",
        ),
    )
}

pub fn update_action(args: &Vec<String>, least: u64) -> (r: Result<UpdateAction, String>)
    ensures
        is_update_action(r, action_of(texts(args@), "status"@), texts(args@), least),
{
    update_action_of(read_action(args, "status").as_str(), args, least)
}

pub open spec fn interval_text(minutes: Option<u64>) -> Seq<char> {
    decimal(
        match minutes {
            Some(n) => n as nat,
            None => DEFAULT_UPDATE_INTERVAL_MINUTES as nat,
        },
    ) + " minutes"@
}

pub open spec fn update_status_lines(config: Config, version: Seq<char>) -> Seq<LineView> {
    seq![
        LineView::Field("Version"@, version),
        LineView::Field("Update checks"@, enabled_word(config.auto_update != Some(false))),
    ] + line_if(
        config.auto_update != Some(false),
        LineView::Field("Check interval"@, interval_text(config.auto_update_interval_minutes)),
    ) + seq![
        LineView::Hint(
            "The listener only logs when an update exists. Install it with: wisper update"@,
        ),
    ]
}

/// Nothing installs by itself, so that is said rather than letting "enabled" imply it.
pub fn update_settings(config: &Config, version: &str) -> (r: Report)
    ensures
        r@ == update_status_lines(*config, version@),
{
    let mut r = Report::new();
    let enabled = config.auto_update != Some(false);
    r.field("Version", version);
    r.field("Update checks", enabled_text(enabled));
    if enabled {
        let minutes: u64 = match config.auto_update_interval_minutes {
            Some(n) => n,
            None => DEFAULT_UPDATE_INTERVAL_MINUTES,
        };
        r.field("Check interval", to_decimal(minutes).concat(" minutes").as_str());
    }
    r.hint("The listener only logs when an update exists. Install it with: wisper update");
    assert(r@ =~= update_status_lines(*config, version@));
    r
}

/// Switches update checks on.
pub fn enable_updates(config: &mut Config, minutes: u64) -> (r: Report)
    ensures
        *final(config) == (Config {
            auto_update: Some(true),
            auto_update_interval_minutes: Some(minutes),
            ..*old(config)
        }),
        r@ == seq![
            LineView::Success(
                "Update checks enabled. Checking every "@ + decimal(minutes as nat)
                    + " minutes."@,
            ),
            LineView::Hint(RESTART_HINT@),
        ],
{
    config.auto_update = Some(true);
    config.auto_update_interval_minutes = Some(minutes);
    let mut r = Report::new();
    r.success(
        "Update checks enabled. Checking every ".to_owned().concat(
            to_decimal(minutes).as_str(),
        ).concat(" minutes.").as_str(),
    );
    r.hint(RESTART_HINT);
    assert(r@ =~= seq![
        LineView::Success(
            "Update checks enabled. Checking every "@ + decimal(minutes as nat) + " minutes."@,
        ),
        LineView::Hint(RESTART_HINT@),
    ]);
    r
}

pub fn disable_updates(config: &mut Config) -> (r: Report)
    ensures
        *final(config) == (Config { auto_update: Some(false), ..*old(config) }),
        r@ == seq![LineView::Success("Update checks disabled."@), LineView::Hint(RESTART_HINT@)],
{
    config.auto_update = Some(false);
    let mut r = Report::new();
    r.success("Update checks disabled.");
    r.hint(RESTART_HINT);
    assert(r@ =~= seq![
        LineView::Success("Update checks disabled."@),
        LineView::Hint(RESTART_HINT@),
    ]);
    r
}

pub open spec fn update_found_lines(status: UpdateStatus, check_only: bool) -> Seq<LineView> {
    match status {
        UpdateStatus::NoReleases => seq![
            LineView::Info("No releases published yet, so there is nothing to update to."@),
        ],
        UpdateStatus::UpToDate { version } => seq![
            LineView::Success("Already on the latest release (v"@ + version@ + ")."@),
        ],
        UpdateStatus::Available { current, latest } => seq![
            LineView::Warn("Update available: v"@ + current@ + " -> "@ + latest@),
        ] + line_if(check_only, LineView::Hint("Install it with: wisper update"@)),
    }
}

/// What a check for updates found, and whether to install one.
pub fn update_found(status: &UpdateStatus, check_only: bool) -> (r: (Report, bool))
    ensures
        r.0@ == update_found_lines(*status, check_only),
        r.1 == (status is Available && !check_only),
{
    let mut report = Report::new();
    let install = match status {
        UpdateStatus::NoReleases => {
            report.info("No releases published yet, so there is nothing to update to.");
            false
        },
        UpdateStatus::UpToDate { version } => {
            report.success(
                "Already on the latest release (v".to_owned().concat(version.as_str()).concat(
                    ").",
                ).as_str(),
            );
            false
        },
        UpdateStatus::Available { current, latest } => {
            report.warn(
                "Update available: v".to_owned().concat(current.as_str()).concat(" -> ").concat(
                    latest.as_str(),
                ).as_str(),
            );
            if check_only {
                report.hint("Install it with: wisper update");
            }
            !check_only
        },
    };
    assert(report@ =~= update_found_lines(*status, check_only));
    (report, install)
}

/// How the listener is brought back after an update, or after one that failed.
#[derive(Debug, Clone, Copy, PartialEq, Eq, Structural)]
pub enum Revival {
    /// Through the launcher that owns it.
    Resume,
    /// As a process of its own.
    Spawn,
    /// It was not running.
    Nothing,
}

/// The old binaries are untouched on failure, so the listener comes back either way: through
/// its launcher where one was suspended, or else as it was.
pub fn revival(supervised: bool, was_running: bool) -> (r: Revival)
    ensures
        r == (if supervised {
            Revival::Resume
        } else if was_running {
            Revival::Spawn
        } else {
            Revival::Nothing
        }),
{
    if supervised {
        Revival::Resume
    } else if was_running {
        Revival::Spawn
    } else {
        Revival::Nothing
    }
}

/// What is said once the listener was brought back, and whether its start is to be verified.
/// `outcome` is the process id, or why it could not be started.
pub open spec fn revived_lines(revival: Revival, outcome: Result<Option<u32>, String>) -> Seq<
    LineView,
> {
    match (revival, outcome) {
        (Revival::Resume, Ok(_)) => seq![
            LineView::Success("Listener restarted through the login launcher."@),
        ],
        (Revival::Resume, Err(_)) => seq![
            LineView::Warn("Could not restart through the launcher. Run: wisper listen"@),
        ],
        (Revival::Spawn, Ok(pid)) => seq![
            LineView::Success(
                "Listener restarted (pid "@ + decimal(
                    match pid {
                        Some(n) => n as nat,
                        None => 0,
                    },
                ) + ")."@,
            ),
        ],
        (Revival::Spawn, Err(e)) => seq![
            LineView::Warn("Could not restart the listener: "@ + e@),
            LineView::Hint("Start it with: wisper listen"@),
        ],
        (Revival::Nothing, _) => Seq::<LineView>::empty(),
    }
}

pub fn revived(revival: Revival, outcome: &Result<Option<u32>, String>) -> (r: (Report, bool))
    ensures
        r.0@ == revived_lines(revival, *outcome),
        r.1 == (revival != Revival::Nothing && outcome is Ok),
{
    let mut report = Report::new();
    match (revival, outcome) {
        (Revival::Resume, Ok(_)) => {
            report.success("Listener restarted through the login launcher.");
        },
        (Revival::Resume, Err(_)) => {
            report.warn("Could not restart through the launcher. Run: wisper listen");
        },
        (Revival::Spawn, Ok(pid)) => {
            let n: u32 = match pid {
                Some(n) => *n,
                None => 0,
            };
            report.success(
                "Listener restarted (pid ".to_owned().concat(to_decimal(n as u64).as_str()).concat(
                    ").",
                ).as_str(),
            );
        },
        (Revival::Spawn, Err(e)) => {
            report.warn("Could not restart the listener: ".to_owned().concat(e.as_str()).as_str());
            report.hint("Start it with: wisper listen");
        },
        (Revival::Nothing, _) => {},
    }
    assert(report@ =~= revived_lines(revival, *outcome));
    (report, revival != Revival::Nothing && outcome.is_ok())
}

// ------------------------------------------------------------------------ listener

/// Process ids as a list.
pub open spec fn pid_list(pids: Seq<u32>) -> Seq<char> {
    "["@ + join(Seq::new(pids.len(), |i: int| decimal(pids[i] as nat)), ", "@) + "]"@
}

pub fn write_pids(pids: &Vec<u32>) -> (r: String)
    ensures
        r@ == pid_list(pids@),
{
    let ghost all = Seq::new(pids@.len(), |i: int| decimal(pids@[i] as nat));
    let mut parts: Vec<String> = Vec::new();
    let mut i: usize = 0;
    assert(texts(parts@) =~= all.take(0));
    while i < pids.len()
        invariant
            i <= pids.len(),
            all == Seq::new(pids@.len(), |i: int| decimal(pids@[i] as nat)),
            texts(parts@) == all.take(i as int),
        decreases pids.len() - i,
    {
        parts.push(to_decimal(pids[i] as u64));
        assert(all.take(i + 1) =~= all.take(i as int).push(all[i as int]));
        i = i + 1;
    }
    assert(all.take(i as int) =~= all);
    "[".to_owned().concat(join_texts(&parts, ", ").as_str()).concat("]")
}

pub open spec fn stuck_line(survivors: Seq<u32>) -> LineView {
    LineView::Failure(
        decimal(survivors.len()) + " listener(s) could not be stopped: "@ + pid_list(survivors),
    )
}

/// Whether every other listener is gone. While one survives, another must not be started:
/// every press would fire twice.
pub fn check_survivors(survivors: &Vec<u32>, refusal: &str) -> (r: Result<(), (Report, String)>)
    ensures
        match r {
            Ok(_) => survivors@.len() == 0,
            Err((report, e)) => survivors@.len() > 0 && report@ == seq![stuck_line(survivors@)]
                && e@ == refusal@,
        },
{
    if survivors.len() == 0 {
        return Ok(());
    }
    let report = Report::of(
        Line::Failure(
            to_decimal(survivors.len() as u64).concat(
                " listener(s) could not be stopped: ",
            ).concat(write_pids(survivors).as_str()),
        ),
    );
    Err((report, refusal.to_owned()))
}

pub const LISTEN_REFUSAL: &'static str =
    "Refusing to start a second listener. Stop those PIDs first.";

pub const UPDATE_REFUSAL: &'static str =
    "Not updating while a listener is running. Stop those PIDs and try again.";

/// What a foreground listener is started with: a launcher would revive its own copy and
/// sweep this one away.
pub fn foreground_notes(managed: bool) -> (r: Report)
    ensures
        r@ == (if managed {
            seq![
                LineView::Warn(
                    "Autostart is enabled. Stop it first so it does not restart a rival listener:"@,
                ),
                LineView::Hint("  wisper autostart off"@),
            ]
        } else {
            Seq::<LineView>::empty()
        }),
{
    let mut r = Report::new();
    if managed {
        r.warn("Autostart is enabled. Stop it first so it does not restart a rival listener:");
        r.hint("  wisper autostart off");
        assert(r@ =~= seq![
            LineView::Warn(
                "Autostart is enabled. Stop it first so it does not restart a rival listener:"@,
            ),
            LineView::Hint("  wisper autostart off"@),
        ]);
    }
    r
}

/// How a background listener is started: through its launcher, where it has one and that
/// works, or else directly.
pub fn start_route(managed: bool, restarted: bool) -> (r: (Report, bool))
    ensures
        r.1 == !(managed && restarted),
        r.0@ == (if managed && restarted {
            seq![LineView::Success("Listener restarted through the login launcher."@)]
        } else if managed {
            seq![LineView::Warn("Could not restart through the launcher. Starting directly."@)]
        } else {
            Seq::<LineView>::empty()
        }),
{
    if managed && restarted {
        return (
            Report::of(Line::Success("Listener restarted through the login launcher.".to_owned())),
            false,
        );
    }
    if managed {
        return (
            Report::of(
                Line::Warn("Could not restart through the launcher. Starting directly.".to_owned()),
            ),
            true,
        );
    }
    (Report::new(), true)
}

pub fn listener_started(pid: u32) -> (r: Report)
    ensures
        r@ == seq![
            LineView::Success(
                "Listener started in the background (pid "@ + decimal(pid as nat) + ")."@,
            ),
        ],
{
    Report::of(
        Line::Success(
            "Listener started in the background (pid ".to_owned().concat(
                to_decimal(pid as u64).as_str(),
            ).concat(")."),
        ),
    )
}

/// Whether any of the last lines of the log has a mark in it.
pub open spec fn any_line_has(lines: Seq<Seq<char>>, mark: Seq<char>) -> bool {
    exists|i: int| 0 <= i < lines.len() && #[trigger] has(lines[i], mark)
}

/// The last 25 lines.
pub open spec fn tail(lines: Seq<Seq<char>>) -> Seq<Seq<char>> {
    if lines.len() > 25 {
        lines.skip(lines.len() - 25)
    } else {
        lines
    }
}

pub open spec fn start_verdict(lines: Seq<Seq<char>>) -> LineView {
    if any_line_has(tail(lines), "Shortcut registered:"@) {
        LineView::Success("Verified: shortcut registered."@)
    } else if any_line_has(tail(lines), "could not be registered"@) {
        LineView::Failure("Listener started but no shortcut registered. Run: wisper doctor"@)
    } else {
        LineView::Warn(
            "Listener start requested. If the shortcut does nothing, run: wisper doctor"@,
        )
    }
}

fn tail_has(lines: &Vec<String>, mark: &str) -> (r: bool)
    ensures
        r == any_line_has(tail(texts(lines@)), mark@),
{
    let ghost all = texts(lines@);
    let start: usize = if lines.len() > 25 {
        lines.len() - 25
    } else {
        0
    };
    assert(tail(all) =~= all.skip(start as int));
    let mut i: usize = start;
    while i < lines.len()
        invariant
            start <= i <= lines.len(),
            all == texts(lines@),
            tail(all) == all.skip(start as int),
            forall|j: int| 0 <= j < i - start ==> !#[trigger] has(tail(all)[j], mark@),
        decreases lines.len() - i,
    {
        assert(tail(all)[i - start] == lines@[i as int]@);
        if contains(lines[i].as_str(), mark) {
            assert(has(tail(all)[i - start], mark@));
            return true;
        }
        i = i + 1;
    }
    false
}

/// Whether the listener actually came up, read from the lines of its log. A detached process
/// that dies instantly looks identical to one that started fine.
pub fn report_listener_start(lines: &Vec<String>) -> (r: Report)
    ensures
        r@ == seq![start_verdict(texts(lines@))],
{
    if tail_has(lines, "Shortcut registered:") {
        Report::of(Line::Success("Verified: shortcut registered.".to_owned()))
    } else if tail_has(lines, "could not be registered") {
        Report::of(
            Line::Failure(
                "Listener started but no shortcut registered. Run: wisper doctor".to_owned(),
            ),
        )
    } else {
        Report::of(
            Line::Warn(
                "Listener start requested. If the shortcut does nothing, run: wisper doctor".to_owned(),
            ),
        )
    }
}

/// How a listener is stopped: with a launcher that keeps it alive, killing the process alone
/// is pointless, so the launcher has to be stopped too.
pub fn stop_managed(config: &mut Config) -> (r: Report)
    ensures
        *final(config) == (Config { autostart: Some(false), ..*old(config) }),
        r@ == seq![
            LineView::Success("Listener stopped and autostart disabled."@),
            LineView::Hint("Re-enable it with: wisper autostart on"@),
        ],
{
    config.autostart = Some(false);
    let mut r = Report::new();
    r.success("Listener stopped and autostart disabled.");
    r.hint("Re-enable it with: wisper autostart on");
    assert(r@ =~= seq![
        LineView::Success("Listener stopped and autostart disabled."@),
        LineView::Hint("Re-enable it with: wisper autostart on"@),
    ]);
    r
}

pub open spec fn stop_lines(stopped: nat, remaining: Seq<u32>) -> Seq<LineView> {
    if remaining.len() > 0 {
        seq![
            LineView::Failure(
                decimal(remaining.len()) + " listener(s) are still running: "@ + pid_list(
                    remaining,
                ),
            ),
            LineView::Hint("Stop them by PID, then run: wisper doctor"@),
        ]
    } else if stopped > 0 {
        seq![LineView::Success("Stopped "@ + decimal(stopped) + " listener(s)."@)]
    } else {
        seq![LineView::Info("No running listener found."@)]
    }
}

/// What stopping came to. Success is never reported while listeners survive: that is how
/// several ended up running at once, each pasting the same dictation.
pub fn stop(stopped: usize, remaining: &Vec<u32>) -> (r: Report)
    ensures
        r@ == stop_lines(stopped as nat, remaining@),
{
    let mut r = Report::new();
    if remaining.len() > 0 {
        r.failure(
            to_decimal(remaining.len() as u64).concat(" listener(s) are still running: ").concat(
                write_pids(remaining).as_str(),
            ).as_str(),
        );
        r.hint("Stop them by PID, then run: wisper doctor");
    } else if stopped > 0 {
        r.success(
            "Stopped ".to_owned().concat(to_decimal(stopped as u64).as_str()).concat(
                " listener(s).",
            ).as_str(),
        );
    } else {
        r.info("No running listener found.");
    }
    assert(r@ =~= stop_lines(stopped as nat, remaining@));
    r
}

// -------------------------------------------------------------------------- doctor

pub open spec fn device_line(device: Seq<char>) -> LineView {
    LineView::Info(
        device + (if is_virtual(device) {
            "  (virtual)"@
        } else {
            Seq::<char>::empty()
        }),
    )
}

pub open spec fn microphone_lines(devices: Seq<Seq<char>>, config: Config) -> Seq<LineView> {
    if devices.len() == 0 {
        seq![LineView::Failure("No input devices found"@)]
    } else {
        devices.map_values(|d: Seq<char>| device_line(d)).push(
            LineView::Field("Configured"@, setting_or(config.audio_device, "default"@)),
        )
    }
}

pub fn microphone_report(devices: &Vec<String>, config: &Config) -> (r: Report)
    ensures
        r@ == microphone_lines(texts(devices@), *config),
{
    let ghost all = texts(devices@).map_values(|d: Seq<char>| device_line(d));
    let mut r = Report::new();
    assert(texts(devices@).len() == devices.len());
    if devices.len() == 0 {
        r.failure("No input devices found");
        assert(r@ =~= microphone_lines(texts(devices@), *config));
        return r;
    }
    let mut i: usize = 0;
    assert(r@ =~= all.take(0));
    while i < devices.len()
        invariant
            i <= devices.len(),
            all == texts(devices@).map_values(|d: Seq<char>| device_line(d)),
            r@ == all.take(i as int),
        decreases devices.len() - i,
    {
        let mark: &str = if is_likely_virtual(devices[i].as_str()) {
            "  (virtual)"
        } else {
            ""
        };
        proof {
            reveal_strlit("");
            assert(""@ =~= Seq::<char>::empty());
        }
        r.info(devices[i].clone().concat(mark).as_str());
        assert(all[i as int] == device_line(devices@[i as int]@));
        assert(all.take(i + 1) =~= all.take(i as int).push(all[i as int]));
        i = i + 1;
    }
    assert(all.take(i as int) =~= all);
    r.field(
        "Configured",
        match &config.audio_device {
            Some(name) => name.as_str(),
            None => "default",
        },
    );
    r
}

/// Whether a shortcut can be registered, and whether it is the dictation one over again.
pub open spec fn is_shortcut_line(
    line: LineView,
    label: Seq<char>,
    value: Seq<char>,
    dictation: Seq<char>,
    target_os: Seq<char>,
) -> bool {
    let control = control_of(target_os);
    if is_valid(value, target_os) {
        if label != "Dictation"@ && normal_form(value, control) == dictation {
            line == LineView::Warn(
                label + ": "@ + value + " is the same combo as the dictation shortcut"@,
            )
        } else {
            line == LineView::Success(label + ": "@ + value)
        }
    } else {
        exists|error: ShortcutError|
            line == LineView::Failure(label + ": "@ + value + " — "@ + error.text())
                && #[trigger] is_refusal(error, value, target_os)
    }
}

fn shortcut_line(label: &str, value: &str, dictation: &str, target_os: &str) -> (r: Line)
    ensures
        is_shortcut_line(r@, label@, value@, dictation@, target_os@),
{
    match validate_with(value, target_os) {
        Ok(_) => {
            let clash = !same(label, "Dictation") && same(
                normalize(value, target_os).as_str(),
                dictation,
            );
            if clash {
                Line::Warn(
                    label.to_owned().concat(": ").concat(value).concat(
                        " is the same combo as the dictation shortcut",
                    ),
                )
            } else {
                Line::Success(label.to_owned().concat(": ").concat(value))
            }
        },
        Err(e) => {
            let line = Line::Failure(
                label.to_owned().concat(": ").concat(value).concat(" — ").concat(
                    e.message().as_str(),
                ),
            );
            assert(line@ == LineView::Failure(label@ + ": "@ + value@ + " — "@ + e.text())
                && is_refusal(e, value@, target_os@));
            line
        },
    }
}

/// The three shortcuts, each with what is wrong with it.
pub open spec fn are_shortcut_lines(r: Seq<LineView>, config: Config, target_os: Seq<char>) -> bool {
    let dictation = setting_or(config.shortcut, DEFAULT_SHORTCUT@);
    let combo = normal_form(dictation, control_of(target_os));
    &&& r.len() == 3
    &&& is_shortcut_line(r[0], "Dictation"@, dictation, combo, target_os)
    &&& is_shortcut_line(
        r[1],
        "Polish"@,
        setting_or(config.polish_shortcut, DEFAULT_POLISH_SHORTCUT@),
        combo,
        target_os,
    )
    &&& is_shortcut_line(
        r[2],
        "Spell-fix"@,
        setting_or(config.spell_shortcut, DEFAULT_SPELL_SHORTCUT@),
        combo,
        target_os,
    )
}

pub fn shortcut_report(config: &Config, target_os: &str) -> (r: Report)
    ensures
        are_shortcut_lines(r@, *config, target_os@),
{
    let combo = normalize(config.shortcut_or_default(), target_os);
    let mut r = Report::new();
    r.line(
        shortcut_line("Dictation", config.shortcut_or_default(), combo.as_str(), target_os),
    );
    r.line(
        shortcut_line("Polish", config.polish_shortcut_or_default(), combo.as_str(), target_os),
    );
    r.line(
        shortcut_line("Spell-fix", config.spell_shortcut_or_default(), combo.as_str(), target_os),
    );
    r
}

pub open spec fn provider_line(config: Config) -> LineView {
    if config.configured() {
        LineView::Success(
            config.provider->0.name() + " / "@ + setting_or(config.model, "default model"@),
        )
    } else {
        LineView::Failure("No provider or API key. Run: wisper setup"@)
    }
}

pub fn provider_report(config: &Config) -> (r: Report)
    ensures
        r@ == seq![provider_line(*config)],
{
    if config.is_configured() {
        let provider: &str = match config.provider {
            Some(p) => p.as_str(),
            None => "",
        };
        let model: &str = match &config.model {
            Some(m) => m.as_str(),
            None => "default model",
        };
        Report::of(Line::Success(provider.to_owned().concat(" / ").concat(model)))
    } else {
        Report::of(Line::Failure("No provider or API key. Run: wisper setup".to_owned()))
    }
}

pub open spec fn listener_line(others: Seq<u32>) -> LineView {
    if others.len() == 0 {
        LineView::Info("Not running."@)
    } else if others.len() == 1 {
        LineView::Success("Running (pid "@ + decimal(others[0] as nat) + ")."@)
    } else {
        LineView::Failure(
            decimal(others.len()) + " listeners running ("@ + pid_list(others)
                + "). Every shortcut press fires "@ + decimal(others.len())
                + " times. Run: wisper stop"@,
        )
    }
}

pub fn listener_report(others: &Vec<u32>) -> (r: Report)
    ensures
        r@ == seq![listener_line(others@)],
{
    if others.len() == 0 {
        Report::of(Line::Info("Not running.".to_owned()))
    } else if others.len() == 1 {
        Report::of(
            Line::Success(
                "Running (pid ".to_owned().concat(to_decimal(others[0] as u64).as_str()).concat(
                    ").",
                ),
            ),
        )
    } else {
        let count = to_decimal(others.len() as u64);
        Report::of(
            Line::Failure(
                count.clone().concat(" listeners running (").concat(
                    write_pids(others).as_str(),
                ).concat("). Every shortcut press fires ").concat(count.as_str()).concat(
                    " times. Run: wisper stop",
                ),
            ),
        )
    }
}

/// A section after a blank line and a heading.
pub open spec fn section(heading: Seq<char>, lines: Seq<LineView>) -> Seq<LineView> {
    seq![LineView::Blank, LineView::Heading(heading)] + lines
}

/// What the doctor says after the permissions: why dictation is not working, in one place.
pub open spec fn is_diagnosis(
    r: Seq<LineView>,
    config: Config,
    devices: Seq<Seq<char>>,
    others: Seq<u32>,
    target_os: Seq<char>,
) -> bool {
    exists|shortcuts: Seq<LineView>|
        #[trigger] are_shortcut_lines(shortcuts, config, target_os) && r == section(
            "Microphone"@,
            microphone_lines(devices, config),
        ) + section("Shortcuts"@, shortcuts) + section("Provider"@, seq![provider_line(config)])
            + section("Listener"@, seq![listener_line(others)])
}

fn push_section(r: &mut Report, heading: &str, lines: Report)
    ensures
        final(r)@ == old(r)@ + section(heading@, lines@),
{
    let ghost before = r@;
    r.blank();
    r.heading(heading);
    r.append(lines);
    assert(r@ =~= before + section(heading@, lines@));
}

/// Permission problems are this tool's most common failure, and they are invisible from a
/// detached listener.
pub fn doctor(config: &Config, devices: &Vec<String>, others: &Vec<u32>, target_os: &str) -> (r:
    Report)
    ensures
        is_diagnosis(r@, *config, texts(devices@), others@, target_os@),
{
    let mut r = Report::new();
    push_section(&mut r, "Microphone", microphone_report(devices, config));
    assert(r@ =~= section("Microphone"@, microphone_lines(texts(devices@), *config)));
    let shortcuts = shortcut_report(config, target_os);
    let ghost found = shortcuts@;
    push_section(&mut r, "Shortcuts", shortcuts);
    push_section(&mut r, "Provider", provider_report(config));
    push_section(&mut r, "Listener", listener_report(others));
    assert(are_shortcut_lines(found, *config, target_os@));
    r
}

/// What the doctor says of the permission to observe keys.
pub fn permission_line(granted: bool) -> (r: Line)
    ensures
        r@ == (if granted {
            LineView::Success("Accessibility: granted (global shortcuts can be registered)"@)
        } else {
            LineView::Failure("Accessibility: missing"@)
        }),
{
    if granted {
        Line::Success(
            "Accessibility: granted (global shortcuts can be registered)".to_owned(),
        )
    } else {
        Line::Failure("Accessibility: missing".to_owned())
    }
}

// --------------------------------------------------------------------------- laws

/// A volume is the number that was given, within a hundred per cent, and nothing else is one.
pub proof fn a_volume_is_the_number_given(n: nat)
    ensures
        n <= 100 ==> volume_of(Some(decimal(n))) == Some(n as u8),
        100 < n <= 255 ==> volume_of(Some(decimal(n))) == Some(100u8),
        n > 255 ==> volume_of(Some(decimal(n))) is None,
        volume_of(None) is None,
{
    decimal_is_number(n);
}

/// Updates are looked for as often as was asked, but no more often than is allowed.
pub proof fn an_interval_is_the_one_asked_for(n: nat, least: u64)
    requires
        n <= u64::MAX,
    ensures
        n >= least ==> minutes_of(Some(decimal(n)), least) == n,
        n < least ==> minutes_of(Some(decimal(n)), least) == least,
        minutes_of(None, least) >= least,
        least <= 180 ==> minutes_of(None, least) == 180,
{
    decimal_is_number(n);
}

/// Every process that is listed is named, in order.
pub proof fn every_process_is_listed(pids: Seq<u32>, i: int)
    requires
        0 <= i < pids.len(),
    ensures
        has(pid_list(pids), decimal(pids[i] as nat)),
{
    let names = Seq::new(pids.len(), |i: int| decimal(pids[i] as nat));
    joining_keeps_every_part(names, ", "@, i);
    stands_inside("["@, join(names, ", "@), "]"@);
    part_of_a_part(pid_list(pids), join(names, ", "@), names[i]);
}

/// What is looked at of a log is its last lines, all of a short one.
pub proof fn the_end_of_a_log_is_looked_at(lines: Seq<Seq<char>>)
    ensures
        tail(lines).len() == (if lines.len() < 25 {
            lines.len()
        } else {
            25
        }),
        forall|i: int|
            0 <= i < tail(lines).len() ==> #[trigger] tail(lines)[i] == lines[lines.len() - tail(
                lines,
            ).len() + i],
{
}

/// A start is verified exactly where the end of the log says that the shortcut was registered, and
/// failed where it says that it could not be.
pub proof fn a_start_is_what_its_log_says(lines: Seq<Seq<char>>)
    ensures
        start_verdict(lines) is Success <==> exists|i: int|
            0 <= i < tail(lines).len() && #[trigger] has(tail(lines)[i], "Shortcut registered:"@),
        start_verdict(lines) is Failure ==> exists|i: int|
            0 <= i < tail(lines).len() && #[trigger] has(
                tail(lines)[i],
                "could not be registered"@,
            ),
        !(start_verdict(lines) is Success) && (exists|i: int|
            0 <= i < tail(lines).len() && #[trigger] has(
                tail(lines)[i],
                "could not be registered"@,
            )) ==> start_verdict(lines) is Failure,
{
}

/// A stop succeeded exactly where something was stopped and nothing is left.
pub proof fn a_stop_is_what_it_stopped(stopped: nat, remaining: Seq<u32>)
    ensures
        stop_lines(stopped, remaining)[0] is Failure <==> remaining.len() > 0,
        stop_lines(stopped, remaining)[0] is Success <==> remaining.len() == 0 && stopped > 0,
        stop_lines(stopped, remaining)[0] is Info <==> remaining.len() == 0 && stopped == 0,
{
}

/// A diagnosis is content with one listener, and with no other number of them.
pub proof fn one_listener_is_right(others: Seq<u32>)
    ensures
        listener_line(others) is Success <==> others.len() == 1,
        listener_line(others) is Failure <==> others.len() > 1,
        listener_line(others) is Info <==> others.len() == 0,
        others.len() == 1 ==> has(listener_line(others)->Success_0, decimal(others[0] as nat)),
{
    if others.len() == 1 {
        stands_inside("Running (pid "@, decimal(others[0] as nat), ")."@);
    }
}

/// A diagnosis is content with a provider exactly where it can be used.
pub proof fn a_provider_is_right_where_it_can_be_used(config: Config)
    ensures
        provider_line(config) is Success <==> config.configured(),
        provider_line(config) is Failure <==> !config.configured(),
{
}

/// Every microphone is listed, in order, and the one that is configured behind them.
pub proof fn every_microphone_is_listed(devices: Seq<Seq<char>>, config: Config, i: int)
    requires
        0 <= i < devices.len(),
    ensures
        ({
            let lines = microphone_lines(devices, config);
            &&& lines.len() == devices.len() + 1
            &&& lines[i] is Info
            &&& devices[i].is_prefix_of(lines[i]->Info_0)
            &&& lines[i]->Info_0 == devices[i] <==> !is_virtual(devices[i])
            &&& config.audio_device is Some ==> lines.last() == LineView::Field(
                "Configured"@,
                config.audio_device->0@,
            )
        }),
{
    reveal_strlit("  (virtual)");
    let line = device_line(devices[i])->Info_0;
    assert(line.take(devices[i].len() as int) =~= devices[i]);
    if !is_virtual(devices[i]) {
        assert(line =~= devices[i]);
    }
}

/// An update that was found is named with the version that runs, and there is nothing to do where
/// there is none.
pub proof fn an_update_is_named(status: UpdateStatus, check_only: bool)
    ensures
        ({
            let shown = update_found_lines(status, check_only);
            &&& status is Available ==> shown[0] is Warn && has(shown[0]->Warn_0, status->current@)
                && has(shown[0]->Warn_0, status->latest@)
            &&& status is UpToDate ==> shown[0] is Success && has(
                shown[0]->Success_0,
                status->version@,
            )
            &&& status is NoReleases ==> shown[0] is Info
            &&& shown.len() == (if status is Available && check_only {
                2int
            } else {
                1
            })
        }),
{
    if let UpdateStatus::Available { current, latest } = status {
        let lead = "Update available: v"@;
        stands_inside(lead, current@, " -> "@ + latest@);
        assert(lead + current@ + (" -> "@ + latest@) =~= lead + current@ + " -> "@ + latest@);
        stands_inside(lead + current@ + " -> "@, latest@, Seq::<char>::empty());
        assert(lead + current@ + " -> "@ + latest@ + Seq::<char>::empty() =~= lead + current@
            + " -> "@ + latest@);
    }
    if let UpdateStatus::UpToDate { version } = status {
        stands_inside("Already on the latest release (v"@, version@, ")."@);
    }
}

} // verus!
