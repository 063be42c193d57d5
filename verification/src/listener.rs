//! The background listener: shortcuts in, transcript pasted out.
//!
//! One listener per machine, a shortcut that cannot be registered never takes down the
//! others, and shortcuts are compared in their normal form so the same combination written
//! two ways is not registered twice.
use vstd::prelude::*;
use crate::audio::{DEFAULT_DEVICE, Levels};
use crate::commands::ShortcutKind;
use crate::config::{
    Config, DEFAULT_POLISH_SHORTCUT, DEFAULT_SHORTCUT, DEFAULT_SPELL_SHORTCUT, setting_or,
};
use crate::deliverables::one_if;
use crate::hotkey::{HotkeyEvent, hint_text, permission_hint};
use crate::number::{decimal, to_decimal};
use crate::polish::RewriteMode;
use crate::shortcut::{control_of, normal_form, normalize};
use crate::text::{opt_text, same, texts, texts_of_push, trim, trimmed};

verus! {

broadcast use texts_of_push;

/// Anything shorter than this is a mis-tap rather than speech, in microseconds.
pub const MIN_RECORDING: u64 = 500_000;

/// How many recordings are kept, and for how long, in microseconds.
pub const KEPT_RECORDINGS: usize = 30;

pub const KEPT_RECORDING_AGE: i64 = 86_400_000_000;

#[derive(Debug, Clone, Copy, PartialEq, Eq, Structural)]
pub enum Job {
    Dictation(HotkeyEvent),
    PolishSelection,
    SpellFocusedInput,
}

/// What a shortcut of a kind asks for. Of polish and spell-fix only the press matters.
pub open spec fn job_of(kind: ShortcutKind, event: HotkeyEvent) -> Option<Job> {
    match (kind, event) {
        (ShortcutKind::Dictation, _) => Some(Job::Dictation(event)),
        (ShortcutKind::Polish, HotkeyEvent::Down) => Some(Job::PolishSelection),
        (ShortcutKind::Spell, HotkeyEvent::Down) => Some(Job::SpellFocusedInput),
        _ => None,
    }
}

pub fn job_for(kind: ShortcutKind, event: HotkeyEvent) -> (r: Option<Job>)
    ensures
        r == job_of(kind, event),
{
    match (kind, event) {
        (ShortcutKind::Dictation, _) => Some(Job::Dictation(event)),
        (ShortcutKind::Polish, HotkeyEvent::Down) => Some(Job::PolishSelection),
        (ShortcutKind::Spell, HotkeyEvent::Down) => Some(Job::SpellFocusedInput),
        _ => None,
    }
}

// ------------------------------------------------------------------------- starting

pub open spec fn stopped_note(stopped: nat) -> Seq<Seq<char>> {
    one_if(stopped > 0, "Stopped "@ + decimal(stopped) + " listener(s) already running."@)
}

/// What is logged when the listener starts.
pub open spec fn opening_log(
    config: Config,
    stopped: nat,
    permitted: bool,
    target_os: Seq<char>,
) -> Seq<Seq<char>> {
    stopped_note(stopped) + seq![
        "Wisper listener running."@,
        "Provider: "@ + (match config.provider {
            Some(p) => p.name(),
            None => "not set"@,
        }),
        "Model: "@ + setting_or(config.model, "not set"@),
        "Shortcut: "@ + setting_or(config.shortcut, DEFAULT_SHORTCUT@),
    ] + one_if(!permitted, "Accessibility permission is missing. "@ + hint_text(target_os))
}

pub fn opening_lines(config: &Config, stopped: usize, permitted: bool, target_os: &str) -> (r: Vec<
    String,
>)
    ensures
        texts(r@) == opening_log(*config, stopped as nat, permitted, target_os@),
{
    let mut lines: Vec<String> = Vec::new();
    assert(texts(lines@) =~= Seq::<Seq<char>>::empty());
    if stopped > 0 {
        lines.push(
            "Stopped ".to_owned().concat(to_decimal(stopped as u64).as_str()).concat(
                " listener(s) already running.",
            ),
        );
    }
    assert(texts(lines@) =~= stopped_note(stopped as nat));
    lines.push("Wisper listener running.".to_owned());
    lines.push(
        "Provider: ".to_owned().concat(
            match config.provider {
                Some(p) => p.as_str(),
                None => "not set",
            },
        ),
    );
    lines.push(
        "Model: ".to_owned().concat(
            match &config.model {
                Some(m) => m.as_str(),
                None => "not set",
            },
        ),
    );
    lines.push("Shortcut: ".to_owned().concat(config.shortcut_or_default()));
    if !permitted {
        lines.push(
            "Accessibility permission is missing. ".to_owned().concat(permission_hint(target_os)),
        );
    }
    assert(texts(lines@) =~= opening_log(*config, stopped as nat, permitted, target_os@));
    lines
}

/// A shortcut of the listener, and why it is left out, if it is.
#[derive(Debug)]
pub struct Planned {
    pub kind: ShortcutKind,
    pub value: String,
    pub skipped: Option<String>,
}

/// The label a shortcut is logged under.
pub open spec fn kind_label(kind: ShortcutKind) -> Seq<char> {
    match kind {
        ShortcutKind::Dictation => "Dictation"@,
        ShortcutKind::Polish => "Polish"@,
        ShortcutKind::Spell => "Spell-fix"@,
    }
}

pub fn label(kind: ShortcutKind) -> (r: &'static str)
    ensures
        r@ == kind_label(kind),
{
    match kind {
        ShortcutKind::Dictation => "Dictation",
        ShortcutKind::Polish => "Polish",
        ShortcutKind::Spell => "Spell-fix",
    }
}

/// Whether these are the shortcuts of the listener: dictation, polish unless it is the same
/// as dictation, and spell-fix unless it is the same as either.
pub open spec fn is_plan(r: Seq<Planned>, config: Config, target_os: Seq<char>) -> bool {
    let control = control_of(target_os);
    let dictation = setting_or(config.shortcut, DEFAULT_SHORTCUT@);
    let polish = setting_or(config.polish_shortcut, DEFAULT_POLISH_SHORTCUT@);
    let spell = setting_or(config.spell_shortcut, DEFAULT_SPELL_SHORTCUT@);
    let polish_clashes = normal_form(polish, control) == normal_form(dictation, control);
    let spell_clashes = normal_form(spell, control) == normal_form(dictation, control)
        || normal_form(spell, control) == normal_form(polish, control);
    &&& r.len() == 3
    &&& r[0].kind == ShortcutKind::Dictation && r[0].value@ == dictation && r[0].skipped is None
    &&& r[1].kind == ShortcutKind::Polish && r[1].value@ == polish && opt_text(r[1].skipped) == (
    if polish_clashes {
        Some("Polish shortcut "@ + polish + " matches the dictation shortcut. Skipped."@)
    } else {
        None
    })
    &&& r[2].kind == ShortcutKind::Spell && r[2].value@ == spell && opt_text(r[2].skipped) == (
    if spell_clashes {
        Some("Spell-fix shortcut "@ + spell + " matches another shortcut. Skipped."@)
    } else {
        None
    })
}

pub fn plan(config: &Config, target_os: &str) -> (r: Vec<Planned>)
    ensures
        is_plan(r@, *config, target_os@),
{
    let dictation = config.shortcut_or_default();
    let polish = config.polish_shortcut_or_default();
    let spell = config.spell_shortcut_or_default();
    let dictation_key = normalize(dictation, target_os);
    let polish_key = normalize(polish, target_os);
    let spell_key = normalize(spell, target_os);
    let mut planned: Vec<Planned> = Vec::new();
    planned.push(
        Planned { kind: ShortcutKind::Dictation, value: dictation.to_owned(), skipped: None },
    );
    let skip_polish = if same(polish_key.as_str(), dictation_key.as_str()) {
        Some(
            "Polish shortcut ".to_owned().concat(polish).concat(
                " matches the dictation shortcut. Skipped.",
            ),
        )
    } else {
        None
    };
    planned.push(
        Planned { kind: ShortcutKind::Polish, value: polish.to_owned(), skipped: skip_polish },
    );
    let skip_spell = if same(spell_key.as_str(), dictation_key.as_str()) || same(
        spell_key.as_str(),
        polish_key.as_str(),
    ) {
        Some(
            "Spell-fix shortcut ".to_owned().concat(spell).concat(
                " matches another shortcut. Skipped.",
            ),
        )
    } else {
        None
    };
    planned.push(
        Planned { kind: ShortcutKind::Spell, value: spell.to_owned(), skipped: skip_spell },
    );
    planned
}

/// No combination is registered twice, however it is written: one press never fires two
/// jobs.
pub proof fn no_press_fires_twice(r: Seq<Planned>, config: Config, target_os: Seq<char>, i: int, j: int)
    requires
        is_plan(r, config, target_os),
        0 <= i < j < 3,
        r[i].skipped is None,
        r[j].skipped is None,
    ensures
        normal_form(r[i].value@, control_of(target_os)) != normal_form(
            r[j].value@,
            control_of(target_os),
        ),
{
}

/// What is logged of a registration. One bad shortcut is logged and skipped: it must not
/// take down the listener, which autostart would then restart in a silent loop.
pub fn registration_log(kind: ShortcutKind, value: &str, outcome: &Result<(), String>) -> (r: String)
    ensures
        r@ == (match outcome {
            Ok(_) => "Shortcut registered: "@ + value@,
            Err(e) => kind_label(kind) + " shortcut \""@ + value@ + "\" could not be registered: "@
                + e@,
        }),
{
    match outcome {
        Ok(_) => "Shortcut registered: ".to_owned().concat(value),
        Err(e) => label(kind).to_owned().concat(" shortcut \"").concat(value).concat(
            "\" could not be registered: ",
        ).concat(e.as_str()),
    }
}

/// Whether there is anything to listen for.
pub fn check_registered(registered: usize) -> (r: Result<(), String>)
    ensures
        r is Ok <==> registered > 0,
        r is Err ==> r->Err_0@
            == "No shortcuts could be registered. Nothing to listen for."@,
{
    if registered > 0 {
        Ok(())
    } else {
        Err("No shortcuts could be registered. Nothing to listen for.".to_owned())
    }
}

// -------------------------------------------------------------------------- running

/// What the listener does about a job.
#[derive(Debug, Clone, Copy, PartialEq, Eq, Structural)]
pub enum Action {
    Ignore,
    StartRecording,
    /// Stops the recording, transcribes it and pastes the words.
    FinishRecording,
    PolishSelection,
    SpellFocusedInput,
    /// Says that a shortcut is ignored while recording.
    IgnorePolish,
    IgnoreSpell,
}

pub open spec fn action_for(recording: bool, job: Job) -> Action {
    match job {
        Job::Dictation(HotkeyEvent::Down) => if recording {
            Action::Ignore
        } else {
            Action::StartRecording
        },
        Job::Dictation(HotkeyEvent::Up) => if recording {
            Action::FinishRecording
        } else {
            Action::Ignore
        },
        Job::PolishSelection => if recording {
            Action::IgnorePolish
        } else {
            Action::PolishSelection
        },
        Job::SpellFocusedInput => if recording {
            Action::IgnoreSpell
        } else {
            Action::SpellFocusedInput
        },
    }
}

/// Whether a recording is on after an action, given whether one could be started.
pub open spec fn recording_after(recording: bool, action: Action, started: bool) -> bool {
    match action {
        Action::StartRecording => started,
        Action::FinishRecording => false,
        _ => recording,
    }
}

pub fn next_action(recording: bool, job: Job) -> (r: Action)
    ensures
        r == action_for(recording, job),
{
    match job {
        Job::Dictation(HotkeyEvent::Down) => if recording {
            Action::Ignore
        } else {
            Action::StartRecording
        },
        Job::Dictation(HotkeyEvent::Up) => if recording {
            Action::FinishRecording
        } else {
            Action::Ignore
        },
        Job::PolishSelection => if recording {
            Action::IgnorePolish
        } else {
            Action::PolishSelection
        },
        Job::SpellFocusedInput => if recording {
            Action::IgnoreSpell
        } else {
            Action::SpellFocusedInput
        },
    }
}

pub open spec fn is_long(action: Action) -> bool {
    action == Action::FinishRecording || action == Action::PolishSelection || action
        == Action::SpellFocusedInput
}

/// Whether presses that arrived meanwhile are discarded afterwards: they would replay as
/// phantom recordings. Only after the long jobs, never straight after a press, so a real
/// release is never dropped.
pub fn drains_after(action: Action) -> (r: bool)
    ensures
        r == is_long(action),
{
    action == Action::FinishRecording || action == Action::PolishSelection || action
        == Action::SpellFocusedInput
}

/// At most one recording is on at a time, it is finished only where one is on, and nothing
/// else touches the focused app meanwhile.
pub proof fn one_recording_at_a_time(recording: bool, job: Job)
    ensures
        action_for(recording, job) == Action::StartRecording ==> !recording,
        action_for(recording, job) == Action::FinishRecording ==> recording,
        recording ==> action_for(recording, job) != Action::PolishSelection && action_for(
            recording,
            job,
        ) != Action::SpellFocusedInput,
{
}

/// While a recording is on nothing is drained but at its end: the release that ends it
/// always gets through.
pub proof fn a_release_is_never_dropped(recording: bool, job: Job, started: bool)
    requires
        recording_after(recording, action_for(recording, job), started),
    ensures
        !is_long(action_for(recording, job)),
        action_for(true, Job::Dictation(HotkeyEvent::Up)) == Action::FinishRecording,
{
}

/// How long each part of a dictation took, in milliseconds.
#[derive(Debug, Clone, Copy)]
pub struct Timing {
    pub transcribe: u64,
    pub polish: u64,
    pub save: u64,
    pub paste: u64,
    pub total: u64,
}

pub fn timing_note(t: &Timing) -> (r: String)
    ensures
        r@ == "Timing: transcribe "@ + decimal(t.transcribe as nat) + "ms, polish "@ + decimal(
            t.polish as nat,
        ) + "ms, save "@ + decimal(t.save as nat) + "ms, paste "@ + decimal(t.paste as nat)
            + "ms, total "@ + decimal(t.total as nat) + "ms."@,
{
    "Timing: transcribe ".to_owned().concat(to_decimal(t.transcribe).as_str()).concat(
        "ms, polish ",
    ).concat(to_decimal(t.polish).as_str()).concat("ms, save ").concat(
        to_decimal(t.save).as_str(),
    ).concat("ms, paste ").concat(to_decimal(t.paste).as_str()).concat("ms, total ").concat(
        to_decimal(t.total).as_str(),
    ).concat("ms.")
}

pub fn drain_note(dropped: u64) -> (r: Option<String>)
    ensures
        opt_text(r) == (if dropped > 0 {
            Some(
                "Ignored "@ + decimal(dropped as nat)
                    + " shortcut event(s) received while busy."@,
            )
        } else {
            None
        }),
{
    if dropped > 0 {
        Some(
            "Ignored ".to_owned().concat(to_decimal(dropped).as_str()).concat(
                " shortcut event(s) received while busy.",
            ),
        )
    } else {
        None
    }
}

/// What is logged when a recording starts.
pub fn recording_note(device: &Option<String>) -> (r: String)
    ensures
        r@ == "Recording from "@ + setting_or(*device, DEFAULT_DEVICE@)
            + "... release the shortcut to stop."@,
{
    let name: &str = match device {
        Some(name) => name.as_str(),
        None => DEFAULT_DEVICE,
    };
    "Recording from ".to_owned().concat(name).concat("... release the shortcut to stop.")
}

// ------------------------------------------------------------------------ finishing

/// Why a recording is thrown away.
pub open spec fn discard_reason(duration: u64, levels: Levels) -> Option<Seq<char>> {
    if duration < MIN_RECORDING {
        Some("Recording too short. Hold the shortcut while speaking, then release."@)
    } else if levels.silent() {
        Some(
            "Recording appears silent. Check System Settings > Sound > Input, and that this binary has microphone permission."@,
        )
    } else {
        None
    }
}

/// Whether a recording is worth transcribing.
pub fn check_recording(duration: u64, levels: &Levels) -> (r: Result<(), String>)
    ensures
        match r {
            Ok(_) => discard_reason(duration, *levels) is None,
            Err(e) => discard_reason(duration, *levels) == Some(e@),
        },
{
    if duration < MIN_RECORDING {
        return Err(
            "Recording too short. Hold the shortcut while speaking, then release.".to_owned(),
        );
    }
    if levels.is_silent() {
        return Err(
            "Recording appears silent. Check System Settings > Sound > Input, and that this binary has microphone permission.".to_owned(),
        );
    }
    Ok(())
}

/// Whether a transcript has any words.
pub fn check_transcript(text: &str) -> (r: Result<(), String>)
    ensures
        r is Ok <==> trimmed(text@).len() > 0,
        r is Err ==> r->Err_0@ == "Empty transcript returned."@,
{
    if trim(text).as_str().is_empty() {
        Err("Empty transcript returned.".to_owned())
    } else {
        Ok(())
    }
}

/// What is copied out of the focused app: the words of the clipboard without the space
/// around them.
pub fn copied_text(clipboard: &str) -> (r: String)
    ensures
        r@ == trimmed(clipboard@),
{
    trim(clipboard)
}

/// Whether there is anything to rewrite, for the shortcut that was pressed.
pub fn check_copied(text: &str, action: Action) -> (r: Result<(), String>)
    requires
        action == Action::PolishSelection || action == Action::SpellFocusedInput,
    ensures
        r is Ok <==> text@.len() > 0,
        r is Err ==> r->Err_0@ == (if action == Action::PolishSelection {
            "Select text first, then press the polish shortcut."@
        } else {
            "Focus an editable text field with content first, then press the spell-fix shortcut."@
        }),
{
    if !text.is_empty() {
        return Ok(());
    }
    if action == Action::PolishSelection {
        Err("Select text first, then press the polish shortcut.".to_owned())
    } else {
        Err(
            "Focus an editable text field with content first, then press the spell-fix shortcut.".to_owned(),
        )
    }
}

/// The mode and the source that a rewrite shortcut stands for.
pub fn rewrite_kind(action: Action) -> (r: Option<(RewriteMode, &'static str)>)
    ensures
        match r {
            Some((mode, source)) => {
                ||| action == Action::PolishSelection && mode == RewriteMode::Polish && source@
                    == "polish-shortcut"@
                ||| action == Action::SpellFocusedInput && mode == RewriteMode::Spell && source@
                    == "spell-shortcut"@
            },
            None => action != Action::PolishSelection && action != Action::SpellFocusedInput,
        },
{
    match action {
        Action::PolishSelection => Some((RewriteMode::Polish, "polish-shortcut")),
        Action::SpellFocusedInput => Some((RewriteMode::Spell, "spell-shortcut")),
        _ => None,
    }
}

/// While no recording is on, a press does what its shortcut is for: dictation starts a
/// recording, polish polishes the selection, spell-fix fixes the focused field. Letting go of a
/// key does nothing then.
pub proof fn a_press_does_what_its_shortcut_is_for(kind: ShortcutKind, event: HotkeyEvent)
    ensures
        event == HotkeyEvent::Down ==> job_of(kind, event) is Some,
        job_of(kind, event) is Some ==> ({
            let action = action_for(false, job_of(kind, event)->0);
            &&& action == Action::StartRecording <==> kind == ShortcutKind::Dictation && event
                == HotkeyEvent::Down
            &&& action == Action::PolishSelection <==> kind == ShortcutKind::Polish && event
                == HotkeyEvent::Down
            &&& action == Action::SpellFocusedInput <==> kind == ShortcutKind::Spell && event
                == HotkeyEvent::Down
            &&& action == Action::Ignore <==> event == HotkeyEvent::Up
        }),
{
}

/// Every job that is done while no recording is on is the one that was asked for.
pub proof fn an_idle_listener_does_what_is_asked(job: Job)
    ensures
        action_for(false, job) == Action::PolishSelection <==> job == Job::PolishSelection,
        action_for(false, job) == Action::SpellFocusedInput <==> job == Job::SpellFocusedInput,
        action_for(false, job) == Action::StartRecording <==> job == Job::Dictation(
            HotkeyEvent::Down,
        ),
        action_for(false, job) == Action::Ignore <==> job == Job::Dictation(HotkeyEvent::Up),
{
}

/// While a recording is on, only letting go of the dictation key ends it, and each of the other
/// shortcuts is turned away under its own name.
pub proof fn a_recording_is_not_disturbed(kind: ShortcutKind, event: HotkeyEvent, started: bool)
    requires
        job_of(kind, event) is Some,
    ensures
        ({
            let action = action_for(true, job_of(kind, event)->0);
            &&& action == Action::FinishRecording <==> kind == ShortcutKind::Dictation && event
                == HotkeyEvent::Up
            &&& action == Action::IgnorePolish <==> kind == ShortcutKind::Polish
            &&& action == Action::IgnoreSpell <==> kind == ShortcutKind::Spell
            &&& recording_after(true, action, started) <==> !(kind == ShortcutKind::Dictation
                && event == HotkeyEvent::Up)
        }),
{
}

/// Holding the dictation key records for as long as it is held: the press turns recording on
/// where the recorder starts, a repeated press changes nothing, and the release turns it off.
pub proof fn a_recording_lasts_as_long_as_the_key_is_held(started: bool)
    ensures
        ({
            let down = Job::Dictation(HotkeyEvent::Down);
            let up = Job::Dictation(HotkeyEvent::Up);
            let held = recording_after(false, action_for(false, down), started);
            &&& held == started
            &&& recording_after(held, action_for(held, down), started) == held
            &&& !recording_after(held, action_for(held, up), started)
        }),
{
}

/// What is too short or silent is never kept, and everything else is.
pub proof fn only_short_or_silent_recordings_are_dropped(duration: u64, levels: Levels)
    ensures
        discard_reason(duration, levels) is None <==> duration >= 500_000 && !levels.silent(),
{
}

/// All three shortcuts are planned, each with what was set for it. Dictation is never skipped, and
/// another one exactly where a shortcut before it is the same.
pub proof fn a_shortcut_is_skipped_only_for_another(
    r: Seq<Planned>,
    config: Config,
    target_os: Seq<char>,
)
    requires
        is_plan(r, config, target_os),
    ensures
        ({
            let control = control_of(target_os);
            let form = |k: int| normal_form(r[k].value@, control);
            &&& r.len() == 3
            &&& r[0].kind == ShortcutKind::Dictation && r[1].kind == ShortcutKind::Polish && r[2].kind
                == ShortcutKind::Spell
            &&& config.shortcut is Some ==> r[0].value@ == config.shortcut->0@
            &&& config.polish_shortcut is Some ==> r[1].value@ == config.polish_shortcut->0@
            &&& config.spell_shortcut is Some ==> r[2].value@ == config.spell_shortcut->0@
            &&& r[0].skipped is None
            &&& r[1].skipped is Some <==> form(1) == form(0)
            &&& r[2].skipped is Some <==> form(2) == form(0) || form(2) == form(1)
        }),
{
}

/// The log of a listener begins with what it listens with: its provider, its model, its shortcut.
pub proof fn the_log_begins_with_the_settings(
    config: Config,
    stopped: nat,
    permitted: bool,
    target_os: Seq<char>,
)
    ensures
        ({
            let log = opening_log(config, stopped, permitted, target_os);
            let from = if stopped > 0 {
                1int
            } else {
                0
            };
            &&& config.provider is Some ==> log[from + 1] == "Provider: "@
                + config.provider->0.name()
            &&& config.model is Some ==> log[from + 2] == "Model: "@ + config.model->0@
            &&& config.shortcut is Some ==> log[from + 3] == "Shortcut: "@ + config.shortcut->0@
            &&& log.len() == from + 4 + (if permitted {
                0int
            } else {
                1
            })
        }),
{
}

} // verus!
