//! The dictation commands: what they read out of their arguments, what they change in the
//! settings, and what they say.
use vstd::prelude::*;
use crate::audio::{DEFAULT_DEVICE, DeviceProbe, Levels, choose_device, chosen_device};
use crate::config::{
    Config, DEFAULT_DUCKING_VOLUME, DEFAULT_POLISH_MODEL, DEFAULT_POLISH_SHORTCUT,
    DEFAULT_SHORTCUT, DEFAULT_SPELL_SHORTCUT, Provider, key_named, setting_or,
};
use crate::moment::{MILLIS_FORM, is_moment};
use crate::number::{decimal, to_decimal};
use crate::polish::RewriteMode;
use crate::report::{Line, LineView, Report};
use crate::shortcut::{ShortcutError, is_refusal, is_valid, validate_with};
use crate::storage::{
    Transcript, TranscriptView, history_view, is_uuid, recorded, save_transcript,
};
use crate::text::{
    copy_list, join, join_texts, lowercase_of, opt_text, same, texts, texts_of_push, to_lowercase,
    trim, trimmed,
};
use crate::verify::VerifyResult;

verus! {

broadcast use texts_of_push;

pub const RESTART_HINT: &'static str = "Restart the listener to pick it up: wisper restart";

/// Words put together as one text.
pub open spec fn joined(args: Seq<Seq<char>>, separator: Seq<char>) -> Seq<char> {
    trimmed(join(args, separator))
}

/// The arguments after the first.
pub open spec fn rest_of(args: Seq<Seq<char>>) -> Seq<Seq<char>> {
    if args.len() > 0 {
        args.drop_first()
    } else {
        args
    }
}

pub fn rest(args: &Vec<String>) -> (r: Vec<String>)
    ensures
        texts(r@) == rest_of(texts(args@)),
{
    let ghost all = texts(args@);
    let mut r: Vec<String> = Vec::new();
    let mut i: usize = 1;
    assert(texts(r@) =~= rest_of(all).take(0));
    while i < args.len()
        invariant
            1 <= i,
            args.len() > 0 ==> i <= args.len(),
            all == texts(args@),
            args.len() > 0 ==> texts(r@) == rest_of(all).take(i - 1),
            args.len() == 0 ==> r.len() == 0,
        decreases args.len() - i,
    {
        r.push(args[i].clone());
        assert(rest_of(all)[i - 1] == args@[i as int]@);
        assert(rest_of(all).take(i as int) =~= rest_of(all).take(i - 1).push(args@[i as int]@));
        i = i + 1;
    }
    assert(texts(r@) =~= rest_of(all));
    r
}

/// The first argument in lower case, or else what is meant without one.
pub open spec fn action_of(args: Seq<Seq<char>>, otherwise: Seq<char>) -> Seq<char> {
    if args.len() > 0 {
        lowercase_of(args[0])
    } else {
        otherwise
    }
}

pub fn read_action(args: &Vec<String>, otherwise: &str) -> (r: String)
    ensures
        r@ == action_of(texts(args@), otherwise@),
{
    if args.len() > 0 {
        to_lowercase(args[0].as_str())
    } else {
        otherwise.to_owned()
    }
}

pub open spec fn means_on(action: Seq<char>) -> bool {
    action == "on"@ || action == "enable"@ || action == "enabled"@
}

pub open spec fn means_off(action: Seq<char>) -> bool {
    action == "off"@ || action == "disable"@ || action == "disabled"@
}

pub fn is_on(action: &str) -> (r: bool)
    ensures
        r == means_on(action@),
{
    same(action, "on") || same(action, "enable") || same(action, "enabled")
}

pub fn is_off(action: &str) -> (r: bool)
    ensures
        r == means_off(action@),
{
    same(action, "off") || same(action, "disable") || same(action, "disabled")
}

pub open spec fn or_else(value: Option<String>, otherwise: Seq<char>) -> Seq<char> {
    setting_or(value, otherwise)
}

fn text_or<'a>(value: &'a Option<String>, otherwise: &'static str) -> (r: &'a str)
    ensures
        r@ == or_else(*value, otherwise@),
{
    match value {
        Some(v) => v.as_str(),
        None => otherwise,
    }
}

pub open spec fn enabled_word(on: bool) -> Seq<char> {
    if on {
        "enabled"@
    } else {
        "disabled"@
    }
}

pub fn enabled_text(on: bool) -> (r: &'static str)
    ensures
        r@ == enabled_word(on),
{
    if on {
        "enabled"
    } else {
        "disabled"
    }
}

// -------------------------------------------------------------------------- status

pub open spec fn provider_word(provider: Option<Provider>) -> Seq<char> {
    match provider {
        Some(p) => p.name(),
        None => "not set"@,
    }
}

pub open spec fn ducking_word(config: Config) -> Seq<char> {
    if config.audio_ducking == Some(false) {
        "disabled"@
    } else {
        "enabled at "@ + decimal(
            match config.audio_ducking_volume {
                Some(v) => v as nat,
                None => DEFAULT_DUCKING_VOLUME as nat,
            },
        ) + "%"@
    }
}

/// The current setup.
pub open spec fn status_lines(config: Config) -> Seq<LineView> {
    seq![
        LineView::Heading("Wisper setup"@),
        LineView::Field("Provider"@, provider_word(config.provider)),
        LineView::Field("Model"@, or_else(config.model, "not set"@)),
        LineView::Field("Shortcut"@, or_else(config.shortcut, "not set"@)),
        LineView::Field("Microphone"@, or_else(config.audio_device, "default"@)),
        LineView::Field(
            "API key"@,
            if config.configured() {
                "saved"@
            } else {
                "not set"@
            },
        ),
        LineView::Field("Auto polish"@, enabled_word(config.auto_polish == Some(true))),
        LineView::Field(
            "Polish shortcut"@,
            setting_or(config.polish_shortcut, DEFAULT_POLISH_SHORTCUT@),
        ),
        LineView::Field(
            "Spell-fix shortcut"@,
            setting_or(config.spell_shortcut, DEFAULT_SPELL_SHORTCUT@),
        ),
        LineView::Field("Audio ducking"@, ducking_word(config)),
        LineView::Field(
            "Autostart"@,
            if config.autostart == Some(true) {
                "enabled"@
            } else {
                "not enabled"@
            },
        ),
        LineView::Field("Auto update"@, enabled_word(config.auto_update != Some(false))),
    ]
}

pub fn status(config: &Config) -> (r: Report)
    ensures
        r@ == status_lines(*config),
{
    let mut r = Report::new();
    r.heading("Wisper setup");
    r.field(
        "Provider",
        match config.provider {
            Some(p) => p.as_str(),
            None => "not set",
        },
    );
    r.field("Model", text_or(&config.model, "not set"));
    r.field("Shortcut", text_or(&config.shortcut, "not set"));
    r.field("Microphone", text_or(&config.audio_device, "default"));
    r.field(
        "API key",
        if config.is_configured() {
            "saved"
        } else {
            "not set"
        },
    );
    r.field("Auto polish", enabled_text(config.auto_polish == Some(true)));
    r.field("Polish shortcut", config.polish_shortcut_or_default());
    r.field("Spell-fix shortcut", config.spell_shortcut_or_default());
    let ducking = if config.audio_ducking == Some(false) {
        "disabled".to_owned()
    } else {
        let volume: u8 = match config.audio_ducking_volume {
            Some(v) => v,
            None => DEFAULT_DUCKING_VOLUME,
        };
        "enabled at ".to_owned().concat(to_decimal(volume as u64).as_str()).concat("%")
    };
    r.field("Audio ducking", ducking.as_str());
    r.field(
        "Autostart",
        if config.autostart == Some(true) {
            "enabled"
        } else {
            "not enabled"
        },
    );
    r.field("Auto update", enabled_text(config.auto_update != Some(false)));
    assert(r@ =~= status_lines(*config));
    r
}

pub open spec fn shortcut_lines(config: Config) -> Seq<LineView> {
    seq![
        LineView::Heading("Shortcuts"@),
        LineView::Field("Dictation"@, setting_or(config.shortcut, DEFAULT_SHORTCUT@)),
        LineView::Field(
            "Polish selection"@,
            setting_or(config.polish_shortcut, DEFAULT_POLISH_SHORTCUT@),
        ),
        LineView::Field(
            "Spell-fix input"@,
            setting_or(config.spell_shortcut, DEFAULT_SPELL_SHORTCUT@),
        ),
        LineView::Blank,
        LineView::Heading("Supported keys"@),
        LineView::Info("Windows: A-Z, 0-9, Space, Tab, Enter, Esc, F1-F24"@),
        LineView::Info("macOS:   A-Z, 0-9, Space, Tab, Enter, Esc, F1-F20"@),
        LineView::Info("Both also accept modifier-only combos, e.g. Ctrl+Command"@),
        LineView::Blank,
        LineView::Heading("Examples"@),
        LineView::Info("wisper shortcut F15"@),
        LineView::Info("wisper shortcut Ctrl+Alt+Space"@),
        LineView::Info("wisper polish shortcut F16"@),
        LineView::Info("wisper spell shortcut CommandOrControl+Alt+S"@),
        LineView::Blank,
        LineView::Hint(
            "F13-F24 often cannot be captured inside a terminal. Type them directly."@,
        ),
    ]
}

/// The configured shortcuts and the keys each platform supports.
pub fn shortcuts(config: &Config) -> (r: Report)
    ensures
        r@ == shortcut_lines(*config),
{
    let mut r = Report::new();
    r.heading("Shortcuts");
    r.field("Dictation", config.shortcut_or_default());
    r.field("Polish selection", config.polish_shortcut_or_default());
    r.field("Spell-fix input", config.spell_shortcut_or_default());
    r.blank();
    r.heading("Supported keys");
    r.info("Windows: A-Z, 0-9, Space, Tab, Enter, Esc, F1-F24");
    r.info("macOS:   A-Z, 0-9, Space, Tab, Enter, Esc, F1-F20");
    r.info("Both also accept modifier-only combos, e.g. Ctrl+Command");
    r.blank();
    r.heading("Examples");
    r.info("wisper shortcut F15");
    r.info("wisper shortcut Ctrl+Alt+Space");
    r.info("wisper polish shortcut F16");
    r.info("wisper spell shortcut CommandOrControl+Alt+S");
    r.blank();
    r.hint("F13-F24 often cannot be captured inside a terminal. Type them directly.");
    assert(r@ =~= shortcut_lines(*config));
    r
}

// ------------------------------------------------------------------------- history

pub open spec fn shown_count(len: nat, limit: Option<usize>) -> nat {
    let most = match limit {
        Some(n) => n as nat,
        None => 20,
    };
    if len < most {
        len
    } else {
        most
    }
}

pub open spec fn history_lines(history: Seq<TranscriptView>, limit: Option<usize>) -> Seq<LineView> {
    if history.len() == 0 {
        seq![LineView::Info("No transcripts yet."@)]
    } else {
        Seq::new(
            shown_count(history.len(), limit),
            |i: int| LineView::Plain(history[i].created_at + "  "@ + history[i].text),
        )
    }
}

/// The newest transcripts, twenty unless another number is asked for.
pub fn history(items: &Vec<Transcript>, limit: Option<usize>) -> (r: Report)
    ensures
        r@ == history_lines(history_view(items@), limit),
{
    let mut r = Report::new();
    if items.len() == 0 {
        r.info("No transcripts yet.");
        assert(r@ =~= history_lines(history_view(items@), limit));
        return r;
    }
    let most: usize = match limit {
        Some(n) => n,
        None => 20,
    };
    let count: usize = if items.len() < most {
        items.len()
    } else {
        most
    };
    let ghost all = history_lines(history_view(items@), limit);
    let mut i: usize = 0;
    assert(r@ =~= all.take(0));
    while i < count
        invariant
            i <= count <= items.len(),
            items.len() > 0,
            all == history_lines(history_view(items@), limit),
            all.len() == count,
            r@ == all.take(i as int),
        decreases count - i,
    {
        r.plain(
            items[i].created_at.clone().concat("  ").concat(items[i].text.as_str()).as_str(),
        );
        assert(all.take(i + 1) =~= all.take(i as int).push(all[i as int]));
        i = i + 1;
    }
    assert(all.take(count as int) =~= all);
    r
}

/// Saves a transcript by hand.
pub fn add(history: Vec<Transcript>, args: &Vec<String>) -> (r: Result<
    (Vec<Transcript>, Report),
    String,
>)
    ensures
        match r {
            Ok((after, report)) => {
                &&& joined(texts(args@), " "@).len() > 0
                &&& exists|item: Transcript|
                    #![trigger item@]
                    item@.text == joined(texts(args@), " "@) && item@.source == Some("manual"@)
                        && is_uuid(item@.id) && is_moment(item@.created_at, MILLIS_FORM@)
                        && history_view(after@) == recorded(history_view(history@), item@)
                        && report@ == seq![LineView::Success("Saved transcript "@ + item@.id)]
            },
            Err(e) => joined(texts(args@), " "@).len() == 0 && e@
                == "Usage: wisper add \"text\""@,
        },
{
    let text = trim(join_texts(args, " ").as_str());
    if text.as_str().is_empty() {
        return Err("Usage: wisper add \"text\"".to_owned());
    }
    let (after, item) = save_transcript(history, text.as_str(), "manual");
    let report = Report::of(
        Line::Success("Saved transcript ".to_owned().concat(item.id.as_str())),
    );
    assert(item@.text == joined(texts(args@), " "@));
    Ok((after, report))
}

// ----------------------------------------------------------------------- shortcuts

/// Which shortcut is set.
#[derive(Debug, Clone, Copy, PartialEq, Eq, Structural)]
pub enum ShortcutKind {
    Dictation,
    Polish,
    Spell,
}

impl ShortcutKind {
    pub open spec fn name(self) -> Seq<char> {
        match self {
            ShortcutKind::Dictation => "dictation"@,
            ShortcutKind::Polish => "polish"@,
            ShortcutKind::Spell => "spell"@,
        }
    }

    pub fn as_str(&self) -> (r: &'static str)
        ensures
            r@ == self.name(),
    {
        match self {
            ShortcutKind::Dictation => "dictation",
            ShortcutKind::Polish => "polish",
            ShortcutKind::Spell => "spell",
        }
    }
}

/// Whether `after` is `before` with one shortcut set, and nothing else changed.
pub open spec fn has_shortcut_set(
    before: Config,
    after: Config,
    kind: ShortcutKind,
    value: Seq<char>,
) -> bool {
    match kind {
        ShortcutKind::Dictation => after == (Config { shortcut: after.shortcut, ..before })
            && opt_text(after.shortcut) == Some(value),
        ShortcutKind::Polish => after == (Config { polish_shortcut: after.polish_shortcut, ..before })
            && opt_text(after.polish_shortcut) == Some(value),
        ShortcutKind::Spell => after == (Config { spell_shortcut: after.spell_shortcut, ..before })
            && opt_text(after.spell_shortcut) == Some(value),
    }
}

/// What storing a shortcut comes to: it is valid and set, or it is refused and nothing
/// changes.
pub open spec fn is_stored(
    r: Result<Report, String>,
    before: Config,
    after: Config,
    kind: ShortcutKind,
    value: Seq<char>,
    target_os: Seq<char>,
) -> bool {
    match r {
        Ok(report) => {
            &&& is_valid(value, target_os)
            &&& has_shortcut_set(before, after, kind, value)
            &&& report@ == seq![
                LineView::Success(kind.name() + " shortcut set to "@ + value + "."@),
                LineView::Hint(RESTART_HINT@),
            ]
        },
        Err(e) => {
            &&& !is_valid(value, target_os)
            &&& after == before
            &&& exists|error: ShortcutError|
                e@ == error.text() && #[trigger] is_refusal(error, value, target_os)
        },
    }
}

/// Shared by all three setters: validates before writing, so a key that cannot be registered
/// never reaches the settings to break the listener at its next start.
pub fn store_shortcut(config: &mut Config, kind: ShortcutKind, value: &str, target_os: &str) -> (r:
    Result<Report, String>)
    ensures
        is_stored(r, *old(config), *final(config), kind, value@, target_os@),
{
    match validate_with(value, target_os) {
        Ok(_) => {},
        Err(e) => {
            let message = e.message();
            assert(message@ == e.text() && is_refusal(e, value@, target_os@));
            return Err(message);
        },
    }
    match kind {
        ShortcutKind::Dictation => {
            config.shortcut = Some(value.to_owned());
        },
        ShortcutKind::Polish => {
            config.polish_shortcut = Some(value.to_owned());
        },
        ShortcutKind::Spell => {
            config.spell_shortcut = Some(value.to_owned());
        },
    }
    let mut report = Report::new();
    report.success(
        kind.as_str().to_owned().concat(" shortcut set to ").concat(value).concat(".").as_str(),
    );
    report.hint(RESTART_HINT);
    assert(report@ =~= seq![
        LineView::Success(kind.name() + " shortcut set to "@ + value@ + "."@),
        LineView::Hint(RESTART_HINT@),
    ]);
    Ok(report)
}

/// The shortcut that is given as arguments. `None` where it has to be asked for.
pub fn given_shortcut(keys: &Vec<String>) -> (r: Option<String>)
    ensures
        opt_text(r) == (if joined(texts(keys@), "+"@).len() > 0 {
            Some(joined(texts(keys@), "+"@))
        } else {
            None
        }),
{
    let direct = trim(join_texts(keys, "+").as_str());
    if direct.as_str().is_empty() {
        None
    } else {
        Some(direct)
    }
}

/// What is used of a shortcut command: its arguments, or else what was asked for.
pub open spec fn wanted_shortcut(keys: Seq<Seq<char>>, asked: Seq<char>) -> Seq<char> {
    if joined(keys, "+"@).len() > 0 {
        joined(keys, "+"@)
    } else {
        asked
    }
}

/// Sets the dictation shortcut to its arguments, or else to the one that was asked for.
pub fn set_shortcut(config: &mut Config, keys: &Vec<String>, asked: &str, target_os: &str) -> (r:
    Result<Report, String>)
    ensures
        is_stored(
            r,
            *old(config),
            *final(config),
            ShortcutKind::Dictation,
            wanted_shortcut(texts(keys@), asked@),
            target_os@,
        ),
{
    match given_shortcut(keys) {
        Some(direct) => store_shortcut(
            config,
            ShortcutKind::Dictation,
            direct.as_str(),
            target_os,
        ),
        None => store_shortcut(config, ShortcutKind::Dictation, asked, target_os),
    }
}

/// What pressing a shortcut came to: the captured one, or that it has to be typed. Esc while
/// capturing means "let me type it", which is also the only way to enter modifiers alone,
/// and the way out when a terminal swallows the key.
pub fn ask_shortcut(captured: Result<Option<String>, String>) -> (r: (Option<String>, Report))
    ensures
        match captured {
            Ok(Some(shortcut)) => opt_text(r.0) == Some(shortcut@) && r.1@ == seq![
                LineView::Success("Captured "@ + shortcut@ + "."@),
            ],
            Ok(None) => r.0 is None && r.1@ == Seq::<LineView>::empty(),
            Err(e) => r.0 is None && r.1@ == seq![
                LineView::Warn("Key capture unavailable ("@ + e@ + "). Type it instead."@),
            ],
        },
{
    match captured {
        Ok(Some(shortcut)) => {
            let report = Report::of(
                Line::Success("Captured ".to_owned().concat(shortcut.as_str()).concat(".")),
            );
            (Some(shortcut), report)
        },
        Ok(None) => (None, Report::new()),
        Err(e) => (
            None,
            Report::of(
                Line::Warn(
                    "Key capture unavailable (".to_owned().concat(e.as_str()).concat(
                        "). Type it instead.",
                    ),
                ),
            ),
        ),
    }
}

// -------------------------------------------------------------------- polish, spell

/// What a polish command asks for.
#[derive(Debug)]
pub enum PolishAction {
    Status,
    /// The shortcut to set, where it was given.
    Shortcut(Option<String>),
    On,
    Off,
    Rewrite(RewriteMode, String),
}

/// The mode and the words of a rewrite. A first word that names no mode is part of the text.
pub open spec fn rewrite_of(action: Seq<char>, args: Seq<Seq<char>>) -> (RewriteMode, Seq<char>) {
    match RewriteMode::named(action) {
        Some(mode) => (mode, joined(rest_of(args), " "@)),
        None => (RewriteMode::Polish, joined(args, " "@)),
    }
}

pub open spec fn is_polish_action(
    r: PolishAction,
    action: Seq<char>,
    args: Seq<Seq<char>>,
) -> bool {
    match r {
        PolishAction::Status => action.len() == 0 || action == "status"@,
        PolishAction::Shortcut(given) => action == "shortcut"@ && opt_text(given) == (if joined(
            rest_of(args),
            "+"@,
        ).len() > 0 {
            Some(joined(rest_of(args), "+"@))
        } else {
            None
        }),
        PolishAction::On => means_on(action),
        PolishAction::Off => means_off(action),
        PolishAction::Rewrite(mode, text) => {
            &&& polish_takes_text(action)
            &&& (mode, text@) == rewrite_of(action, args)
            &&& text@.len() > 0
        },
    }
}

/// Whether a polish command that starts with `action` can only be a text to rewrite: it is
/// not bare, and no word of its own.
pub open spec fn polish_takes_text(action: Seq<char>) -> bool {
    &&& action.len() > 0 && action != "status"@ && action != "shortcut"@
    &&& !means_on(action) && !means_off(action)
}

/// What the arguments of a polish command ask for, given the first of them in lower case.
pub fn polish_action_of(action: &str, args: &Vec<String>) -> (r: Result<PolishAction, String>)
    ensures
        match r {
            Ok(a) => is_polish_action(a, action@, texts(args@)),
            Err(e) => {
                &&& polish_takes_text(action@)
                &&& rewrite_of(action@, texts(args@)).1.len() == 0
                &&& e@ == "Usage: wisper polish \"text\" or wisper polish on|off|status|shortcut"@
            },
        },
{
    if action.is_empty() || same(action, "status") {
        return Ok(PolishAction::Status);
    }
    if same(action, "shortcut") {
        return Ok(PolishAction::Shortcut(given_shortcut(&rest(args))));
    }
    if is_on(action) {
        return Ok(PolishAction::On);
    }
    if is_off(action) {
        return Ok(PolishAction::Off);
    }
    let (mode, text) = match RewriteMode::from_name(action) {
        Some(mode) => (mode, trim(join_texts(&rest(args), " ").as_str())),
        None => (RewriteMode::Polish, trim(join_texts(args, " ").as_str())),
    };
    if text.as_str().is_empty() {
        return Err(
            "Usage: wisper polish \"text\" or wisper polish on|off|status|shortcut".to_owned(),
        );
    }
    Ok(PolishAction::Rewrite(mode, text))
}

pub fn polish_action(args: &Vec<String>) -> (r: Result<PolishAction, String>)
    ensures
        match r {
            Ok(a) => is_polish_action(a, action_of(texts(args@), Seq::<char>::empty()), texts(args@)),
            Err(e) => {
                let action = action_of(texts(args@), Seq::<char>::empty());
                &&& polish_takes_text(action)
                &&& rewrite_of(action, texts(args@)).1.len() == 0
                &&& e@ == "Usage: wisper polish \"text\" or wisper polish on|off|status|shortcut"@
            },
        },
{
    proof {
        reveal_strlit("");
        assert(""@ =~= Seq::<char>::empty());
    }
    polish_action_of(read_action(args, "").as_str(), args)
}

pub open spec fn polish_status_lines(config: Config) -> Seq<LineView> {
    seq![
        LineView::Field("Auto polish"@, enabled_word(config.auto_polish == Some(true))),
        LineView::Field(
            "Polish model"@,
            setting_or(config.polish_model, DEFAULT_POLISH_MODEL@),
        ),
        LineView::Field(
            "Polish shortcut"@,
            setting_or(config.polish_shortcut, DEFAULT_POLISH_SHORTCUT@),
        ),
        LineView::Field(
            "Groq key"@,
            if config.key(Provider::Groq) is Some {
                "saved"@
            } else {
                "not set"@
            },
        ),
    ]
}

pub fn polish_status(config: &Config) -> (r: Report)
    ensures
        r@ == polish_status_lines(*config),
{
    let mut r = Report::new();
    r.field("Auto polish", enabled_text(config.auto_polish == Some(true)));
    r.field("Polish model", config.polish_model_or_default());
    r.field("Polish shortcut", config.polish_shortcut_or_default());
    r.field(
        "Groq key",
        if config.key_for(Provider::Groq).is_some() {
            "saved"
        } else {
            "not set"
        },
    );
    assert(r@ =~= polish_status_lines(*config));
    r
}

/// Whether polishing can be switched on, or a key has to be asked for first.
pub fn needs_polish_key(config: &Config) -> (r: bool)
    ensures
        r == (config.key(Provider::Groq) is None),
{
    config.key_for(Provider::Groq).is_none()
}

pub fn enable_polish(config: &mut Config) -> (r: Report)
    ensures
        *final(config) == (Config {
            auto_polish: Some(true),
            polish_model: final(config).polish_model,
            ..*old(config)
        }),
        opt_text(final(config).polish_model) == Some(DEFAULT_POLISH_MODEL@),
        r@ == seq![
            LineView::Success(
                "Auto polish enabled. Dictation will be polished before paste."@,
            ),
            LineView::Hint(RESTART_HINT@),
        ],
{
    config.auto_polish = Some(true);
    config.polish_model = Some(DEFAULT_POLISH_MODEL.to_owned());
    let mut r = Report::new();
    r.success("Auto polish enabled. Dictation will be polished before paste.");
    r.hint(RESTART_HINT);
    assert(r@ =~= seq![
        LineView::Success("Auto polish enabled. Dictation will be polished before paste."@),
        LineView::Hint(RESTART_HINT@),
    ]);
    r
}

pub fn disable_polish(config: &mut Config) -> (r: Report)
    ensures
        *final(config) == (Config { auto_polish: Some(false), ..*old(config) }),
        r@ == seq![LineView::Success("Auto polish disabled."@), LineView::Hint(RESTART_HINT@)],
{
    config.auto_polish = Some(false);
    let mut r = Report::new();
    r.success("Auto polish disabled.");
    r.hint(RESTART_HINT);
    assert(r@ =~= seq![
        LineView::Success("Auto polish disabled."@),
        LineView::Hint(RESTART_HINT@),
    ]);
    r
}

/// What a spell command asks for.
#[derive(Debug)]
pub enum SpellAction {
    Status,
    Shortcut(Option<String>),
    Rewrite(String),
}

pub open spec fn is_spell_action(r: SpellAction, action: Seq<char>, args: Seq<Seq<char>>) -> bool {
    match r {
        SpellAction::Status => action.len() == 0 || action == "status"@,
        SpellAction::Shortcut(given) => action == "shortcut"@ && opt_text(given) == (if joined(
            rest_of(args),
            "+"@,
        ).len() > 0 {
            Some(joined(rest_of(args), "+"@))
        } else {
            None
        }),
        SpellAction::Rewrite(text) => {
            &&& spell_takes_text(action)
            &&& text@ == joined(args, " "@)
            &&& text@.len() > 0
        },
    }
}

/// Whether a spell command that starts with `action` can only be a text to rewrite.
pub open spec fn spell_takes_text(action: Seq<char>) -> bool {
    action.len() > 0 && action != "status"@ && action != "shortcut"@
}

pub fn spell_action_of(action: &str, args: &Vec<String>) -> (r: Result<SpellAction, String>)
    ensures
        match r {
            Ok(a) => is_spell_action(a, action@, texts(args@)),
            Err(e) => {
                &&& spell_takes_text(action@)
                &&& joined(texts(args@), " "@).len() == 0
                &&& e@ == "Usage: wisper spell \"text\" or wisper spell shortcut [key]"@
            },
        },
{
    if action.is_empty() || same(action, "status") {
        return Ok(SpellAction::Status);
    }
    if same(action, "shortcut") {
        return Ok(SpellAction::Shortcut(given_shortcut(&rest(args))));
    }
    let text = trim(join_texts(args, " ").as_str());
    if text.as_str().is_empty() {
        return Err("Usage: wisper spell \"text\" or wisper spell shortcut [key]".to_owned());
    }
    Ok(SpellAction::Rewrite(text))
}

pub fn spell_action(args: &Vec<String>) -> (r: Result<SpellAction, String>)
    ensures
        match r {
            Ok(a) => is_spell_action(a, action_of(texts(args@), Seq::<char>::empty()), texts(args@)),
            Err(e) => {
                &&& spell_takes_text(action_of(texts(args@), Seq::<char>::empty()))
                &&& joined(texts(args@), " "@).len() == 0
                &&& e@ == "Usage: wisper spell \"text\" or wisper spell shortcut [key]"@
            },
        },
{
    proof {
        reveal_strlit("");
        assert(""@ =~= Seq::<char>::empty());
    }
    spell_action_of(read_action(args, "").as_str(), args)
}

pub fn spell_status(config: &Config) -> (r: Report)
    ensures
        r@ == seq![
            LineView::Field(
                "Spell-fix shortcut"@,
                setting_or(config.spell_shortcut, DEFAULT_SPELL_SHORTCUT@),
            ),
            LineView::Info(
                "Selects all text in the focused input, fixes spelling only, replaces it."@,
            ),
        ],
{
    let mut r = Report::new();
    r.field("Spell-fix shortcut", config.spell_shortcut_or_default());
    r.info("Selects all text in the focused input, fixes spelling only, replaces it.");
    assert(r@ =~= seq![
        LineView::Field(
            "Spell-fix shortcut"@,
            setting_or(config.spell_shortcut, DEFAULT_SPELL_SHORTCUT@),
        ),
        LineView::Info("Selects all text in the focused input, fixes spelling only, replaces it."@),
    ]);
    r
}

// ---------------------------------------------------------------------- microphone

/// The devices to choose from: the default, and those that were found. None is offered where
/// no device was found.
pub fn microphone_choices(devices: &Vec<String>) -> (r: Result<Vec<String>, String>)
    ensures
        match r {
            Ok(list) => devices@.len() > 0 && texts(list@) == seq![DEFAULT_DEVICE@] + texts(
                devices@,
            ),
            Err(e) => devices@.len() == 0 && e@ == "No microphone devices found."@,
        },
{
    if devices.len() == 0 {
        return Err("No microphone devices found.".to_owned());
    }
    let mut list: Vec<String> = Vec::new();
    list.push(DEFAULT_DEVICE.to_owned());
    let mut found = copy_list(devices);
    list.append(&mut found);
    assert(texts(list@) =~= seq![DEFAULT_DEVICE@] + texts(devices@));
    Ok(list)
}

pub fn choose_microphone(config: &mut Config, chosen: &str) -> (r: Report)
    ensures
        *final(config) == (Config { audio_device: final(config).audio_device, ..*old(config) }),
        opt_text(final(config).audio_device) == Some(chosen@),
        r@ == seq![
            LineView::Success("Microphone set to "@ + chosen@ + "."@),
            LineView::Hint(RESTART_HINT@),
        ],
{
    config.audio_device = Some(chosen.to_owned());
    let mut r = Report::new();
    r.success("Microphone set to ".to_owned().concat(chosen).concat(".").as_str());
    r.hint(RESTART_HINT);
    assert(r@ =~= seq![
        LineView::Success("Microphone set to "@ + chosen@ + "."@),
        LineView::Hint(RESTART_HINT@),
    ]);
    r
}

/// The first probe of a device.
pub open spec fn probe_of(probes: Seq<DeviceProbe>, device: Seq<char>) -> Option<int>
    decreases probes.len(),
{
    if probes.len() == 0 {
        None
    } else {
        match probe_of(probes.drop_last(), device) {
            Some(i) => Some(i),
            None => if probes.last().device@ == device {
                Some(probes.len() - 1)
            } else {
                None
            },
        }
    }
}

/// How the chosen microphone is reported. `signals` holds the scores of the probes as text.
pub open spec fn microphone_line(
    probes: Seq<DeviceProbe>,
    signals: Seq<Seq<char>>,
    device: Seq<char>,
) -> LineView {
    match probe_of(probes, device) {
        Some(i) => LineView::Success(
            "Microphone set to "@ + device + " (signal "@ + signals[i] + (if probes[i].has_signal {
                Seq::<char>::empty()
            } else {
                ", silent during test"@
            }) + ")."@,
        ),
        None => LineView::Success("Microphone set to "@ + device + "."@),
    }
}

/// The probes that failed, and why.
pub open spec fn skipped_lines(probes: Seq<DeviceProbe>) -> Seq<LineView>
    decreases probes.len(),
{
    if probes.len() == 0 {
        Seq::<LineView>::empty()
    } else {
        let before = skipped_lines(probes.drop_last());
        let p = probes.last();
        if p.ok {
            before
        } else {
            before.push(
                LineView::Warn(
                    "Skipped "@ + p.device@ + ": "@ + or_else(p.error, "could not be opened"@),
                ),
            )
        }
    }
}

/// Keeps the microphone that actually hears something, out of every input that was probed.
pub fn auto_select_mic(
    config: &mut Config,
    devices: &Vec<String>,
    probes: &Vec<DeviceProbe>,
    signals: &Vec<String>,
    quiet: bool,
) -> (r: Report)
    requires
        signals@.len() == probes@.len(),
    ensures
        ({
            let device = chosen_device(probes@, texts(devices@));
            &&& *final(config) == (Config {
                audio_device: final(config).audio_device,
                ..*old(config)
            })
            &&& opt_text(final(config).audio_device) == Some(device)
            &&& r@ == seq![microphone_line(probes@, texts(signals@), device)] + (if quiet {
                Seq::<LineView>::empty()
            } else {
                skipped_lines(probes@)
            })
        }),
{
    let device = choose_device(probes, devices);
    config.audio_device = Some(device.clone());
    let mut found: Option<usize> = None;
    let mut i: usize = 0;
    while i < probes.len()
        invariant
            i <= probes.len(),
            match found {
                Some(k) => k < i && probe_of(probes@.take(i as int), device@) == Some(k as int),
                None => probe_of(probes@.take(i as int), device@) is None,
            },
        decreases probes.len() - i,
    {
        assert(probes@.take(i + 1).drop_last() == probes@.take(i as int));
        assert(probes@.take(i + 1).last() == probes@[i as int]);
        if found.is_none() && same(probes[i].device.as_str(), device.as_str()) {
            found = Some(i);
        }
        i = i + 1;
    }
    assert(probes@.take(i as int) == probes@);
    let mut r = Report::new();
    match found {
        Some(k) => {
            let silent: &str = if probes[k].has_signal {
                ""
            } else {
                ", silent during test"
            };
            proof {
                reveal_strlit("");
                assert(""@ =~= Seq::<char>::empty());
            }
            assert(texts(signals@)[k as int] == signals@[k as int]@);
            r.success(
                "Microphone set to ".to_owned().concat(device.as_str()).concat(" (signal ").concat(
                    signals[k].as_str(),
                ).concat(silent).concat(").").as_str(),
            );
        },
        None => {
            r.success("Microphone set to ".to_owned().concat(device.as_str()).concat(".").as_str());
        },
    }
    let ghost first = microphone_line(probes@, texts(signals@), device@);
    assert(r@ =~= seq![first]);
    if quiet {
        assert(r@ =~= seq![first] + Seq::<LineView>::empty());
        return r;
    }
    let mut j: usize = 0;
    assert(r@ =~= seq![first] + skipped_lines(probes@.take(0)));
    while j < probes.len()
        invariant
            j <= probes.len(),
            r@ == seq![first] + skipped_lines(probes@.take(j as int)),
        decreases probes.len() - j,
    {
        assert(probes@.take(j + 1).drop_last() == probes@.take(j as int));
        assert(probes@.take(j + 1).last() == probes@[j as int]);
        let p = &probes[j];
        if !p.ok {
            let ghost before = r@;
            r.warn(
                "Skipped ".to_owned().concat(p.device.as_str()).concat(": ").concat(
                    text_or(&p.error, "could not be opened"),
                ).as_str(),
            );
            assert(r@ =~= seq![first] + skipped_lines(probes@.take(j + 1)));
        }
        j = j + 1;
    }
    assert(probes@.take(j as int) == probes@);
    r
}

/// How long a test clip is: three seconds unless asked for, at least one, at most 120.
pub fn clip_seconds(asked: Option<u64>) -> (r: u64)
    ensures
        r == (match asked {
            Some(n) => if n < 1 {
                1
            } else if n > 120 {
                120
            } else {
                n
            },
            None => 3u64,
        }),
{
    match asked {
        Some(n) => if n < 1 {
            1
        } else if n > 120 {
            120
        } else {
            n
        },
        None => 3,
    }
}

/// What a test clip tells of the microphone.
pub fn clip_verdict(levels: &Levels) -> (r: Report)
    ensures
        r@ == seq![
            if levels.silent() {
                LineView::Warn(
                    "Recording is silent. Check the input in System Settings > Sound, and that your terminal has microphone permission."@,
                )
            } else {
                LineView::Success("Microphone is working."@)
            },
        ],
{
    if levels.is_silent() {
        Report::of(
            Line::Warn(
                "Recording is silent. Check the input in System Settings > Sound, and that your terminal has microphone permission.".to_owned(),
            ),
        )
    } else {
        Report::of(Line::Success("Microphone is working.".to_owned()))
    }
}

// ---------------------------------------------------------------------------- keys

/// What becomes of a key that was entered.
#[derive(Debug)]
pub enum KeyStep {
    Accept(String),
    AskAgain,
    Stop(String),
}

/// Judges a key that was entered: only one that verified is accepted, and it is accepted as
/// it was entered.
pub fn entered_key(provider: Provider, key: String, verdict: &VerifyResult, retry: bool) -> (r:
    KeyStep)
    ensures
        match r {
            KeyStep::Accept(accepted) => verdict.ok && accepted@ == key@,
            KeyStep::AskAgain => !verdict.ok && retry,
            KeyStep::Stop(reason) => !verdict.ok && !retry && reason@
                == "Setup stopped: no verified key for "@ + provider.name() + "."@,
        },
{
    if verdict.ok {
        KeyStep::Accept(key)
    } else if retry {
        KeyStep::AskAgain
    } else {
        KeyStep::Stop(
            "Setup stopped: no verified key for ".to_owned().concat(provider.as_str()).concat("."),
        )
    }
}

/// Saves a provider and a key for it.
pub fn choose_provider(config: &mut Config, provider: Provider, key: &str) -> (r: Report)
    requires
        old(config).well_formed(),
    ensures
        final(config).well_formed(),
        final(config).provider == Some(provider),
        final(config).key(provider) == Some(key@),
        forall|name: Seq<char>|
            name != provider.name() ==> #[trigger] key_named(final(config).keys@, name)
                == key_named(old(config).keys@, name),
        *final(config) == (Config {
            provider: final(config).provider,
            keys: final(config).keys,
            ..*old(config)
        }),
        r@ == seq![LineView::Success("Provider set to "@ + provider.name() + "."@)],
{
    config.provider = Some(provider);
    config.set_key(provider, key);
    Report::of(
        Line::Success("Provider set to ".to_owned().concat(provider.as_str()).concat(".")),
    )
}

// -------------------------------------------------------------------- transcribing

/// What is said while an audio file is transcribed, or why it cannot be.
pub fn transcribe(file: &str, is_file: bool, config: &Config) -> (r: Result<String, String>)
    ensures
        match r {
            Ok(note) => is_file && note@ == "Transcribing with "@ + (match config.provider {
                Some(p) => p.name(),
                None => "provider"@,
            }) + "..."@,
            Err(e) => !is_file && e@ == "Audio file not found: "@ + file@,
        },
{
    if !is_file {
        return Err("Audio file not found: ".to_owned().concat(file));
    }
    let provider = match config.provider {
        Some(p) => p.as_str(),
        None => "provider",
    };
    Ok("Transcribing with ".to_owned().concat(provider).concat("..."))
}

/// Saves what was heard in an audio file, unless nothing was.
pub fn keep_transcription(history: Vec<Transcript>, text: &str, file: &str) -> (r: Result<
    (Vec<Transcript>, Report),
    String,
>)
    ensures
        match r {
            Ok((after, report)) => {
                &&& text@.len() > 0
                &&& report@ == seq![LineView::Plain(text@)]
                &&& exists|item: Transcript|
                    #![trigger item@]
                    item@.text == text@ && item@.source == Some(file@) && is_uuid(item@.id)
                        && is_moment(item@.created_at, MILLIS_FORM@) && history_view(after@)
                        == recorded(history_view(history@), item@)
            },
            Err(e) => text@.len() == 0 && e@ == "Empty transcript returned."@,
        },
{
    if text.is_empty() {
        return Err("Empty transcript returned.".to_owned());
    }
    let (after, item) = save_transcript(history, text, file);
    assert(item@.text == text@);
    Ok((after, Report::of(Line::Plain(text.to_owned()))))
}

// --------------------------------------------------------------------------- laws

/// No word means both on and off.
pub proof fn on_is_not_off(action: Seq<char>)
    ensures
        !(means_on(action) && means_off(action)),
{
    reveal_strlit("on");
    reveal_strlit("enable");
    reveal_strlit("enabled");
    reveal_strlit("off");
    reveal_strlit("disable");
    reveal_strlit("disabled");
    assert("on"@.len() == 2 && "enable"@.len() == 6 && "enabled"@.len() == 7 && "off"@.len() == 3
        && "disable"@.len() == 7 && "disabled"@.len() == 8);
    assert("enabled"@[0] != "disable"@[0]);
}

/// The history shows the newest transcripts first, each with its moment and its words, twenty of
/// them where no other number was asked for.
pub proof fn the_history_shows_what_was_said(
    history: Seq<TranscriptView>,
    limit: Option<usize>,
    i: int,
)
    requires
        history.len() > 0,
    ensures
        ({
            let shown = history_lines(history, limit);
            let most = if limit is Some {
                limit->0 as int
            } else {
                20
            };
            &&& shown.len() == (if history.len() < most {
                history.len() as int
            } else {
                most
            })
            &&& 0 <= i < shown.len() ==> shown[i] is Plain && history[i].created_at.is_prefix_of(
                shown[i]->Plain_0,
            ) && history[i].text.is_suffix_of(shown[i]->Plain_0)
        }),
{
    let shown = history_lines(history, limit);
    if 0 <= i < shown.len() {
        let line = history[i].created_at + "  "@ + history[i].text;
        let n = history[i].text.len() as int;
        assert(line.take(history[i].created_at.len() as int) =~= history[i].created_at);
        assert(line.subrange(line.len() - n, line.len() as int) =~= history[i].text);
    }
}

/// The words to rewrite are all that were given, but for a first one that names the rewriting.
pub proof fn a_rewriting_takes_all_the_words(action: Seq<char>, args: Seq<Seq<char>>)
    requires
        args.len() > 0,
    ensures
        ({
            let (mode, words) = rewrite_of(action, args);
            &&& RewriteMode::named(action) is Some ==> mode == RewriteMode::named(action)->0 && words
                == trimmed(join(args.skip(1), " "@))
            &&& RewriteMode::named(action) is None ==> mode == RewriteMode::Polish && words
                == trimmed(join(args, " "@))
        }),
{
    assert(args.drop_first() =~= args.skip(1));
}

/// The status shows each setting that was made, under its own name.
pub proof fn the_status_shows_each_setting(config: Config)
    ensures
        ({
            let shown = status_lines(config);
            &&& config.provider is Some ==> shown.contains(
                LineView::Field("Provider"@, config.provider->0.name()),
            )
            &&& config.model is Some ==> shown.contains(
                LineView::Field("Model"@, config.model->0@),
            )
            &&& config.shortcut is Some ==> shown.contains(
                LineView::Field("Shortcut"@, config.shortcut->0@),
            )
            &&& config.audio_device is Some ==> shown.contains(
                LineView::Field("Microphone"@, config.audio_device->0@),
            )
            &&& config.polish_shortcut is Some ==> shown.contains(
                LineView::Field("Polish shortcut"@, config.polish_shortcut->0@),
            )
            &&& config.spell_shortcut is Some ==> shown.contains(
                LineView::Field("Spell-fix shortcut"@, config.spell_shortcut->0@),
            )
            &&& shown.contains(
                LineView::Field(
                    "API key"@,
                    if config.configured() {
                        "saved"@
                    } else {
                        "not set"@
                    },
                ),
            )
            &&& config.auto_polish is Some ==> shown.contains(
                LineView::Field(
                    "Auto polish"@,
                    if config.auto_polish->0 {
                        "enabled"@
                    } else {
                        "disabled"@
                    },
                ),
            )
            &&& config.auto_update is Some ==> shown.contains(
                LineView::Field(
                    "Auto update"@,
                    if config.auto_update->0 {
                        "enabled"@
                    } else {
                        "disabled"@
                    },
                ),
            )
        }),
{
    let shown = status_lines(config);
    assert(shown[1] == LineView::Field("Provider"@, provider_word(config.provider)));
    assert(shown[2] == LineView::Field("Model"@, or_else(config.model, "not set"@)));
    assert(shown[3] == LineView::Field("Shortcut"@, or_else(config.shortcut, "not set"@)));
    assert(shown[4] == LineView::Field("Microphone"@, or_else(config.audio_device, "default"@)));
    assert(shown[5] == LineView::Field(
        "API key"@,
        if config.configured() {
            "saved"@
        } else {
            "not set"@
        },
    ));
    assert(shown[6] == LineView::Field(
        "Auto polish"@,
        enabled_word(config.auto_polish == Some(true)),
    ));
    assert(shown[7] == LineView::Field(
        "Polish shortcut"@,
        setting_or(config.polish_shortcut, DEFAULT_POLISH_SHORTCUT@),
    ));
    assert(shown[8] == LineView::Field(
        "Spell-fix shortcut"@,
        setting_or(config.spell_shortcut, DEFAULT_SPELL_SHORTCUT@),
    ));
    assert(shown[11] == LineView::Field(
        "Auto update"@,
        enabled_word(config.auto_update != Some(false)),
    ));
}

/// The probe of a device is the first one there is of it.
pub proof fn the_first_probe_of_a_device_counts(probes: Seq<DeviceProbe>, device: Seq<char>, i: int)
    requires
        0 <= i < probes.len(),
        probes[i].device@ == device,
        forall|k: int| 0 <= k < i ==> (#[trigger] probes[k]).device@ != device,
    ensures
        probe_of(probes, device) == Some(i),
    decreases probes.len(),
{
    let front = probes.drop_last();
    if i < front.len() {
        assert(front[i] == probes[i]);
        the_first_probe_of_a_device_counts(front, device, i);
    } else {
        no_probe_of_a_device(front, device);
    }
}

proof fn no_probe_of_a_device(probes: Seq<DeviceProbe>, device: Seq<char>)
    requires
        forall|k: int| 0 <= k < probes.len() ==> (#[trigger] probes[k]).device@ != device,
    ensures
        probe_of(probes, device) is None,
    decreases probes.len(),
{
    if probes.len() > 0 {
        assert(probes[probes.len() - 1].device@ != device);
        no_probe_of_a_device(probes.drop_last(), device);
    }
}

proof fn skipped_lines_of_both(a: Seq<DeviceProbe>, b: Seq<DeviceProbe>)
    ensures
        skipped_lines(a + b) == skipped_lines(a) + skipped_lines(b),
    decreases b.len(),
{
    if b.len() == 0 {
        assert(a + b == a);
        assert(skipped_lines(a) + skipped_lines(b) == skipped_lines(a));
    } else {
        assert((a + b).drop_last() == a + b.drop_last());
        assert((a + b).last() == b.last());
        skipped_lines_of_both(a, b.drop_last());
    }
}

/// Every device that could not be used is named once, in its place, with its reason; no other is.
pub proof fn every_unusable_device_is_named(probes: Seq<DeviceProbe>, i: int)
    requires
        0 <= i < probes.len(),
        probes[i].ok || probes[i].error is Some,
    ensures
        skipped_lines(probes) == skipped_lines(probes.take(i)) + (if probes[i].ok {
            Seq::<LineView>::empty()
        } else {
            seq![
                LineView::Warn(
                    "Skipped "@ + probes[i].device@ + ": "@ + probes[i].error->0@,
                ),
            ]
        }) + skipped_lines(probes.skip(i + 1)),
{
    reveal_with_fuel(skipped_lines, 2);
    let one = seq![probes[i]];
    assert(probes == probes.take(i) + one + probes.skip(i + 1));
    skipped_lines_of_both(probes.take(i) + one, probes.skip(i + 1));
    skipped_lines_of_both(probes.take(i), one);
    assert(one.drop_last() == Seq::<DeviceProbe>::empty());
    assert(one.last() == probes[i]);
    assert(skipped_lines(one) =~= (if probes[i].ok {
        Seq::<LineView>::empty()
    } else {
        seq![LineView::Warn("Skipped "@ + probes[i].device@ + ": "@ + probes[i].error->0@)]
    }));
}

/// A word after `polish` does what it says: it switches, shows the status, sets the shortcut, and
/// anything else is rewritten.
#[verifier::spinoff_prover]
pub proof fn a_polish_command_does_what_it_says(
    r: PolishAction,
    action: Seq<char>,
    args: Seq<Seq<char>>,
)
    requires
        is_polish_action(r, action, args),
    ensures
        r is On <==> means_on(action),
        r is Off <==> means_off(action),
        r is Status <==> action.len() == 0 || action == "status"@,
        r is Shortcut <==> action == "shortcut"@,
        r is Rewrite ==> r->Rewrite_1@.len() > 0,
{
    on_is_not_off(action);
    reveal_strlit("on");
    reveal_strlit("enable");
    reveal_strlit("enabled");
    reveal_strlit("off");
    reveal_strlit("disable");
    reveal_strlit("disabled");
    reveal_strlit("status");
    reveal_strlit("shortcut");
    assert("on"@.len() == 2 && "enable"@.len() == 6 && "enabled"@.len() == 7 && "off"@.len() == 3
        && "disable"@.len() == 7 && "disabled"@.len() == 8 && "status"@.len() == 6
        && "shortcut"@.len() == 8);
    assert("enable"@[0] == 'e' && "status"@[0] == 's' && "disabled"@[0] == 'd' && "shortcut"@[0]
        == 's');
}

} // verus!
