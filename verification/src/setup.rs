//! First-time setup: what is still missing, what is asked for, and what an answer changes.
//!
//! Only missing settings are asked for. Existing ones are kept.
use vstd::prelude::*;
use crate::config::{
    Config, DEFAULT_DUCKING_VOLUME, DEFAULT_POLISH_MODEL, DEFAULT_POLISH_SHORTCUT,
    DEFAULT_SHORTCUT, DEFAULT_SPELL_SHORTCUT, DEFAULT_UPDATE_INTERVAL_MINUTES, Provider,
    key_named, known_models, model_options, offer, offers, setting_or,
};
use crate::deliverables::one_if;
use crate::media::Ducking;
use crate::report::{LineView, Report};
use crate::text::{join, join_texts, opt_text, same, texts, texts_of_push};

verus! {

broadcast use texts_of_push;

/// A question of the setup.
#[derive(Debug, Clone, Copy, PartialEq, Eq, Structural)]
pub enum SetupStep {
    /// The model, and a key for its provider.
    Model,
    /// The dictation shortcut.
    Shortcut,
    /// Whether to polish dictation, and a key for it.
    Polish,
    /// Whether to lower the volume while recording.
    Ducking,
    /// Whether to start at login.
    Autostart,
}

pub open spec fn asks_model(config: Config) -> bool {
    config.provider is None || config.model is None || !config.configured()
}

pub open spec fn step_if(condition: bool, step: SetupStep) -> Seq<SetupStep> {
    if condition {
        seq![step]
    } else {
        Seq::<SetupStep>::empty()
    }
}

/// The questions that are left, in the order in which they are asked.
pub open spec fn open_steps(config: Config) -> Seq<SetupStep> {
    step_if(asks_model(config), SetupStep::Model) + step_if(
        config.shortcut is None,
        SetupStep::Shortcut,
    ) + step_if(config.auto_polish is None, SetupStep::Polish) + step_if(
        config.audio_ducking is None,
        SetupStep::Ducking,
    ) + step_if(config.autostart is None, SetupStep::Autostart)
}

pub fn setup_steps(config: &Config) -> (r: Vec<SetupStep>)
    ensures
        r@ == open_steps(*config),
{
    let mut steps: Vec<SetupStep> = Vec::new();
    if config.provider.is_none() || config.model.is_none() || !config.is_configured() {
        steps.push(SetupStep::Model);
    }
    if config.shortcut.is_none() {
        steps.push(SetupStep::Shortcut);
    }
    if config.auto_polish.is_none() {
        steps.push(SetupStep::Polish);
    }
    if config.audio_ducking.is_none() {
        steps.push(SetupStep::Ducking);
    }
    if config.autostart.is_none() {
        steps.push(SetupStep::Autostart);
    }
    assert(steps@ =~= open_steps(*config));
    steps
}

pub open spec fn on_word(on: bool) -> Seq<char> {
    if on {
        "on"@
    } else {
        "off"@
    }
}

/// The settings that were there before, and are kept.
pub open spec fn kept_settings(config: Config) -> Seq<Seq<char>> {
    one_if(!asks_model(config), "model "@ + setting_or(config.model, "unknown"@)) + one_if(
        config.shortcut is Some,
        "shortcut "@ + setting_or(config.shortcut, DEFAULT_SHORTCUT@),
    ) + one_if(
        config.auto_polish is Some,
        "auto polish "@ + on_word(config.auto_polish == Some(true)),
    ) + one_if(config.audio_ducking is Some, "audio ducking"@) + one_if(
        config.auto_update is Some,
        "auto update"@,
    ) + one_if(config.autostart is Some, "autostart "@ + on_word(config.autostart == Some(true)))
}

fn on_text(on: bool) -> (r: &'static str)
    ensures
        r@ == on_word(on),
{
    if on {
        "on"
    } else {
        "off"
    }
}

/// What is kept, as one hint. Nothing where nothing is kept.
pub fn kept_note(config: &Config) -> (r: Option<String>)
    ensures
        opt_text(r) == (if kept_settings(*config).len() > 0 {
            Some("Kept: "@ + join(kept_settings(*config), ", "@) + "."@)
        } else {
            None
        }),
{
    let mut kept: Vec<String> = Vec::new();
    assert(texts(kept@) =~= Seq::<Seq<char>>::empty());
    if config.provider.is_some() && config.model.is_some() && config.is_configured() {
        let model: &str = match &config.model {
            Some(m) => m.as_str(),
            None => "unknown",
        };
        kept.push("model ".to_owned().concat(model));
    }
    let ghost k1 = one_if(!asks_model(*config), "model "@ + setting_or(config.model, "unknown"@));
    assert(texts(kept@) =~= k1);
    if config.shortcut.is_some() {
        kept.push("shortcut ".to_owned().concat(config.shortcut_or_default()));
    }
    let ghost k2 = k1 + one_if(
        config.shortcut is Some,
        "shortcut "@ + setting_or(config.shortcut, DEFAULT_SHORTCUT@),
    );
    assert(texts(kept@) =~= k2);
    if config.auto_polish.is_some() {
        kept.push("auto polish ".to_owned().concat(on_text(config.auto_polish == Some(true))));
    }
    let ghost k3 = k2 + one_if(
        config.auto_polish is Some,
        "auto polish "@ + on_word(config.auto_polish == Some(true)),
    );
    assert(texts(kept@) =~= k3);
    if config.audio_ducking.is_some() {
        kept.push("audio ducking".to_owned());
    }
    let ghost k4 = k3 + one_if(config.audio_ducking is Some, "audio ducking"@);
    assert(texts(kept@) =~= k4);
    if config.auto_update.is_some() {
        kept.push("auto update".to_owned());
    }
    let ghost k5 = k4 + one_if(config.auto_update is Some, "auto update"@);
    assert(texts(kept@) =~= k5);
    if config.autostart.is_some() {
        kept.push("autostart ".to_owned().concat(on_text(config.autostart == Some(true))));
    }
    assert(texts(kept@) =~= kept_settings(*config));
    assert(texts(kept@).len() == kept.len());
    if kept.len() == 0 {
        None
    } else {
        Some("Kept: ".to_owned().concat(join_texts(&kept, ", ").as_str()).concat("."))
    }
}

/// What setup says before it asks anything.
pub fn setup_opening(update_mode: bool) -> (r: Report)
    ensures
        r@ == (if update_mode {
            seq![
                LineView::Heading("Wisper update setup"@),
                LineView::Hint(
                    "Only missing settings are asked for. Existing ones are kept."@,
                ),
                LineView::Blank,
            ]
        } else {
            seq![LineView::Heading("Wisper setup"@), LineView::Blank]
        }),
{
    let mut r = Report::new();
    if update_mode {
        r.heading("Wisper update setup");
        r.hint("Only missing settings are asked for. Existing ones are kept.");
        r.blank();
        assert(r@ =~= seq![
            LineView::Heading("Wisper update setup"@),
            LineView::Hint("Only missing settings are asked for. Existing ones are kept."@),
            LineView::Blank,
        ]);
    } else {
        r.heading("Wisper setup");
        r.blank();
        assert(r@ =~= seq![LineView::Heading("Wisper setup"@), LineView::Blank]);
    }
    r
}

// ------------------------------------------------------------------------- answers

/// The model that a label offers.
pub open spec fn offered(label: Seq<char>) -> Option<(Provider, Seq<char>)> {
    offered_in(known_models(), label)
}

pub open spec fn offered_in(list: Seq<(Seq<char>, Provider, Seq<char>)>, label: Seq<char>) -> Option<
    (Provider, Seq<char>),
>
    decreases list.len(),
{
    if list.len() == 0 {
        None
    } else if list[0].0 == label {
        Some((list[0].1, list[0].2))
    } else {
        offered_in(list.drop_first(), label)
    }
}

/// The provider and the model of a label that is offered.
pub fn find_offer(label: &str) -> (r: Result<(Provider, String), String>)
    ensures
        match r {
            Ok((provider, model)) => offered(label@) == Some((provider, model@)),
            Err(e) => offered(label@) is None && e@ == "Unknown model selection"@,
        },
{
    let list = model_options();
    let ghost all = offers(list@);
    let mut i: usize = 0;
    assert(all.skip(0) =~= all);
    while i < list.len()
        invariant
            i <= list.len(),
            all == offers(list@),
            offered(label@) == offered_in(all.skip(i as int), label@),
        decreases list.len() - i,
    {
        assert(all.skip(i as int)[0] == offer(list@[i as int]));
        if same(list[i].label, label) {
            return Ok((list[i].provider, list[i].model.to_owned()));
        }
        assert(all.skip(i as int).drop_first() =~= all.skip(i + 1));
        i = i + 1;
    }
    Err("Unknown model selection".to_owned())
}

/// Saves a model, its provider and a key for it.
pub fn choose_model(config: &mut Config, provider: Provider, model: &str, key: &str)
    requires
        old(config).well_formed(),
    ensures
        final(config).well_formed(),
        final(config).provider == Some(provider),
        opt_text(final(config).model) == Some(model@),
        final(config).key(provider) == Some(key@),
        forall|name: Seq<char>|
            name != provider.name() ==> #[trigger] key_named(final(config).keys@, name)
                == key_named(old(config).keys@, name),
        *final(config) == (Config {
            provider: final(config).provider,
            model: final(config).model,
            keys: final(config).keys,
            ..*old(config)
        }),
{
    config.provider = Some(provider);
    config.model = Some(model.to_owned());
    config.set_key(provider, key);
}

/// Answers whether dictation is polished.
pub fn choose_polish(config: &mut Config, wants: bool)
    ensures
        *final(config) == (Config {
            auto_polish: Some(wants),
            polish_model: final(config).polish_model,
            ..*old(config)
        }),
        wants ==> opt_text(final(config).polish_model) == Some(DEFAULT_POLISH_MODEL@),
        !wants ==> final(config).polish_model == old(config).polish_model,
{
    config.auto_polish = Some(wants);
    if wants {
        config.polish_model = Some(DEFAULT_POLISH_MODEL.to_owned());
    }
}

/// Fills in the shortcuts and the update interval that are not asked for, where they are
/// missing.
pub fn fill_defaults(config: &mut Config)
    ensures
        opt_text(final(config).polish_shortcut) == Some(
            setting_or(old(config).polish_shortcut, DEFAULT_POLISH_SHORTCUT@),
        ),
        opt_text(final(config).spell_shortcut) == Some(
            setting_or(old(config).spell_shortcut, DEFAULT_SPELL_SHORTCUT@),
        ),
        final(config).auto_update == (if old(config).auto_update is None {
            Some(true)
        } else {
            old(config).auto_update
        }),
        final(config).auto_update_interval_minutes == (if old(config).auto_update is None {
            Some(DEFAULT_UPDATE_INTERVAL_MINUTES)
        } else {
            old(config).auto_update_interval_minutes
        }),
        *final(config) == (Config {
            polish_shortcut: final(config).polish_shortcut,
            spell_shortcut: final(config).spell_shortcut,
            auto_update: final(config).auto_update,
            auto_update_interval_minutes: final(config).auto_update_interval_minutes,
            ..*old(config)
        }),
{
    if config.polish_shortcut.is_none() {
        config.polish_shortcut = Some(DEFAULT_POLISH_SHORTCUT.to_owned());
    }
    if config.spell_shortcut.is_none() {
        config.spell_shortcut = Some(DEFAULT_SPELL_SHORTCUT.to_owned());
    }
    if config.auto_update.is_none() {
        config.auto_update = Some(true);
        config.auto_update_interval_minutes = Some(DEFAULT_UPDATE_INTERVAL_MINUTES);
    }
}

/// Answers whether the volume is lowered while recording.
pub fn choose_ducking(config: &mut Config, wants: bool)
    ensures
        *final(config) == (Config {
            audio_ducking: Some(wants),
            audio_ducking_volume: if wants {
                Some(DEFAULT_DUCKING_VOLUME)
            } else {
                old(config).audio_ducking_volume
            },
            ..*old(config)
        }),
{
    config.audio_ducking = Some(wants);
    if wants {
        config.audio_ducking_volume = Some(DEFAULT_DUCKING_VOLUME);
    }
}

/// Answers whether the listener starts at login.
pub fn choose_autostart(config: &mut Config, wants: bool)
    ensures
        *final(config) == (Config { autostart: Some(wants), ..*old(config) }),
{
    config.autostart = Some(wants);
}

/// How setup ends.
#[derive(Debug, Clone, Copy, PartialEq, Eq, Structural)]
pub enum SetupEnd {
    /// An older entry has to go first.
    Legacy,
    /// Autostart is switched on, which starts the listener.
    Autostart,
    /// The listener is started now, and not at login.
    Listen,
}

/// Acts on the autostart answer rather than only recording it.
pub fn setup_end(legacy: bool, autostart: Option<bool>) -> (r: SetupEnd)
    ensures
        r == (if legacy {
            SetupEnd::Legacy
        } else if autostart == Some(true) {
            SetupEnd::Autostart
        } else {
            SetupEnd::Listen
        }),
{
    if legacy {
        SetupEnd::Legacy
    } else if autostart == Some(true) {
        SetupEnd::Autostart
    } else {
        SetupEnd::Listen
    }
}

// --------------------------------------------------------------------------- laws

/// A question that is answered is not asked again, and no answer opens another: once every
/// open question of a setup is answered, none is left.
pub proof fn answered_questions_stay_answered(
    config: Config,
    modelled: Config,
    shortcut: Config,
    polished: Config,
    ducked: Config,
    started: Config,
)
    requires
        // The model, its provider and a key that is not empty were saved.
        modelled == (Config {
            provider: modelled.provider,
            model: modelled.model,
            keys: modelled.keys,
            ..config
        }),
        modelled.configured(),
        modelled.model is Some,
        shortcut == (Config { shortcut: shortcut.shortcut, ..modelled }),
        shortcut.shortcut is Some,
        polished == (Config {
            auto_polish: polished.auto_polish,
            polish_model: polished.polish_model,
            ..shortcut
        }),
        polished.auto_polish is Some,
        ducked == (Config {
            audio_ducking: ducked.audio_ducking,
            audio_ducking_volume: ducked.audio_ducking_volume,
            ..polished
        }),
        ducked.audio_ducking is Some,
        started == (Config { autostart: started.autostart, ..ducked }),
        started.autostart is Some,
    ensures
        open_steps(started).len() == 0,
        started.extra == config.extra,
{
    assert(started.provider == modelled.provider && started.keys == modelled.keys);
    assert(open_steps(started) =~= Seq::<SetupStep>::empty());
}

/// A setting is asked for, or it is kept: never both, and never neither.
pub proof fn settings_are_asked_or_kept(config: Config)
    ensures
        open_steps(config).len() + kept_settings(config).len() == 5 + (if config.auto_update
            is Some {
            1int
        } else {
            0int
        }),
{
}

/// A question is asked exactly where it has no answer yet, and the questions come in one order.
#[verifier::spinoff_prover]
pub proof fn what_has_no_answer_is_asked(config: Config, i: int, j: int)
    ensures
        ({
            let steps = open_steps(config);
            &&& steps.contains(SetupStep::Model) <==> config.model is None || !config.configured()
            &&& steps.contains(SetupStep::Shortcut) <==> config.shortcut is None
            &&& steps.contains(SetupStep::Polish) <==> config.auto_polish is None
            &&& steps.contains(SetupStep::Ducking) <==> config.audio_ducking is None
            &&& steps.contains(SetupStep::Autostart) <==> config.autostart is None
            &&& 0 <= i < j < steps.len() ==> rank(steps[i]) < rank(steps[j])
        }),
{
    let a = step_if(asks_model(config), SetupStep::Model);
    let b = step_if(config.shortcut is None, SetupStep::Shortcut);
    let c = step_if(config.auto_polish is None, SetupStep::Polish);
    let d = step_if(config.audio_ducking is None, SetupStep::Ducking);
    let e = step_if(config.autostart is None, SetupStep::Autostart);
    let steps = open_steps(config);
    assert(steps == a + b + c + d + e);
    if a.len() > 0 {
        assert(steps[0] == SetupStep::Model);
    }
    if b.len() > 0 {
        assert(steps[a.len() as int] == SetupStep::Shortcut);
    }
    if c.len() > 0 {
        assert(steps[(a.len() + b.len()) as int] == SetupStep::Polish);
    }
    if d.len() > 0 {
        assert(steps[(a.len() + b.len() + c.len()) as int] == SetupStep::Ducking);
    }
    if e.len() > 0 {
        assert(steps[(a.len() + b.len() + c.len() + d.len()) as int] == SetupStep::Autostart);
    }
}

/// The place of a question among the others.
pub open spec fn rank(step: SetupStep) -> int {
    match step {
        SetupStep::Model => 0,
        SetupStep::Shortcut => 1,
        SetupStep::Polish => 2,
        SetupStep::Ducking => 3,
        SetupStep::Autostart => 4,
    }
}

/// A label stands for the first model that is offered under it.
pub proof fn a_label_stands_for_its_model(
    list: Seq<(Seq<char>, Provider, Seq<char>)>,
    label: Seq<char>,
    i: int,
)
    requires
        0 <= i < list.len(),
        list[i].0 == label,
        forall|k: int| 0 <= k < i ==> (#[trigger] list[k]).0 != label,
    ensures
        offered_in(list, label) == Some((list[i].1, list[i].2)),
    decreases list.len(),
{
    if i > 0 {
        assert(list[0].0 != label);
        let rest = list.drop_first();
        assert(rest[i - 1] == list[i]);
        assert forall|k: int| 0 <= k < i - 1 implies (#[trigger] rest[k]).0 != label by {
            assert(rest[k] == list[k + 1]);
        }
        a_label_stands_for_its_model(rest, label, i - 1);
    }
}

} // verus!
