//! Settings, and the providers they name.
use vstd::prelude::*;
use crate::json::Json;
use crate::order::{text_le, text_not_after, text_order_is_total};
use crate::text::{same, starts_with};

verus! {

pub const DEFAULT_SHORTCUT: &'static str = "Ctrl+Alt+Space";

pub const DEFAULT_POLISH_SHORTCUT: &'static str = "CommandOrControl+Shift+P";

pub const DEFAULT_SPELL_SHORTCUT: &'static str = "CommandOrControl+Alt+S";

pub const DEFAULT_POLISH_MODEL: &'static str = "llama-3.3-70b-versatile";

pub const DEFAULT_MEETING_MODEL: &'static str = "saaras:v3";

pub const DEFAULT_DUCKING_VOLUME: u8 = 35;

pub const DEFAULT_UPDATE_INTERVAL_MINUTES: u64 = 180;

/// The shortest interval between two update checks that can be set.
pub const MIN_UPDATE_INTERVAL_MINUTES: u64 = 15;

// ---------------------------------------------------------------------- providers

#[derive(Debug, Clone, Copy, PartialEq, Eq, PartialOrd, Ord, Structural)]
pub enum Provider {
    Groq,
    ElevenLabs,
    Sarvam,
    NextbaseCodex,
}

impl Provider {
    pub open spec fn name(self) -> Seq<char> {
        match self {
            Provider::Groq => "groq"@,
            Provider::ElevenLabs => "elevenlabs"@,
            Provider::Sarvam => "sarvam"@,
            Provider::NextbaseCodex => "nextbase-codex"@,
        }
    }

    pub open spec fn named(name: Seq<char>) -> Option<Provider> {
        if name == "groq"@ {
            Some(Provider::Groq)
        } else if name == "elevenlabs"@ {
            Some(Provider::ElevenLabs)
        } else if name == "sarvam"@ {
            Some(Provider::Sarvam)
        } else if name == "nextbase-codex"@ {
            Some(Provider::NextbaseCodex)
        } else {
            None
        }
    }

    /// Every provider, in the order they are offered.
    pub fn all() -> (r: Vec<Provider>)
        ensures
            r@ == seq![
                Provider::Groq,
                Provider::ElevenLabs,
                Provider::Sarvam,
                Provider::NextbaseCodex,
            ],
    {
        vec![Provider::Groq, Provider::ElevenLabs, Provider::Sarvam, Provider::NextbaseCodex]
    }

    pub fn as_str(&self) -> (r: &'static str)
        ensures
            r@ == self.name(),
    {
        match self {
            Provider::Groq => "groq",
            Provider::ElevenLabs => "elevenlabs",
            Provider::Sarvam => "sarvam",
            Provider::NextbaseCodex => "nextbase-codex",
        }
    }

    pub open spec fn prompt(self) -> Seq<char> {
        match self {
            Provider::NextbaseCodex => "Paste Nextbase gateway key (nbmg_...)"@,
            _ => "Paste "@ + self.name() + " API key"@,
        }
    }

    /// Prompt wording differs for the Nextbase gateway, which issues `nbmg_` keys rather
    /// than a vendor API key.
    pub fn key_prompt(&self) -> (r: String)
        ensures
            r@ == self.prompt(),
    {
        match self {
            Provider::NextbaseCodex => "Paste Nextbase gateway key (nbmg_...)".to_owned(),
            _ => "Paste ".to_owned().concat(self.as_str()).concat(" API key"),
        }
    }

    /// The provider of a name, or the sentence that refuses it.
    pub fn parse(value: &str) -> (r: Result<Provider, String>)
        ensures
            match r {
                Ok(p) => Provider::named(value@) == Some(p),
                Err(e) => Provider::named(value@) is None && e@ == "Unknown provider: "@ + value@,
            },
    {
        if same(value, "groq") {
            Ok(Provider::Groq)
        } else if same(value, "elevenlabs") {
            Ok(Provider::ElevenLabs)
        } else if same(value, "sarvam") {
            Ok(Provider::Sarvam)
        } else if same(value, "nextbase-codex") {
            Ok(Provider::NextbaseCodex)
        } else {
            Err("Unknown provider: ".to_owned().concat(value))
        }
    }
}

/// A provider is found again by its name, so no two providers share one.
pub proof fn provider_names_read_back(p: Provider)
    ensures
        Provider::named(p.name()) == Some(p),
{
    reveal_strlit("groq");
    reveal_strlit("elevenlabs");
    reveal_strlit("sarvam");
    reveal_strlit("nextbase-codex");
    assert("groq"@.len() == 4);
    assert("elevenlabs"@.len() == 10);
    assert("sarvam"@.len() == 6);
    assert("nextbase-codex"@.len() == 14);
}

/// A dictation model on offer.
#[derive(Debug, Clone)]
pub struct ModelOption {
    pub label: &'static str,
    pub provider: Provider,
    pub model: &'static str,
}

/// What an option offers: label, provider and model.
pub open spec fn offer(o: ModelOption) -> (Seq<char>, Provider, Seq<char>) {
    (o.label@, o.provider, o.model@)
}

pub open spec fn offers(list: Seq<ModelOption>) -> Seq<(Seq<char>, Provider, Seq<char>)> {
    Seq::new(list.len(), |i: int| offer(list[i]))
}

/// The dictation models, in the order they are offered.
pub open spec fn known_models() -> Seq<(Seq<char>, Provider, Seq<char>)> {
    seq![
        ("Groq Whisper Large v3 Turbo"@, Provider::Groq, "whisper-large-v3-turbo"@),
        ("ElevenLabs Scribe v2"@, Provider::ElevenLabs, "scribe_v2"@),
        ("Sarvam Saaras v3"@, Provider::Sarvam, "saaras:v3"@),
        ("Nextbase Codex Transcribe"@, Provider::NextbaseCodex, "codex-transcribe"@),
    ]
}

pub fn model_options() -> (r: Vec<ModelOption>)
    ensures
        offers(r@) == known_models(),
{
    let r = vec![
        ModelOption {
            label: "Groq Whisper Large v3 Turbo",
            provider: Provider::Groq,
            model: "whisper-large-v3-turbo",
        },
        ModelOption {
            label: "ElevenLabs Scribe v2",
            provider: Provider::ElevenLabs,
            model: "scribe_v2",
        },
        ModelOption { label: "Sarvam Saaras v3", provider: Provider::Sarvam, model: "saaras:v3" },
        ModelOption {
            label: "Nextbase Codex Transcribe",
            provider: Provider::NextbaseCodex,
            model: "codex-transcribe",
        },
    ];
    assert(offers(r@) =~= known_models());
    r
}

// ----------------------------------------------------------------------- settings

/// Everything that is saved between runs.
///
/// `keys` holds one key for each provider name, in the order of the names. `extra` holds
/// the settings this build does not know: they are carried through untouched.
#[derive(Debug)]
pub struct Config {
    pub provider: Option<Provider>,
    pub model: Option<String>,
    pub language: Option<String>,
    pub shortcut: Option<String>,
    pub polish_shortcut: Option<String>,
    pub spell_shortcut: Option<String>,
    pub keys: Vec<(String, String)>,
    pub autostart: Option<bool>,
    pub audio_device: Option<String>,
    pub auto_polish: Option<bool>,
    pub polish_model: Option<String>,
    pub audio_ducking: Option<bool>,
    pub audio_ducking_volume: Option<u8>,
    pub auto_update: Option<bool>,
    pub auto_update_interval_minutes: Option<u64>,
    pub meeting_mic: Option<bool>,
    pub meeting_system: Option<bool>,
    pub meeting_keep_tracks: Option<bool>,
    pub meeting_consent: Option<bool>,
    pub meeting_gate: Option<bool>,
    pub meeting_mode: Option<String>,
    pub meeting_model: Option<String>,
    pub meeting_summary_model: Option<String>,
    pub extra: Vec<(String, Json)>,
}

/// The key saved under a provider name.
pub open spec fn key_named(keys: Seq<(String, String)>, name: Seq<char>) -> Option<Seq<char>>
    decreases keys.len(),
{
    if keys.len() == 0 {
        None
    } else if keys[0].0@ == name {
        Some(keys[0].1@)
    } else {
        key_named(keys.drop_first(), name)
    }
}

/// Whether no two entries share a name, and the names are in order.
pub open spec fn keys_in_order(keys: Seq<(String, String)>) -> bool {
    forall|i: int, j: int|
        0 <= i < j < keys.len() ==> text_le(#[trigger] keys[i].0@, #[trigger] keys[j].0@)
            && keys[i].0@ != keys[j].0@
}

pub open spec fn setting_or(value: Option<String>, fallback: Seq<char>) -> Seq<char> {
    match value {
        Some(v) => v@,
        None => fallback,
    }
}

pub open spec fn on_unless_off(value: Option<bool>) -> bool {
    value != Some(false)
}

fn or_default<'a>(value: &'a Option<String>, fallback: &'static str) -> (r: &'a str)
    ensures
        r@ == setting_or(*value, fallback@),
{
    match value {
        Some(v) => v.as_str(),
        None => fallback,
    }
}

proof fn key_named_from(keys: Seq<(String, String)>, name: Seq<char>, i: int)
    requires
        0 <= i <= keys.len(),
        forall|j: int| 0 <= j < i ==> (#[trigger] keys[j]).0@ != name,
    ensures
        key_named(keys, name) == key_named(keys.skip(i), name),
    decreases i,
{
    if i == 0 {
        assert(keys.skip(0) == keys);
    } else {
        key_named_from(keys.drop_first(), name, i - 1);
        assert(keys.drop_first().skip(i - 1) == keys.skip(i));
    }
}

/// A name that no key has gives none.
pub proof fn key_named_none(keys: Seq<(String, String)>, name: Seq<char>)
    requires
        forall|j: int| 0 <= j < keys.len() ==> (#[trigger] keys[j]).0@ != name,
    ensures
        key_named(keys, name) is None,
{
    key_named_from(keys, name, keys.len() as int);
}

/// A key is found under its own name.
pub proof fn key_named_at(keys: Seq<(String, String)>, name: Seq<char>, i: int)
    requires
        0 <= i < keys.len(),
        keys[i].0@ == name,
        keys_in_order(keys),
    ensures
        key_named(keys, name) == Some(keys[i].1@),
{
    assert forall|j: int| 0 <= j < i implies (#[trigger] keys[j]).0@ != name by {}
    key_named_from(keys, name, i);
    assert(keys.skip(i)[0] == keys[i]);
}

/// Two lists that agree on a name, entry for entry, agree on its key.
proof fn key_named_unchanged(
    old_keys: Seq<(String, String)>,
    new_keys: Seq<(String, String)>,
    name: Seq<char>,
    at: int,
    inserted: bool,
)
    requires
        0 <= at < new_keys.len(),
        new_keys[at].0@ != name,
        inserted ==> old_keys == new_keys.remove(at),
        !inserted ==> old_keys.len() == new_keys.len() && old_keys[at].0@ == new_keys[at].0@
            && forall|j: int|
            0 <= j < new_keys.len() && j != at ==> new_keys[j] == #[trigger] old_keys[j],
    ensures
        key_named(new_keys, name) == key_named(old_keys, name),
    decreases new_keys.len(),
{
    if at == 0 {
        if inserted {
            assert(new_keys.drop_first() == old_keys);
        } else {
            assert(new_keys.drop_first() =~= old_keys.drop_first());
        }
    } else {
        assert(new_keys[0] == old_keys[0]);
        if new_keys[0].0@ != name {
            if inserted {
                assert(old_keys.drop_first() =~= new_keys.drop_first().remove(at - 1));
            }
            key_named_unchanged(
                old_keys.drop_first(),
                new_keys.drop_first(),
                name,
                at - 1,
                inserted,
            );
        }
    }
}

impl Config {
    pub open spec fn well_formed(&self) -> bool {
        keys_in_order(self.keys@)
    }

    pub open spec fn key(&self, provider: Provider) -> Option<Seq<char>> {
        key_named(self.keys@, provider.name())
    }

    /// Whether a key that is not empty is saved.
    pub open spec fn has_key(&self, provider: Provider) -> bool {
        self.key(provider) is Some && self.key(provider)->0.len() > 0
    }

    /// Settings of a first run.
    pub fn empty() -> (r: Config)
        ensures
            r.well_formed(),
            r.keys@.len() == 0,
            r.extra@.len() == 0,
            r.provider is None && r.model is None && r.language is None && r.shortcut is None
                && r.polish_shortcut is None && r.spell_shortcut is None && r.autostart is None
                && r.audio_device is None && r.auto_polish is None && r.polish_model is None
                && r.audio_ducking is None && r.audio_ducking_volume is None && r.auto_update is None
                && r.auto_update_interval_minutes is None,
            r.meeting_mic is None && r.meeting_system is None && r.meeting_keep_tracks is None
                && r.meeting_consent is None && r.meeting_gate is None && r.meeting_mode is None
                && r.meeting_model is None && r.meeting_summary_model is None,
    {
        Config {
            provider: None,
            model: None,
            language: None,
            shortcut: None,
            polish_shortcut: None,
            spell_shortcut: None,
            keys: Vec::new(),
            autostart: None,
            audio_device: None,
            auto_polish: None,
            polish_model: None,
            audio_ducking: None,
            audio_ducking_volume: None,
            auto_update: None,
            auto_update_interval_minutes: None,
            meeting_mic: None,
            meeting_system: None,
            meeting_keep_tracks: None,
            meeting_consent: None,
            meeting_gate: None,
            meeting_mode: None,
            meeting_model: None,
            meeting_summary_model: None,
            extra: Vec::new(),
        }
    }

    pub fn key_for(&self, provider: Provider) -> (r: Option<&String>)
        ensures
            match r {
                Some(key) => self.key(provider) == Some(key@),
                None => self.key(provider) is None,
            },
    {
        let name = provider.as_str();
        let mut i: usize = 0;
        assert(self.keys@.skip(0) == self.keys@);
        while i < self.keys.len()
            invariant
                i <= self.keys.len(),
                name@ == provider.name(),
                self.key(provider) == key_named(self.keys@.skip(i as int), name@),
            decreases self.keys.len() - i,
        {
            assert(self.keys@.skip(i as int)[0] == self.keys@[i as int]);
            if same(self.keys[i].0.as_str(), name) {
                return Some(&self.keys[i].1);
            }
            assert(self.keys@.skip(i as int).drop_first() == self.keys@.skip(i + 1));
            i = i + 1;
        }
        None
    }

    /// The key of a provider, where it is not empty.
    pub fn usable_key(&self, provider: Provider) -> (r: Option<String>)
        ensures
            match r {
                Some(key) => self.has_key(provider) && self.key(provider) == Some(key@),
                None => !self.has_key(provider),
            },
    {
        match self.key_for(provider) {
            Some(key) => if key.as_str().is_empty() {
                None
            } else {
                Some(key.clone())
            },
            None => None,
        }
    }

    /// Saves a key under a provider's name, in place of the one that stood there.
    pub fn set_key(&mut self, provider: Provider, key: &str)
        requires
            old(self).well_formed(),
        ensures
            final(self).well_formed(),
            final(self).key(provider) == Some(key@),
            forall|name: Seq<char>|
                name != provider.name() ==> #[trigger] key_named(final(self).keys@, name)
                    == key_named(old(self).keys@, name),
            *final(self) == (Config { keys: final(self).keys, ..*old(self) }),
    {
        self.save_key(provider.as_str(), key);
    }

    /// Saves a key under a name, in place of the one that stood there.
    pub fn save_key(&mut self, name: &str, key: &str)
        requires
            old(self).well_formed(),
        ensures
            final(self).well_formed(),
            key_named(final(self).keys@, name@) == Some(key@),
            forall|other: Seq<char>|
                other != name@ ==> #[trigger] key_named(final(self).keys@, other) == key_named(
                    old(self).keys@,
                    other,
                ),
            *final(self) == (Config { keys: final(self).keys, ..*old(self) }),
    {
        let ghost before = self.keys@;
        let mut i: usize = 0;
        while i < self.keys.len() && !same(self.keys[i].0.as_str(), name) && text_not_after(
            self.keys[i].0.as_str(),
            name,
        )
            invariant
                i <= self.keys.len(),
                self.keys@ == before,
                *self == *old(self),
                forall|j: int|
                    0 <= j < i ==> (#[trigger] before[j]).0@ != name@ && text_le(
                        before[j].0@,
                        name@,
                    ),
            decreases self.keys.len() - i,
        {
            i = i + 1;
        }
        let mut keys: Vec<(String, String)> = Vec::new();
        std::mem::swap(&mut keys, &mut self.keys);
        assert(keys@ == before);
        if i < keys.len() && same(keys[i].0.as_str(), name) {
            keys.set(i, (name.to_owned(), key.to_owned()));
            proof {
                assert forall|other: Seq<char>| other != name@ implies #[trigger] key_named(
                    keys@,
                    other,
                ) == key_named(before, other) by {
                    key_named_unchanged(before, keys@, other, i as int, false);
                }
                key_named_at(keys@, name@, i as int);
            }
        } else {
            keys.insert(i, (name.to_owned(), key.to_owned()));
            proof {
                assert(keys@.remove(i as int) =~= before);
                assert forall|other: Seq<char>| other != name@ implies #[trigger] key_named(
                    keys@,
                    other,
                ) == key_named(before, other) by {
                    key_named_unchanged(before, keys@, other, i as int, true);
                }
                inserted_key_keeps_order(before, keys@, name@, i as int);
                key_named_at(keys@, name@, i as int);
            }
        }
        self.keys = keys;
    }

    pub fn shortcut_or_default(&self) -> (r: &str)
        ensures
            r@ == setting_or(self.shortcut, DEFAULT_SHORTCUT@),
    {
        or_default(&self.shortcut, DEFAULT_SHORTCUT)
    }

    pub fn polish_shortcut_or_default(&self) -> (r: &str)
        ensures
            r@ == setting_or(self.polish_shortcut, DEFAULT_POLISH_SHORTCUT@),
    {
        or_default(&self.polish_shortcut, DEFAULT_POLISH_SHORTCUT)
    }

    pub fn spell_shortcut_or_default(&self) -> (r: &str)
        ensures
            r@ == setting_or(self.spell_shortcut, DEFAULT_SPELL_SHORTCUT@),
    {
        or_default(&self.spell_shortcut, DEFAULT_SPELL_SHORTCUT)
    }

    pub fn polish_model_or_default(&self) -> (r: &str)
        ensures
            r@ == setting_or(self.polish_model, DEFAULT_POLISH_MODEL@),
    {
        or_default(&self.polish_model, DEFAULT_POLISH_MODEL)
    }

    /// Whether a provider is chosen and its key is there.
    pub open spec fn configured(&self) -> bool {
        match self.provider {
            Some(provider) => self.has_key(provider),
            None => false,
        }
    }

    pub fn is_configured(&self) -> (r: bool)
        ensures
            r == self.configured(),
    {
        match self.provider {
            Some(provider) => self.usable_key(provider).is_some(),
            None => false,
        }
    }

    // ------------------------------------------------------------- meeting settings

    /// Which sources a meeting records: microphone, system audio. Both unless switched off.
    pub fn meeting_capture(&self) -> (r: (bool, bool))
        ensures
            r == (on_unless_off(self.meeting_mic), on_unless_off(self.meeting_system)),
    {
        (self.meeting_mic != Some(false), self.meeting_system != Some(false))
    }

    /// Whether every meeting waits for a sample to be approved. On unless switched off.
    pub fn meeting_gate_enabled(&self) -> (r: bool)
        ensures
            r == on_unless_off(self.meeting_gate),
    {
        self.meeting_gate != Some(false)
    }

    /// The meeting model, never the dictation model: a meeting needs Sarvam Batch.
    pub fn meeting_model_or_default(&self) -> (r: &str)
        ensures
            r@ == setting_or(self.meeting_model, DEFAULT_MEETING_MODEL@),
    {
        or_default(&self.meeting_model, DEFAULT_MEETING_MODEL)
    }

    pub fn meeting_summary_model_or_default(&self) -> (r: &str)
        ensures
            r@ == setting_or(self.meeting_summary_model, DEFAULT_POLISH_MODEL@),
    {
        or_default(&self.meeting_summary_model, DEFAULT_POLISH_MODEL)
    }

    /// Whether the meeting model knows modes: the `saaras` family does.
    pub open spec fn meeting_has_modes(&self) -> bool {
        "saaras"@.is_prefix_of(setting_or(self.meeting_model, DEFAULT_MEETING_MODEL@))
    }

    pub fn meeting_model_supports_mode(&self) -> (r: bool)
        ensures
            r == self.meeting_has_modes(),
    {
        starts_with(self.meeting_model_or_default(), "saaras")
    }
}

proof fn inserted_key_keeps_order(
    before: Seq<(String, String)>,
    after: Seq<(String, String)>,
    name: Seq<char>,
    at: int,
)
    requires
        keys_in_order(before),
        0 <= at <= before.len(),
        after.len() == before.len() + 1,
        after.remove(at) == before,
        after[at].0@ == name,
        forall|j: int|
            0 <= j < at ==> (#[trigger] before[j]).0@ != name && text_le(before[j].0@, name),
        at < before.len() ==> before[at].0@ != name && !text_le(before[at].0@, name),
    ensures
        keys_in_order(after),
{
    text_order_is_total();
    let le = |a: Seq<char>, b: Seq<char>| text_le(a, b);
    assert forall|i: int, j: int| 0 <= i < j < after.len() implies text_le(
        #[trigger] after[i].0@,
        #[trigger] after[j].0@,
    ) && after[i].0@ != after[j].0@ by {
        let i0 = if i < at { i } else { i - 1 };
        let j0 = if j < at { j } else { j - 1 };
        if i != at {
            assert(after[i] == before[i0]) by {
                assert(after.remove(at)[i0] == after[i]);
            }
        }
        if j != at {
            assert(after[j] == before[j0]) by {
                assert(after.remove(at)[j0] == after[j]);
            }
        }
        if i == at {
            assert(le(before[at].0@, name) || le(name, before[at].0@));
            if j0 > at {
                assert(text_le(before[at].0@, before[j0].0@));
                assert(le(name, before[at].0@) && le(before[at].0@, before[j0].0@));
                assert(le(name, before[j0].0@));
                if name == before[j0].0@ {
                    assert(le(before[at].0@, name));
                }
            }
        } else if j == at {
        } else {
            assert(text_le(before[i0].0@, before[j0].0@));
        }
    }
}

// --------------------------------------------------------------------------- laws

/// A provider can be used exactly where a key for it is kept under its own name and is not empty.
pub proof fn a_key_is_that_of_its_provider(config: Config, provider: Provider, i: int)
    requires
        config.well_formed(),
        0 <= i < config.keys@.len(),
        config.keys@[i].0@ == provider.name(),
    ensures
        config.key(provider) == Some(config.keys@[i].1@),
        config.has_key(provider) <==> config.keys@[i].1@.len() > 0,
        config.provider == Some(provider) ==> (config.configured() <==> config.keys@[i].1@.len()
            > 0),
{
    key_named_at(config.keys@, provider.name(), i);
}

/// Without a provider, or without any key, nothing is configured.
pub proof fn nothing_is_configured_without_a_key(config: Config)
    ensures
        config.provider is None ==> !config.configured(),
        config.keys@.len() == 0 ==> !config.configured(),
        config.configured() ==> config.has_key(config.provider->0),
{
    if config.keys@.len() == 0 && config.provider is Some {
        key_named_none(config.keys@, config.provider->0.name());
    }
}

/// What is on by default is off only where it was switched off.
pub proof fn on_unless_switched_off(value: Option<bool>)
    ensures
        on_unless_off(value) <==> !(value is Some && !value->0),
{
}

/// A setting that was made counts, and else what is said in its place.
pub proof fn a_setting_that_was_made_counts(value: Option<String>, fallback: Seq<char>)
    ensures
        value is Some ==> setting_or(value, fallback) == value->0@,
        value is None ==> setting_or(value, fallback) == fallback,
{
}

} // verus!
