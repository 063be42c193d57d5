//! The settings file: what is read out of it, and what is written into it.
//!
//! Settings that are not set are left out rather than written as nothing, and a setting this
//! build does not know is written back as it was read.
use vstd::prelude::*;
use crate::config::{
    Config, Provider, key_named, key_named_at, key_named_none, keys_in_order,
    provider_names_read_back,
};
use crate::json::{
    Json, JsonView, NUMBER_NAME, READABLE_DEPTH, copy_json, decimal_is_numeral, distinct_names,
    entry, entry_list, entry_of_both, entry_of_none, field_listed, fields, fields_are_plain,
    fields_of_push, flag_json, is_plain, json_pretty, json_read, json_stored, new_entries,
    number_json, object, opt_nat64, opt_nat8, parse_json, pretty_json, put, put_flag, put_number,
    put_text, put_value, text_json, text_value,
};
use crate::members::{
    opt_flag_in, opt_number_in, opt_text_in, read_opt_flag, read_opt_number, read_opt_text,
};
use crate::number::{decimal, parse_reads_back_decimal, parsed};
use crate::text::{opt_text, same};

verus! {

// --------------------------------------------------------------------------- names

/// Whether a name in the file is one of the settings.
pub open spec fn is_setting(name: Seq<char>) -> bool {
    ||| name == "provider"@
    ||| name == "model"@
    ||| name == "language"@
    ||| name == "shortcut"@
    ||| name == "polishShortcut"@
    ||| name == "spellShortcut"@
    ||| name == "keys"@
    ||| name == "autostart"@
    ||| name == "audioDevice"@
    ||| name == "autoPolish"@
    ||| name == "polishModel"@
    ||| name == "audioDucking"@
    ||| name == "audioDuckingVolume"@
    ||| name == "autoUpdate"@
    ||| name == "autoUpdateIntervalMinutes"@
    ||| name == "meetingMic"@
    ||| name == "meetingSystem"@
    ||| name == "meetingKeepTracks"@
    ||| name == "meetingConsent"@
    ||| name == "meetingGate"@
    ||| name == "meetingMode"@
    ||| name == "meetingModel"@
    ||| name == "meetingSummaryModel"@
}

fn names_setting(name: &str) -> (r: bool)
    ensures
        r == is_setting(name@),
{
    same(name, "provider")
        || same(name, "model")
        || same(name, "language")
        || same(name, "shortcut")
        || same(name, "polishShortcut")
        || same(name, "spellShortcut")
        || same(name, "keys")
        || same(name, "autostart")
        || same(name, "audioDevice")
        || same(name, "autoPolish")
        || same(name, "polishModel")
        || same(name, "audioDucking")
        || same(name, "audioDuckingVolume")
        || same(name, "autoUpdate")
        || same(name, "autoUpdateIntervalMinutes")
        || same(name, "meetingMic")
        || same(name, "meetingSystem")
        || same(name, "meetingKeepTracks")
        || same(name, "meetingConsent")
        || same(name, "meetingGate")
        || same(name, "meetingMode")
        || same(name, "meetingModel")
        || same(name, "meetingSummaryModel")
}

/// What tells the names of the settings apart: the length, the first character and the last
/// but two.
#[verifier::opaque]
spec fn mark(name: Seq<char>) -> (nat, char, char) {
    (name.len(), name[0], name[name.len() - 3])
}

proof fn settings_have_different_marks()
    ensures
        mark("provider"@) == (8nat, 'p', 'd'),
        mark("model"@) == (5nat, 'm', 'd'),
        mark("language"@) == (8nat, 'l', 'a'),
        mark("shortcut"@) == (8nat, 's', 'c'),
        mark("polishShortcut"@) == (14nat, 'p', 'c'),
        mark("spellShortcut"@) == (13nat, 's', 'c'),
        mark("keys"@) == (4nat, 'k', 'e'),
        mark("autostart"@) == (9nat, 'a', 'a'),
        mark("audioDevice"@) == (11nat, 'a', 'i'),
        mark("autoPolish"@) == (10nat, 'a', 'i'),
        mark("polishModel"@) == (11nat, 'p', 'd'),
        mark("audioDucking"@) == (12nat, 'a', 'i'),
        mark("audioDuckingVolume"@) == (18nat, 'a', 'u'),
        mark("autoUpdate"@) == (10nat, 'a', 'a'),
        mark("autoUpdateIntervalMinutes"@) == (25nat, 'a', 't'),
        mark("meetingMic"@) == (10nat, 'm', 'M'),
        mark("meetingSystem"@) == (13nat, 'm', 't'),
        mark("meetingKeepTracks"@) == (17nat, 'm', 'c'),
        mark("meetingConsent"@) == (14nat, 'm', 'e'),
        mark("meetingGate"@) == (11nat, 'm', 'a'),
        mark("meetingMode"@) == (11nat, 'm', 'o'),
        mark("meetingModel"@) == (12nat, 'm', 'd'),
        mark("meetingSummaryModel"@) == (19nat, 'm', 'd'),
{
    reveal(mark);
    reveal_strlit("provider");
    reveal_strlit("model");
    reveal_strlit("language");
    reveal_strlit("shortcut");
    reveal_strlit("polishShortcut");
    reveal_strlit("spellShortcut");
    reveal_strlit("keys");
    reveal_strlit("autostart");
    reveal_strlit("audioDevice");
    reveal_strlit("autoPolish");
    reveal_strlit("polishModel");
    reveal_strlit("audioDucking");
    reveal_strlit("audioDuckingVolume");
    reveal_strlit("autoUpdate");
    reveal_strlit("autoUpdateIntervalMinutes");
    reveal_strlit("meetingMic");
    reveal_strlit("meetingSystem");
    reveal_strlit("meetingKeepTracks");
    reveal_strlit("meetingConsent");
    reveal_strlit("meetingGate");
    reveal_strlit("meetingMode");
    reveal_strlit("meetingModel");
    reveal_strlit("meetingSummaryModel");
}

/// The place of a setting among the others.
spec fn place(name: Seq<char>) -> int {
    if name == "provider"@ {
        0
    } else if name == "model"@ {
        1
    } else if name == "language"@ {
        2
    } else if name == "shortcut"@ {
        3
    } else if name == "polishShortcut"@ {
        4
    } else if name == "spellShortcut"@ {
        5
    } else if name == "keys"@ {
        6
    } else if name == "autostart"@ {
        7
    } else if name == "audioDevice"@ {
        8
    } else if name == "autoPolish"@ {
        9
    } else if name == "polishModel"@ {
        10
    } else if name == "audioDucking"@ {
        11
    } else if name == "audioDuckingVolume"@ {
        12
    } else if name == "autoUpdate"@ {
        13
    } else if name == "autoUpdateIntervalMinutes"@ {
        14
    } else if name == "meetingMic"@ {
        15
    } else if name == "meetingSystem"@ {
        16
    } else if name == "meetingKeepTracks"@ {
        17
    } else if name == "meetingConsent"@ {
        18
    } else if name == "meetingGate"@ {
        19
    } else if name == "meetingMode"@ {
        20
    } else if name == "meetingModel"@ {
        21
    } else if name == "meetingSummaryModel"@ {
        22
    } else {
        -1
    }
}

proof fn settings_have_different_places()
    ensures
        place("provider"@) == 0,
        place("model"@) == 1,
        place("language"@) == 2,
        place("shortcut"@) == 3,
        place("polishShortcut"@) == 4,
        place("spellShortcut"@) == 5,
        place("keys"@) == 6,
        place("autostart"@) == 7,
        place("audioDevice"@) == 8,
        place("autoPolish"@) == 9,
        place("polishModel"@) == 10,
        place("audioDucking"@) == 11,
        place("audioDuckingVolume"@) == 12,
        place("autoUpdate"@) == 13,
        place("autoUpdateIntervalMinutes"@) == 14,
        place("meetingMic"@) == 15,
        place("meetingSystem"@) == 16,
        place("meetingKeepTracks"@) == 17,
        place("meetingConsent"@) == 18,
        place("meetingGate"@) == 19,
        place("meetingMode"@) == 20,
        place("meetingModel"@) == 21,
        place("meetingSummaryModel"@) == 22,
{
    settings_have_different_marks();
}

// -------------------------------------------------------------------------- writing

pub open spec fn provider_json(provider: Option<Provider>) -> Option<JsonView> {
    match provider {
        Some(p) => Some(JsonView::Text(p.name())),
        None => None,
    }
}

/// The keys as entries.
pub open spec fn key_entries(keys: Seq<(String, String)>) -> Seq<(Seq<char>, JsonView)> {
    Seq::new(keys.len(), |i: int| (keys[i].0@, JsonView::Text(keys[i].1@)))
}

pub open spec fn keys_json(keys: Seq<(String, String)>) -> Option<JsonView> {
    if keys.len() > 0 {
        Some(JsonView::Object(key_entries(keys)))
    } else {
        None
    }
}

/// The settings by name, in the order they are written in.
pub open spec fn settings(c: Config) -> Seq<(Seq<char>, Option<JsonView>)> {
    Seq::empty()
        .push(("provider"@, provider_json(c.provider)))
        .push(("model"@, text_json(c.model)))
        .push(("language"@, text_json(c.language)))
        .push(("shortcut"@, text_json(c.shortcut)))
        .push(("polishShortcut"@, text_json(c.polish_shortcut)))
        .push(("spellShortcut"@, text_json(c.spell_shortcut)))
        .push(("keys"@, keys_json(c.keys@)))
        .push(("autostart"@, flag_json(c.autostart)))
        .push(("audioDevice"@, text_json(c.audio_device)))
        .push(("autoPolish"@, flag_json(c.auto_polish)))
        .push(("polishModel"@, text_json(c.polish_model)))
        .push(("audioDucking"@, flag_json(c.audio_ducking)))
        .push(("audioDuckingVolume"@, number_json(opt_nat8(c.audio_ducking_volume))))
        .push(("autoUpdate"@, flag_json(c.auto_update)))
        .push(("autoUpdateIntervalMinutes"@, number_json(opt_nat64(c.auto_update_interval_minutes))))
        .push(("meetingMic"@, flag_json(c.meeting_mic)))
        .push(("meetingSystem"@, flag_json(c.meeting_system)))
        .push(("meetingKeepTracks"@, flag_json(c.meeting_keep_tracks)))
        .push(("meetingConsent"@, flag_json(c.meeting_consent)))
        .push(("meetingGate"@, flag_json(c.meeting_gate)))
        .push(("meetingMode"@, text_json(c.meeting_mode)))
        .push(("meetingModel"@, text_json(c.meeting_model)))
        .push(("meetingSummaryModel"@, text_json(c.meeting_summary_model)))
}

/// What is written: the settings that are set, and those that were carried through.
pub open spec fn written(c: Config) -> JsonView {
    JsonView::Object(fields(settings(c)) + entry_list(c.extra@))
}

fn put_keys(entries: &mut Vec<(String, Json)>, keys: &Vec<(String, String)>)
    ensures
        entry_list(final(entries)@) == entry_list(old(entries)@) + entry("keys"@, keys_json(keys@)),
{
    if keys.len() == 0 {
        put_value(entries, "keys", None);
        return;
    }
    let mut list = new_entries();
    let ghost all = key_entries(keys@);
    let mut i: usize = 0;
    assert(entry_list(list@) =~= all.take(0));
    while i < keys.len()
        invariant
            i <= keys.len(),
            all == key_entries(keys@),
            entry_list(list@) == all.take(i as int),
        decreases keys.len() - i,
    {
        put(&mut list, keys[i].0.as_str(), text_value(keys[i].1.as_str()));
        assert(all.take(i + 1) =~= all.take(i as int).push(all[i as int]));
        i = i + 1;
    }
    assert(all.take(i as int) =~= all);
    put_value(entries, "keys", Some(object(list)));
}

/// The settings as the document they are saved as.
pub fn write_config(c: &Config) -> (r: Json)
    ensures
        r@ == written(*c),
{
    broadcast use fields_of_push;

    let mut entries = new_entries();
    assert(entry_list(entries@) =~= fields(Seq::empty()));
    put_value(
        &mut entries,
        "provider",
        match c.provider {
            Some(p) => Some(text_value(p.as_str())),
            None => None,
        },
    );
    put_text(&mut entries, "model", &c.model);
    put_text(&mut entries, "language", &c.language);
    put_text(&mut entries, "shortcut", &c.shortcut);
    put_text(&mut entries, "polishShortcut", &c.polish_shortcut);
    put_text(&mut entries, "spellShortcut", &c.spell_shortcut);
    put_keys(&mut entries, &c.keys);
    put_flag(&mut entries, "autostart", c.autostart);
    put_text(&mut entries, "audioDevice", &c.audio_device);
    put_flag(&mut entries, "autoPolish", c.auto_polish);
    put_text(&mut entries, "polishModel", &c.polish_model);
    put_flag(&mut entries, "audioDucking", c.audio_ducking);
    let volume: Option<u64> = match c.audio_ducking_volume {
        Some(v) => Some(v as u64),
        None => None,
    };
    assert(opt_nat64(volume) == opt_nat8(c.audio_ducking_volume));
    put_number(&mut entries, "audioDuckingVolume", volume);
    put_flag(&mut entries, "autoUpdate", c.auto_update);
    put_number(&mut entries, "autoUpdateIntervalMinutes", c.auto_update_interval_minutes);
    put_flag(&mut entries, "meetingMic", c.meeting_mic);
    put_flag(&mut entries, "meetingSystem", c.meeting_system);
    put_flag(&mut entries, "meetingKeepTracks", c.meeting_keep_tracks);
    put_flag(&mut entries, "meetingConsent", c.meeting_consent);
    put_flag(&mut entries, "meetingGate", c.meeting_gate);
    put_text(&mut entries, "meetingMode", &c.meeting_mode);
    put_text(&mut entries, "meetingModel", &c.meeting_model);
    put_text(&mut entries, "meetingSummaryModel", &c.meeting_summary_model);
    let ghost set = fields(settings(*c));
    assert(entry_list(entries@) == set);
    let ghost extra = entry_list(c.extra@);
    let mut i: usize = 0;
    assert(set + extra.take(0) =~= set);
    while i < c.extra.len()
        invariant
            i <= c.extra.len(),
            extra == entry_list(c.extra@),
            entry_list(entries@) == set + extra.take(i as int),
        decreases c.extra.len() - i,
    {
        put(&mut entries, c.extra[i].0.as_str(), copy_json(&c.extra[i].1));
        assert(set + extra.take(i + 1) =~= (set + extra.take(i as int)).push(extra[i as int]));
        i = i + 1;
    }
    assert(extra.take(i as int) =~= extra);
    object(entries)
}

// -------------------------------------------------------------------------- reading

pub open spec fn provider_in(j: JsonView) -> Option<Provider> {
    match j.text_at("provider"@) {
        Some(name) => Provider::named(name),
        None => None,
    }
}

pub open spec fn provider_fits(j: JsonView) -> bool {
    j.get("provider"@) is None || j.get("provider"@) == Some(JsonView::Null) || provider_in(j)
        is Some
}

/// The entries of the keys.
pub open spec fn keys_in(j: JsonView) -> Seq<(Seq<char>, JsonView)> {
    match j.get("keys"@) {
        Some(JsonView::Object(entries)) => entries,
        _ => Seq::<(Seq<char>, JsonView)>::empty(),
    }
}

pub open spec fn all_texts(entries: Seq<(Seq<char>, JsonView)>) -> bool {
    forall|i: int| 0 <= i < entries.len() ==> (#[trigger] entries[i]).1.as_text() is Some
}

pub open spec fn keys_fit(j: JsonView) -> bool {
    match j.get("keys"@) {
        None => true,
        Some(JsonView::Object(entries)) => all_texts(entries),
        _ => false,
    }
}

/// The text that a name was given last.
pub open spec fn last_text(entries: Seq<(Seq<char>, JsonView)>, name: Seq<char>) -> Option<Seq<char>>
    decreases entries.len(),
{
    if entries.len() == 0 {
        None
    } else if entries.last().0 == name {
        entries.last().1.as_text()
    } else {
        last_text(entries.drop_last(), name)
    }
}

/// The entries that are no settings.
pub open spec fn unknown(entries: Seq<(Seq<char>, JsonView)>) -> Seq<(Seq<char>, JsonView)>
    decreases entries.len(),
{
    if entries.len() == 0 {
        entries
    } else {
        let before = unknown(entries.drop_last());
        if is_setting(entries.last().0) {
            before
        } else {
            before.push(entries.last())
        }
    }
}

/// Whether every setting of a document has a value of its kind.
pub open spec fn is_readable(j: JsonView) -> bool {
    &&& j is Object
    &&& provider_fits(j)
    &&& keys_fit(j)
    &&& opt_text_in(j, "model"@) is Some
    &&& opt_text_in(j, "language"@) is Some
    &&& opt_text_in(j, "shortcut"@) is Some
    &&& opt_text_in(j, "polishShortcut"@) is Some
    &&& opt_text_in(j, "spellShortcut"@) is Some
    &&& opt_flag_in(j, "autostart"@) is Some
    &&& opt_text_in(j, "audioDevice"@) is Some
    &&& opt_flag_in(j, "autoPolish"@) is Some
    &&& opt_text_in(j, "polishModel"@) is Some
    &&& opt_flag_in(j, "audioDucking"@) is Some
    &&& opt_number_in(j, "audioDuckingVolume"@, u8::MAX as nat) is Some
    &&& opt_flag_in(j, "autoUpdate"@) is Some
    &&& opt_number_in(j, "autoUpdateIntervalMinutes"@, u64::MAX as nat) is Some
    &&& opt_flag_in(j, "meetingMic"@) is Some
    &&& opt_flag_in(j, "meetingSystem"@) is Some
    &&& opt_flag_in(j, "meetingKeepTracks"@) is Some
    &&& opt_flag_in(j, "meetingConsent"@) is Some
    &&& opt_flag_in(j, "meetingGate"@) is Some
    &&& opt_text_in(j, "meetingMode"@) is Some
    &&& opt_text_in(j, "meetingModel"@) is Some
    &&& opt_text_in(j, "meetingSummaryModel"@) is Some
}

/// Whether these are the settings of a document.
pub open spec fn is_read(c: Config, j: JsonView) -> bool {
    &&& c.well_formed()
    &&& c.provider == provider_in(j)
    &&& forall|name: Seq<char>| #[trigger] key_named(c.keys@, name) == last_text(keys_in(j), name)
    &&& entry_list(c.extra@) == unknown(j->Object_0)
    &&& Some(opt_text(c.model)) == opt_text_in(j, "model"@)
    &&& Some(opt_text(c.language)) == opt_text_in(j, "language"@)
    &&& Some(opt_text(c.shortcut)) == opt_text_in(j, "shortcut"@)
    &&& Some(opt_text(c.polish_shortcut)) == opt_text_in(j, "polishShortcut"@)
    &&& Some(opt_text(c.spell_shortcut)) == opt_text_in(j, "spellShortcut"@)
    &&& Some(c.autostart) == opt_flag_in(j, "autostart"@)
    &&& Some(opt_text(c.audio_device)) == opt_text_in(j, "audioDevice"@)
    &&& Some(c.auto_polish) == opt_flag_in(j, "autoPolish"@)
    &&& Some(opt_text(c.polish_model)) == opt_text_in(j, "polishModel"@)
    &&& Some(c.audio_ducking) == opt_flag_in(j, "audioDucking"@)
    &&& Some(opt_nat8(c.audio_ducking_volume)) == opt_number_in(j, "audioDuckingVolume"@, u8::MAX as nat)
    &&& Some(c.auto_update) == opt_flag_in(j, "autoUpdate"@)
    &&& Some(opt_nat64(c.auto_update_interval_minutes)) == opt_number_in(j, "autoUpdateIntervalMinutes"@, u64::MAX as nat)
    &&& Some(c.meeting_mic) == opt_flag_in(j, "meetingMic"@)
    &&& Some(c.meeting_system) == opt_flag_in(j, "meetingSystem"@)
    &&& Some(c.meeting_keep_tracks) == opt_flag_in(j, "meetingKeepTracks"@)
    &&& Some(c.meeting_consent) == opt_flag_in(j, "meetingConsent"@)
    &&& Some(c.meeting_gate) == opt_flag_in(j, "meetingGate"@)
    &&& Some(opt_text(c.meeting_mode)) == opt_text_in(j, "meetingMode"@)
    &&& Some(opt_text(c.meeting_model)) == opt_text_in(j, "meetingModel"@)
    &&& Some(opt_text(c.meeting_summary_model)) == opt_text_in(j, "meetingSummaryModel"@)
}

fn read_provider(j: &Json) -> (r: Option<Option<Provider>>)
    ensures
        match r {
            Some(value) => provider_fits(j@) && value == provider_in(j@),
            None => !provider_fits(j@),
        },
{
    match j.get("provider") {
        None => Some(None),
        Some(Json::Null) => Some(None),
        Some(Json::Text(t)) => match Provider::parse(t.as_str()) {
            Ok(p) => Some(Some(p)),
            Err(_) => None,
        },
        Some(_) => None,
    }
}

/// Saves the keys of a document. `false` where one of them is no text.
fn read_keys(config: &mut Config, j: &Json) -> (r: bool)
    requires
        old(config).well_formed(),
        old(config).keys@.len() == 0,
    ensures
        r == keys_fit(j@),
        r ==> {
            &&& final(config).well_formed()
            &&& *final(config) == (Config { keys: final(config).keys, ..*old(config) })
            &&& forall|name: Seq<char>|
                #[trigger] key_named(final(config).keys@, name) == last_text(keys_in(j@), name)
        },
{
    match j.get("keys") {
        None => true,
        Some(value) => match value {
            Json::Object(entries) => {
                let ghost all = value@->Object_0;
                let ghost start = *config;
                let mut i: usize = 0;
                while i < entries.len()
                    invariant
                        i <= entries.len(),
                        *value is Object,
                        *entries == value->Object_0,
                        all == value@->Object_0,
                        all.len() == entries.len(),
                        j@.get("keys"@) == Some(value@),
                        config.well_formed(),
                        *config == (Config { keys: config.keys, ..start }),
                        all_texts(all.take(i as int)),
                        forall|name: Seq<char>|
                            #[trigger] key_named(config.keys@, name) == last_text(
                                all.take(i as int),
                                name,
                            ),
                    decreases entries.len() - i,
                {
                    assert(all.take(i + 1).drop_last() == all.take(i as int));
                    assert(all.take(i + 1).last() == all[i as int]);
                    assert(all[i as int] == (entries@[i as int].0@, entries@[i as int].1@));
                    match entries[i].1.as_text() {
                        Some(key) => {
                            config.save_key(entries[i].0.as_str(), key.as_str());
                            assert forall|k: int| 0 <= k < i + 1 implies (#[trigger] all.take(
                                i + 1,
                            )[k]).1.as_text() is Some by {
                                if k < i {
                                    assert(all.take(i as int)[k] == all[k]);
                                }
                            }
                        },
                        None => {
                            assert(all[i as int].1.as_text() is None);
                            return false;
                        },
                    }
                    i = i + 1;
                }
                assert(all.take(i as int) == all);
                true
            },
            _ => false,
        },
    }
}

fn read_unknown(entries: &Vec<(String, Json)>) -> (r: Vec<(String, Json)>)
    ensures
        entry_list(r@) == unknown(entry_list(entries@)),
{
    let ghost all = entry_list(entries@);
    let mut kept = new_entries();
    let mut i: usize = 0;
    assert(entry_list(kept@) =~= all.take(0));
    while i < entries.len()
        invariant
            i <= entries.len(),
            all == entry_list(entries@),
            entry_list(kept@) == unknown(all.take(i as int)),
        decreases entries.len() - i,
    {
        assert(all.take(i + 1).drop_last() == all.take(i as int));
        assert(all.take(i + 1).last() == (entries@[i as int].0@, entries@[i as int].1@));
        if !names_setting(entries[i].0.as_str()) {
            put(&mut kept, entries[i].0.as_str(), copy_json(&entries[i].1));
        }
        i = i + 1;
    }
    assert(all.take(i as int) == all);
    kept
}

/// The settings in a document. `None` where it holds a value of the wrong kind.
pub fn read_config(j: &Json) -> (r: Option<Config>)
    ensures
        match r {
            Some(c) => is_readable(j@) && is_read(c, j@),
            None => !is_readable(j@),
        },
{
    let entries = match j {
        Json::Object(entries) => entries,
        _ => {
            return None;
        },
    };
    assert(j@->Object_0 =~= entry_list(entries@));
    let mut c = Config::empty();
    if !read_keys(&mut c, j) {
        return None;
    }
    match read_provider(j) {
        Some(value) => {
            c.provider = value;
        },
        None => {
            return None;
        },
    }
    match read_opt_text(j, "model") {
        Some(value) => {
            c.model = value;
        },
        None => {
            return None;
        },
    }
    match read_opt_text(j, "language") {
        Some(value) => {
            c.language = value;
        },
        None => {
            return None;
        },
    }
    match read_opt_text(j, "shortcut") {
        Some(value) => {
            c.shortcut = value;
        },
        None => {
            return None;
        },
    }
    match read_opt_text(j, "polishShortcut") {
        Some(value) => {
            c.polish_shortcut = value;
        },
        None => {
            return None;
        },
    }
    match read_opt_text(j, "spellShortcut") {
        Some(value) => {
            c.spell_shortcut = value;
        },
        None => {
            return None;
        },
    }
    match read_opt_flag(j, "autostart") {
        Some(value) => {
            c.autostart = value;
        },
        None => {
            return None;
        },
    }
    match read_opt_text(j, "audioDevice") {
        Some(value) => {
            c.audio_device = value;
        },
        None => {
            return None;
        },
    }
    match read_opt_flag(j, "autoPolish") {
        Some(value) => {
            c.auto_polish = value;
        },
        None => {
            return None;
        },
    }
    match read_opt_text(j, "polishModel") {
        Some(value) => {
            c.polish_model = value;
        },
        None => {
            return None;
        },
    }
    match read_opt_flag(j, "audioDucking") {
        Some(value) => {
            c.audio_ducking = value;
        },
        None => {
            return None;
        },
    }
    match read_opt_number(j, "audioDuckingVolume", 255) {
        Some(value) => {
            c.audio_ducking_volume = match value {
                Some(v) => Some(v as u8),
                None => None,
            };
        },
        None => {
            return None;
        },
    }
    match read_opt_flag(j, "autoUpdate") {
        Some(value) => {
            c.auto_update = value;
        },
        None => {
            return None;
        },
    }
    match read_opt_number(j, "autoUpdateIntervalMinutes", u64::MAX) {
        Some(value) => {
            c.auto_update_interval_minutes = value;
        },
        None => {
            return None;
        },
    }
    match read_opt_flag(j, "meetingMic") {
        Some(value) => {
            c.meeting_mic = value;
        },
        None => {
            return None;
        },
    }
    match read_opt_flag(j, "meetingSystem") {
        Some(value) => {
            c.meeting_system = value;
        },
        None => {
            return None;
        },
    }
    match read_opt_flag(j, "meetingKeepTracks") {
        Some(value) => {
            c.meeting_keep_tracks = value;
        },
        None => {
            return None;
        },
    }
    match read_opt_flag(j, "meetingConsent") {
        Some(value) => {
            c.meeting_consent = value;
        },
        None => {
            return None;
        },
    }
    match read_opt_flag(j, "meetingGate") {
        Some(value) => {
            c.meeting_gate = value;
        },
        None => {
            return None;
        },
    }
    match read_opt_text(j, "meetingMode") {
        Some(value) => {
            c.meeting_mode = value;
        },
        None => {
            return None;
        },
    }
    match read_opt_text(j, "meetingModel") {
        Some(value) => {
            c.meeting_model = value;
        },
        None => {
            return None;
        },
    }
    match read_opt_text(j, "meetingSummaryModel") {
        Some(value) => {
            c.meeting_summary_model = value;
        },
        None => {
            return None;
        },
    }
    c.extra = read_unknown(entries);
    Some(c)
}

/// Whether these are the settings in the text of a file. A file that cannot be read is an
/// empty one: setup starts clean rather than failing.
pub open spec fn is_loaded(c: Config, text: Seq<char>) -> bool {
    if json_read(text) is Some && is_readable(json_read(text)->0) {
        is_read(c, json_read(text)->0)
    } else {
        written(c) == JsonView::Object(Seq::empty())
    }
}

/// The settings in the text of a file. What they carry through can be saved and read again.
pub fn load_config(text: &str) -> (r: Config)
    ensures
        r.well_formed(),
        is_loaded(r, text@),
        carries_unknown(r),
        has_ordinary_names(r) ==> carries_plain(r),
{
    let loaded = match parse_json(text) {
        Some(j) => {
            let c = read_config(&j);
            proof {
                if c is Some {
                    only_the_unknown_is_carried(c->0, j@);
                    the_unknown_is_plain(j@->Object_0, (READABLE_DEPTH - 1) as nat);
                }
            }
            c
        },
        None => None,
    };
    match loaded {
        Some(c) => c,
        None => {
            let c = Config::empty();
            proof {
                nothing_is_written_of_nothing(c);
            }
            c
        },
    }
}

// ---------------------------------------------------------------------------- laws

proof fn unknown_of_both(a: Seq<(Seq<char>, JsonView)>, b: Seq<(Seq<char>, JsonView)>)
    ensures
        unknown(a + b) == unknown(a) + unknown(b),
    decreases b.len(),
{
    if b.len() == 0 {
        assert(a + b =~= a);
        assert(unknown(a) + unknown(b) =~= unknown(a));
    } else {
        assert((a + b).drop_last() =~= a + b.drop_last());
        assert((a + b).last() == b.last());
        unknown_of_both(a, b.drop_last());
        assert(unknown(a + b) =~= unknown(a) + unknown(b));
    }
}

proof fn settings_are_known(settings: Seq<(Seq<char>, Option<JsonView>)>)
    requires
        forall|i: int| 0 <= i < settings.len() ==> is_setting((#[trigger] settings[i]).0),
    ensures
        unknown(fields(settings)) == Seq::<(Seq<char>, JsonView)>::empty(),
    decreases settings.len(),
{
    if settings.len() > 0 {
        let before = settings.drop_last();
        let last = settings.last();
        assert forall|i: int| 0 <= i < before.len() implies is_setting((#[trigger] before[i]).0) by {
            assert(before[i] == settings[i]);
        }
        settings_are_known(before);
        let e = entry(last.0, last.1);
        assert(unknown(e) =~= Seq::empty()) by {
            if e.len() > 0 {
                assert(e.drop_last() =~= Seq::empty());
                assert(unknown(e.drop_last()) =~= Seq::empty());
            }
        }
        unknown_of_both(fields(before), e);
    }
}

proof fn unknown_stays(entries: Seq<(Seq<char>, JsonView)>)
    requires
        forall|i: int| 0 <= i < entries.len() ==> !is_setting((#[trigger] entries[i]).0),
    ensures
        unknown(entries) == entries,
    decreases entries.len(),
{
    if entries.len() > 0 {
        assert(!is_setting(entries.last().0));
        assert forall|i: int| 0 <= i < entries.drop_last().len() implies !is_setting(
            (#[trigger] entries.drop_last()[i]).0,
        ) by {
            assert(entries.drop_last()[i] == entries[i]);
        }
        unknown_stays(entries.drop_last());
    }
}

proof fn last_text_at(keys: Seq<(String, String)>, name: Seq<char>)
    requires
        keys_in_order(keys),
    ensures
        last_text(key_entries(keys), name) == key_named(keys, name),
{
    if exists|i: int| 0 <= i < keys.len() && (#[trigger] keys[i]).0@ == name {
        let i = choose|i: int| 0 <= i < keys.len() && (#[trigger] keys[i]).0@ == name;
        key_named_at(keys, name, i);
        last_text_of(keys, name, i, keys.len() as int);
        assert(key_entries(keys).take(keys.len() as int) =~= key_entries(keys));
    } else {
        key_named_none(keys, name);
        no_last_text(key_entries(keys), name);
    }
}

proof fn last_text_of(keys: Seq<(String, String)>, name: Seq<char>, i: int, n: int)
    requires
        keys_in_order(keys),
        0 <= i < n <= keys.len(),
        keys[i].0@ == name,
    ensures
        last_text(key_entries(keys).take(n), name) == Some(keys[i].1@),
    decreases n,
{
    let e = key_entries(keys).take(n);
    assert(e.drop_last() =~= key_entries(keys).take(n - 1));
    assert(e.last() == key_entries(keys)[n - 1]);
    if i < n - 1 {
        assert(keys[i].0@ != keys[n - 1].0@);
        last_text_of(keys, name, i, n - 1);
    }
}

proof fn no_last_text(entries: Seq<(Seq<char>, JsonView)>, name: Seq<char>)
    requires
        forall|i: int| 0 <= i < entries.len() ==> (#[trigger] entries[i]).0 != name,
    ensures
        last_text(entries, name) is None,
    decreases entries.len(),
{
    if entries.len() > 0 {
        assert forall|i: int| 0 <= i < entries.drop_last().len() implies (
        #[trigger] entries.drop_last()[i]).0 != name by {
            assert(entries.drop_last()[i] == entries[i]);
        }
        no_last_text(entries.drop_last(), name);
    }
}

/// Whether two are the same settings.
pub open spec fn same_settings(a: Config, b: Config) -> bool {
    &&& a.provider == b.provider
    &&& forall|name: Seq<char>|
        #[trigger] key_named(a.keys@, name) == key_named(b.keys@, name)
    &&& entry_list(a.extra@) == entry_list(b.extra@)
    &&& opt_text(a.model) == opt_text(b.model)
    &&& opt_text(a.language) == opt_text(b.language)
    &&& opt_text(a.shortcut) == opt_text(b.shortcut)
    &&& opt_text(a.polish_shortcut) == opt_text(b.polish_shortcut)
    &&& opt_text(a.spell_shortcut) == opt_text(b.spell_shortcut)
    &&& a.autostart == b.autostart
    &&& opt_text(a.audio_device) == opt_text(b.audio_device)
    &&& a.auto_polish == b.auto_polish
    &&& opt_text(a.polish_model) == opt_text(b.polish_model)
    &&& a.audio_ducking == b.audio_ducking
    &&& a.audio_ducking_volume == b.audio_ducking_volume
    &&& a.auto_update == b.auto_update
    &&& a.auto_update_interval_minutes == b.auto_update_interval_minutes
    &&& a.meeting_mic == b.meeting_mic
    &&& a.meeting_system == b.meeting_system
    &&& a.meeting_keep_tracks == b.meeting_keep_tracks
    &&& a.meeting_consent == b.meeting_consent
    &&& a.meeting_gate == b.meeting_gate
    &&& opt_text(a.meeting_mode) == opt_text(b.meeting_mode)
    &&& opt_text(a.meeting_model) == opt_text(b.meeting_model)
    &&& opt_text(a.meeting_summary_model) == opt_text(b.meeting_summary_model)
}

/// What is carried through is no setting.
pub open spec fn carries_unknown(c: Config) -> bool {
    forall|i: int| 0 <= i < c.extra@.len() ==> !is_setting((#[trigger] c.extra@[i]).0@)
}

/// What is written under the name of a setting is its value.
proof fn written_member(c: Config, i: int)
    requires
        carries_unknown(c),
        0 <= i < settings(c).len(),
    ensures
        written(c).get(settings(c)[i].0) == settings(c)[i].1,
{
    let all = settings(c);
    let name = all[i].0;
    let extra = entry_list(c.extra@);
    settings_have_different_places();
    assert forall|j: int, k: int| 0 <= j < k < all.len() implies (#[trigger] all[j]).0 != (
    #[trigger] all[k]).0 by {
        assert(place(all[j].0) == j);
        assert(place(all[k].0) == k);
    }
    field_listed(all, i);
    assert(is_setting(name));
    assert forall|j: int| 0 <= j < extra.len() implies (#[trigger] extra[j]).0 != name by {
        assert(!is_setting(c.extra@[j].0@));
    }
    entry_of_none(extra, name);
    entry_of_both(fields(all), extra, name);
}

proof fn written_members(c: Config)
    requires
        carries_unknown(c),
    ensures
        written(c).get("provider"@) == provider_json(c.provider),
        written(c).get("model"@) == text_json(c.model),
        written(c).get("language"@) == text_json(c.language),
        written(c).get("shortcut"@) == text_json(c.shortcut),
        written(c).get("polishShortcut"@) == text_json(c.polish_shortcut),
        written(c).get("spellShortcut"@) == text_json(c.spell_shortcut),
        written(c).get("keys"@) == keys_json(c.keys@),
        written(c).get("autostart"@) == flag_json(c.autostart),
        written(c).get("audioDevice"@) == text_json(c.audio_device),
        written(c).get("autoPolish"@) == flag_json(c.auto_polish),
        written(c).get("polishModel"@) == text_json(c.polish_model),
        written(c).get("audioDucking"@) == flag_json(c.audio_ducking),
        written(c).get("audioDuckingVolume"@) == number_json(opt_nat8(c.audio_ducking_volume)),
        written(c).get("autoUpdate"@) == flag_json(c.auto_update),
        written(c).get("autoUpdateIntervalMinutes"@) == number_json(opt_nat64(c.auto_update_interval_minutes)),
        written(c).get("meetingMic"@) == flag_json(c.meeting_mic),
        written(c).get("meetingSystem"@) == flag_json(c.meeting_system),
        written(c).get("meetingKeepTracks"@) == flag_json(c.meeting_keep_tracks),
        written(c).get("meetingConsent"@) == flag_json(c.meeting_consent),
        written(c).get("meetingGate"@) == flag_json(c.meeting_gate),
        written(c).get("meetingMode"@) == text_json(c.meeting_mode),
        written(c).get("meetingModel"@) == text_json(c.meeting_model),
        written(c).get("meetingSummaryModel"@) == text_json(c.meeting_summary_model),
{
    written_member(c, 0);
    written_member(c, 1);
    written_member(c, 2);
    written_member(c, 3);
    written_member(c, 4);
    written_member(c, 5);
    written_member(c, 6);
    written_member(c, 7);
    written_member(c, 8);
    written_member(c, 9);
    written_member(c, 10);
    written_member(c, 11);
    written_member(c, 12);
    written_member(c, 13);
    written_member(c, 14);
    written_member(c, 15);
    written_member(c, 16);
    written_member(c, 17);
    written_member(c, 18);
    written_member(c, 19);
    written_member(c, 20);
    written_member(c, 21);
    written_member(c, 22);
}

/// What was written can be read.
pub proof fn written_settings_are_readable(c: Config)
    requires
        c.well_formed(),
        carries_unknown(c),
    ensures
        is_readable(written(c)),
{
    written_members(c);
    assert(all_texts(key_entries(c.keys@)));
    values_read_back(c);
}

proof fn values_read_back(c: Config)
    ensures
        c.provider is Some ==> Provider::named(c.provider->0.name()) == c.provider,
        c.audio_ducking_volume is Some ==> parsed(
            decimal(c.audio_ducking_volume->0 as nat),
            u8::MAX as nat,
        ) == Some(c.audio_ducking_volume->0 as nat),
        c.auto_update_interval_minutes is Some ==> parsed(
            decimal(c.auto_update_interval_minutes->0 as nat),
            u64::MAX as nat,
        ) == Some(c.auto_update_interval_minutes->0 as nat),
{
    if c.provider is Some {
        provider_names_read_back(c.provider->0);
    }
    if c.audio_ducking_volume is Some {
        parse_reads_back_decimal(c.audio_ducking_volume->0 as nat, u8::MAX as nat);
    }
    if c.auto_update_interval_minutes is Some {
        parse_reads_back_decimal(c.auto_update_interval_minutes->0 as nat, u64::MAX as nat);
    }
}

/// What is read back of settings that were written are those settings: none is lost or
/// changed, and those that this build does not know survive.
pub proof fn settings_survive_being_saved(c: Config, r: Config)
    requires
        c.well_formed(),
        carries_unknown(c),
        is_read(r, written(c)),
    ensures
        same_settings(r, c),
{
    written_members(c);
    values_read_back(c);
    let j = written(c);
    let extra = entry_list(c.extra@);
    assert forall|i: int| 0 <= i < extra.len() implies !is_setting((#[trigger] extra[i]).0) by {
        assert(!is_setting(c.extra@[i].0@));
    }
    unknown_stays(extra);
    assert forall|i: int| 0 <= i < settings(c).len() implies is_setting(
        (#[trigger] settings(c)[i]).0,
    ) by {}
    settings_are_known(settings(c));
    unknown_of_both(fields(settings(c)), extra);
    assert(unknown(j->Object_0) =~= extra);
    assert forall|name: Seq<char>| #[trigger] key_named(r.keys@, name) == key_named(
        c.keys@,
        name,
    ) by {
        last_text_at(c.keys@, name);
        if c.keys@.len() == 0 {
            key_named_none(c.keys@, name);
        }
    }
}

/// No setting has the name that is kept for numbers.
proof fn settings_have_ordinary_names(c: Config)
    ensures
        forall|i: int| 0 <= i < settings(c).len() ==> (#[trigger] settings(c)[i]).0 != NUMBER_NAME@,
{
    reveal(mark);
    reveal_strlit("$serde_json::private::Number");
    settings_have_different_places();
    settings_have_different_marks();
    assert(place(NUMBER_NAME@) == -1);
    assert forall|i: int| 0 <= i < settings(c).len() implies (#[trigger] settings(c)[i]).0
        != NUMBER_NAME@ by {
        assert(place(settings(c)[i].0) == i);
    }
}

/// Settings are a plain document where those that were carried through are.
proof fn settings_are_plain(c: Config)
    requires
        c.well_formed(),
        carries_unknown(c),
        carries_plain(c),
    ensures
        is_plain(written(c), READABLE_DEPTH as nat),
{
    let depth: nat = (READABLE_DEPTH - 1) as nat;
    let all = settings(c);
    let extra = entry_list(c.extra@);
    settings_have_different_places();
    assert forall|j: int, k: int| 0 <= j < k < all.len() implies (#[trigger] all[j]).0 != (
    #[trigger] all[k]).0 by {
        assert(place(all[j].0) == j);
        assert(place(all[k].0) == k);
    }
    if c.audio_ducking_volume is Some {
        decimal_is_numeral(c.audio_ducking_volume->0 as nat);
    }
    if c.auto_update_interval_minutes is Some {
        decimal_is_numeral(c.auto_update_interval_minutes->0 as nat);
    }
    let keys = key_entries(c.keys@);
    assert(distinct_names(keys)) by {
        assert forall|i: int, k: int| 0 <= i < k < keys.len() implies (#[trigger] keys[i]).0 != (
        #[trigger] keys[k]).0 by {
            assert(c.keys@[i].0@ != c.keys@[k].0@);
        }
    }
    assert(is_plain(JsonView::Object(keys), depth)) by {
        if keys.len() > 0 {
            assert(keys[0].0 == c.keys@[0].0@);
        }
        assert forall|i: int| 0 <= i < keys.len() implies is_plain(
            (#[trigger] keys[i]).1,
            (depth - 1) as nat,
        ) by {
            assert(keys[i].1 is Text);
        }
    }
    assert forall|i: int| 0 <= i < all.len() implies ((#[trigger] all[i]).1 is Some ==> is_plain(
        all[i].1->0,
        depth,
    )) by {}
    settings_have_ordinary_names(c);
    fields_are_plain(all, depth);
    let entries = fields(all) + extra;
    assert forall|i: int| 0 <= i < entries.len() implies is_plain((#[trigger] entries[i]).1, depth) by {
        if i < fields(all).len() {
            assert(entries[i] == fields(all)[i]);
        } else {
            assert(entries[i] == extra[i - fields(all).len()]);
        }
    }
    assert forall|i: int, k: int| 0 <= i < k < entries.len() implies (#[trigger] entries[i]).0 != (
    #[trigger] entries[k]).0 by {
        let n = fields(all).len();
        if k < n {
            assert(entries[i] == fields(all)[i] && entries[k] == fields(all)[k]);
        } else if i >= n {
            assert(entries[i] == extra[i - n] && entries[k] == extra[k - n]);
        } else {
            assert(entries[i] == fields(all)[i] && entries[k] == extra[k - n]);
            let m = choose|m: int|
                0 <= m < all.len() && fields(all)[i].0 == (#[trigger] all[m]).0;
            assert(is_setting(all[m].0));
            assert(!is_setting(c.extra@[k - n].0@));
        }
    }
}

/// Whether neither a carried setting nor a key has the name that is kept for numbers.
pub open spec fn has_ordinary_names(c: Config) -> bool {
    &&& forall|i: int| 0 <= i < c.extra@.len() ==> (#[trigger] c.extra@[i]).0@ != NUMBER_NAME@
    &&& forall|i: int| 0 <= i < c.keys@.len() ==> (#[trigger] c.keys@[i]).0@ != NUMBER_NAME@
}

/// Of plain entries with different names, those that are no settings are such entries too.
proof fn the_unknown_is_plain(entries: Seq<(Seq<char>, JsonView)>, depth: nat)
    requires
        distinct_names(entries),
        forall|i: int| 0 <= i < entries.len() ==> is_plain((#[trigger] entries[i]).1, depth),
    ensures
        distinct_names(unknown(entries)),
        forall|i: int|
            0 <= i < unknown(entries).len() ==> is_plain((#[trigger] unknown(entries)[i]).1, depth)
                && entries.contains(unknown(entries)[i]),
    decreases entries.len(),
{
    if entries.len() > 0 {
        let short = entries.drop_last();
        assert forall|i: int, k: int| 0 <= i < k < short.len() implies (#[trigger] short[i]).0 != (
        #[trigger] short[k]).0 by {
            assert(short[i] == entries[i] && short[k] == entries[k]);
        }
        assert forall|i: int| 0 <= i < short.len() implies is_plain(
            (#[trigger] short[i]).1,
            depth,
        ) by {
            assert(short[i] == entries[i]);
        }
        the_unknown_is_plain(short, depth);
        let before = unknown(short);
        let all = unknown(entries);
        assert(entries[entries.len() - 1] == entries.last());
        assert forall|i: int| 0 <= i < before.len() implies entries.contains(
            #[trigger] before[i],
        ) && before[i].0 != entries.last().0 by {
            assert(short.contains(before[i]));
            let k = choose|k: int| 0 <= k < short.len() && short[k] == before[i];
            assert(entries[k] == before[i]);
            assert(entries[k].0 != entries[entries.len() - 1].0);
        }
        assert forall|i: int| 0 <= i < all.len() implies is_plain((#[trigger] all[i]).1, depth)
            && entries.contains(all[i]) by {
            if i < before.len() {
                assert(all[i] == before[i]);
            }
        }
        assert forall|i: int, k: int| 0 <= i < k < all.len() implies (#[trigger] all[i]).0 != (
        #[trigger] all[k]).0 by {
            assert(all[i] == before[i]);
            if k < before.len() {
                assert(all[k] == before[k]);
            }
        }
    }
}

/// Whether the settings that were carried through are plain, and neither they nor the keys
/// have the name that is kept for numbers.
pub open spec fn carries_plain(c: Config) -> bool {
    &&& is_plain(JsonView::Object(entry_list(c.extra@)), READABLE_DEPTH as nat)
    &&& forall|i: int| 0 <= i < c.keys@.len() ==> (#[trigger] c.keys@[i]).0@ != NUMBER_NAME@
}

/// The text that the settings are saved as. What is loaded out of it are those settings:
/// none is lost or changed, and those that this build does not know survive.
pub fn config_text(c: &Config) -> (r: String)
    ensures
        r@ == json_pretty(json_stored(written(*c))),
        c.well_formed() && carries_unknown(*c) && carries_plain(*c) ==> forall|loaded: Config|
            #[trigger] is_loaded(loaded, r@) ==> same_settings(loaded, *c),
{
    let r = pretty_json(&write_config(c));
    proof {
        if c.well_formed() && carries_unknown(*c) && carries_plain(*c) {
            settings_are_plain(*c);
            written_settings_are_readable(*c);
            assert forall|loaded: Config| #[trigger] is_loaded(loaded, r@) implies same_settings(
                loaded,
                *c,
            ) by {
                settings_survive_being_saved(*c, loaded);
            }
        }
    }
    r
}

/// What is read carries through only what is no setting.
pub proof fn only_the_unknown_is_carried(c: Config, j: JsonView)
    requires
        is_read(c, j),
    ensures
        carries_unknown(c),
{
    unknown_is_unknown(j->Object_0);
    assert forall|i: int| 0 <= i < c.extra@.len() implies !is_setting(
        (#[trigger] c.extra@[i]).0@,
    ) by {
        assert(entry_list(c.extra@)[i] == unknown(j->Object_0)[i]);
    }
}

proof fn unknown_is_unknown(entries: Seq<(Seq<char>, JsonView)>)
    ensures
        forall|i: int|
            0 <= i < unknown(entries).len() ==> !is_setting((#[trigger] unknown(entries)[i]).0),
    decreases entries.len(),
{
    if entries.len() > 0 {
        unknown_is_unknown(entries.drop_last());
        let before = unknown(entries.drop_last());
        assert forall|i: int| 0 <= i < unknown(entries).len() implies !is_setting(
            (#[trigger] unknown(entries)[i]).0,
        ) by {
            if i < before.len() {
                assert(unknown(entries)[i] == before[i]);
            }
        }
    }
}

/// Settings that are not set are left out: an empty setup is an empty document.
pub proof fn nothing_is_written_of_nothing(c: Config)
    requires
        c.keys@.len() == 0,
        c.extra@.len() == 0,
        c.provider is None,
        c.model is None,
        c.language is None,
        c.shortcut is None,
        c.polish_shortcut is None,
        c.spell_shortcut is None,
        c.autostart is None,
        c.audio_device is None,
        c.auto_polish is None,
        c.polish_model is None,
        c.audio_ducking is None,
        c.audio_ducking_volume is None,
        c.auto_update is None,
        c.auto_update_interval_minutes is None,
        c.meeting_mic is None,
        c.meeting_system is None,
        c.meeting_keep_tracks is None,
        c.meeting_consent is None,
        c.meeting_gate is None,
        c.meeting_mode is None,
        c.meeting_model is None,
        c.meeting_summary_model is None,
    ensures
        written(c) == JsonView::Object(Seq::<(Seq<char>, JsonView)>::empty()),
{
    broadcast use fields_of_push;

    assert(fields(Seq::empty()) == Seq::<(Seq<char>, JsonView)>::empty());
    assert(fields(settings(c)) + entry_list(c.extra@) =~= Seq::empty());
}

/// What is read of a file that holds a setting is that setting, whatever else the file holds.
pub proof fn every_setting_is_read_from_its_name(
    c: Config,
    j: JsonView,
    text: Seq<char>,
    flag: bool,
)
    requires
        is_read(c, j),
    ensures
        j.get("model"@) == Some(JsonView::Text(text)) ==> opt_text(c.model) == Some(text),
        j.get("language"@) == Some(JsonView::Text(text)) ==> opt_text(c.language) == Some(text),
        j.get("shortcut"@) == Some(JsonView::Text(text)) ==> opt_text(c.shortcut) == Some(text),
        j.get("polishShortcut"@) == Some(JsonView::Text(text)) ==> opt_text(c.polish_shortcut)
            == Some(text),
        j.get("spellShortcut"@) == Some(JsonView::Text(text)) ==> opt_text(c.spell_shortcut)
            == Some(text),
        j.get("audioDevice"@) == Some(JsonView::Text(text)) ==> opt_text(c.audio_device) == Some(
            text,
        ),
        j.get("polishModel"@) == Some(JsonView::Text(text)) ==> opt_text(c.polish_model) == Some(
            text,
        ),
        j.get("meetingMode"@) == Some(JsonView::Text(text)) ==> opt_text(c.meeting_mode) == Some(
            text,
        ),
        j.get("meetingModel"@) == Some(JsonView::Text(text)) ==> opt_text(c.meeting_model) == Some(
            text,
        ),
        j.get("meetingSummaryModel"@) == Some(JsonView::Text(text)) ==> opt_text(
            c.meeting_summary_model,
        ) == Some(text),
        j.get("autostart"@) == Some(JsonView::Bool(flag)) ==> c.autostart == Some(flag),
        j.get("autoPolish"@) == Some(JsonView::Bool(flag)) ==> c.auto_polish == Some(flag),
        j.get("audioDucking"@) == Some(JsonView::Bool(flag)) ==> c.audio_ducking == Some(flag),
        j.get("autoUpdate"@) == Some(JsonView::Bool(flag)) ==> c.auto_update == Some(flag),
        j.get("meetingMic"@) == Some(JsonView::Bool(flag)) ==> c.meeting_mic == Some(flag),
        j.get("meetingSystem"@) == Some(JsonView::Bool(flag)) ==> c.meeting_system == Some(flag),
        j.get("meetingKeepTracks"@) == Some(JsonView::Bool(flag)) ==> c.meeting_keep_tracks == Some(
            flag,
        ),
        j.get("meetingConsent"@) == Some(JsonView::Bool(flag)) ==> c.meeting_consent == Some(flag),
        j.get("meetingGate"@) == Some(JsonView::Bool(flag)) ==> c.meeting_gate == Some(flag),
{
}

/// Every setting is written under its own name, and one that was never made is left out.
pub proof fn every_setting_is_written_under_its_name(c: Config)
    requires
        carries_unknown(c),
    ensures
        written(c).get("provider"@) == provider_json(c.provider),
        written(c).get("model"@) == text_json(c.model),
        written(c).get("language"@) == text_json(c.language),
        written(c).get("shortcut"@) == text_json(c.shortcut),
        written(c).get("polishShortcut"@) == text_json(c.polish_shortcut),
        written(c).get("spellShortcut"@) == text_json(c.spell_shortcut),
        written(c).get("keys"@) == keys_json(c.keys@),
        written(c).get("autostart"@) == flag_json(c.autostart),
        written(c).get("audioDevice"@) == text_json(c.audio_device),
        written(c).get("autoPolish"@) == flag_json(c.auto_polish),
        written(c).get("polishModel"@) == text_json(c.polish_model),
        written(c).get("audioDucking"@) == flag_json(c.audio_ducking),
        written(c).get("audioDuckingVolume"@) == number_json(opt_nat8(c.audio_ducking_volume)),
        written(c).get("autoUpdate"@) == flag_json(c.auto_update),
        written(c).get("autoUpdateIntervalMinutes"@) == number_json(opt_nat64(c.auto_update_interval_minutes)),
        written(c).get("meetingMic"@) == flag_json(c.meeting_mic),
        written(c).get("meetingSystem"@) == flag_json(c.meeting_system),
        written(c).get("meetingKeepTracks"@) == flag_json(c.meeting_keep_tracks),
        written(c).get("meetingConsent"@) == flag_json(c.meeting_consent),
        written(c).get("meetingGate"@) == flag_json(c.meeting_gate),
        written(c).get("meetingMode"@) == text_json(c.meeting_mode),
        written(c).get("meetingModel"@) == text_json(c.meeting_model),
        written(c).get("meetingSummaryModel"@) == text_json(c.meeting_summary_model),
{
    written_members(c);
}

} // verus!
