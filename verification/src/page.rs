//! The documents that the dashboard page reads.
use vstd::prelude::*;
use crate::config::{
    Config, DEFAULT_MEETING_MODEL, DEFAULT_POLISH_MODEL, DEFAULT_POLISH_SHORTCUT,
    DEFAULT_SHORTCUT, DEFAULT_SPELL_SHORTCUT, ModelOption, Provider, known_models, model_options,
    offer, offers, on_unless_off, setting_or,
};
use crate::config_file::provider_json;
use crate::json::{
    Json, JsonView, array, distinct_names, every_member_is_found, json_list, json_texts,
    new_entries, object, put, text_array, text_json, text_value, the_first_of_its_name_is_found,
};
use crate::meeting_desk::{note_title_of, title_in};
use crate::members::{
    opt_seconds, opt_seconds_json, opt_text_value, or_null, seconds_json, value_or_null,
    write_count, write_seconds,
};
use crate::number::decimal;
use crate::sarvam_batch::Mode;
use crate::state::ActiveMeeting;
use crate::storage::{Transcript, TranscriptView, history_json, history_view, write_history};
use crate::text::texts;
use crate::time::Time;
use crate::transcript_file::opt_mode_json;

verus! {

// ------------------------------------------------------------------------ dictation

/// The dictation settings as the page shows them.
pub open spec fn setup_json(c: Config) -> JsonView {
    JsonView::Object(
        Seq::empty()
            .push(("provider"@, or_null(provider_json(c.provider))))
            .push(("model"@, or_null(text_json(c.model))))
            .push(("shortcut"@, JsonView::Text(setting_or(c.shortcut, DEFAULT_SHORTCUT@))))
            .push(("polishShortcut"@, JsonView::Text(setting_or(c.polish_shortcut, DEFAULT_POLISH_SHORTCUT@))))
            .push(("spellShortcut"@, JsonView::Text(setting_or(c.spell_shortcut, DEFAULT_SPELL_SHORTCUT@))))
            .push(("autoPolish"@, JsonView::Bool(c.auto_polish == Some(true)))),
    )
}

/// A dictation model as the page offers it, with whether its key is there.
pub open spec fn offer_json(c: Config, o: (Seq<char>, Provider, Seq<char>)) -> JsonView {
    JsonView::Object(
        Seq::empty()
            .push(("label"@, JsonView::Text(o.0)))
            .push(("model"@, JsonView::Text(o.2)))
            .push(("provider"@, JsonView::Text(o.1.name())))
            .push(("hasKey"@, JsonView::Bool(c.has_key(o.1)))),
    )
}

/// Everything the dictation half of the page shows.
pub open spec fn state_json(c: Config, listeners: nat, history: Seq<TranscriptView>) -> JsonView {
    JsonView::Object(
        Seq::empty()
            .push(("setup"@, setup_json(c)))
            .push(("models"@, JsonView::Array(Seq::new(known_models().len(), |i: int| offer_json(c, known_models()[i])))))
            .push(("listeners"@, JsonView::Number(decimal(listeners))))
            .push(("history"@, history_json(history))),
    )
}

fn write_setup(c: &Config) -> (r: Json)
    ensures
        r@ == setup_json(*c),
{
    let mut e = new_entries();
    put(
        &mut e,
        "provider",
        match c.provider {
            Some(p) => text_value(p.as_str()),
            None => Json::Null,
        },
    );
    put(&mut e, "model", value_or_null(opt_text_value(&c.model)));
    put(&mut e, "shortcut", text_value(c.shortcut_or_default()));
    put(&mut e, "polishShortcut", text_value(c.polish_shortcut_or_default()));
    put(&mut e, "spellShortcut", text_value(c.spell_shortcut_or_default()));
    put(&mut e, "autoPolish", Json::Bool(c.auto_polish == Some(true)));
    object(e)
}

fn write_offer(c: &Config, o: &ModelOption) -> (r: Json)
    ensures
        r@ == offer_json(*c, offer(*o)),
{
    let mut e = new_entries();
    put(&mut e, "label", text_value(o.label));
    put(&mut e, "model", text_value(o.model));
    put(&mut e, "provider", text_value(o.provider.as_str()));
    put(&mut e, "hasKey", Json::Bool(c.usable_key(o.provider).is_some()));
    object(e)
}

pub fn state_document(c: &Config, listeners: usize, history: &Vec<Transcript>) -> (r: Json)
    ensures
        r@ == state_json(*c, listeners as nat, history_view(history@)),
{
    let options = model_options();
    let mut models: Vec<Json> = Vec::new();
    let mut i: usize = 0;
    while i < options.len()
        invariant
            i <= options.len(),
            offers(options@) == known_models(),
            models.len() == i,
            forall|k: int|
                0 <= k < i ==> (#[trigger] models@[k])@ == offer_json(*c, known_models()[k]),
        decreases options.len() - i,
    {
        assert(offers(options@)[i as int] == offer(options@[i as int]));
        models.push(write_offer(c, &options[i]));
        i = i + 1;
    }
    assert(offers(options@).len() == options.len());
    assert(json_list(models@) =~= Seq::new(
        known_models().len(),
        |i: int| offer_json(*c, known_models()[i]),
    ));
    let mut e = new_entries();
    put(&mut e, "setup", write_setup(c));
    put(&mut e, "models", array(models));
    put(&mut e, "listeners", write_count(listeners));
    put(&mut e, "history", write_history(history));
    object(e)
}

// -------------------------------------------------------------------------- meeting

/// A meeting model that is offered: its label, its name, and whether it knows modes.
#[derive(Debug)]
pub struct MeetingModel {
    pub label: String,
    pub model: String,
    pub supports_mode: bool,
}

/// The models that a meeting can be transcribed with.
pub fn meeting_models() -> (r: Vec<MeetingModel>)
    ensures
        r@.len() == 2,
        r@[0].label@ == "Saaras v3"@,
        r@[0].model@ == "saaras:v3"@,
        r@[0].supports_mode,
        r@[1].label@ == "Saarika v2.5"@,
        r@[1].model@ == "saarika:v2.5"@,
        !r@[1].supports_mode,
{
    vec![
        MeetingModel {
            label: "Saaras v3".to_owned(),
            model: "saaras:v3".to_owned(),
            supports_mode: true,
        },
        MeetingModel {
            label: "Saarika v2.5".to_owned(),
            model: "saarika:v2.5".to_owned(),
            supports_mode: false,
        },
    ]
}

/// The models that a meeting can be summarised with.
pub fn summary_models() -> (r: Vec<String>)
    ensures
        texts(r@) == seq!["llama-3.3-70b-versatile"@, "openai/gpt-oss-120b"@],
{
    let r = vec!["llama-3.3-70b-versatile".to_owned(), "openai/gpt-oss-120b".to_owned()];
    assert(texts(r@) =~= seq!["llama-3.3-70b-versatile"@, "openai/gpt-oss-120b"@]);
    r
}

pub open spec fn meeting_model_json(m: MeetingModel) -> JsonView {
    JsonView::Object(
        Seq::empty()
            .push(("label"@, JsonView::Text(m.label@)))
            .push(("model"@, JsonView::Text(m.model@)))
            .push(("supportsMode"@, JsonView::Bool(m.supports_mode))),
    )
}

/// The modes of the sample gate, each of which is compared.
pub open spec fn modes_json() -> JsonView {
    JsonView::Array(seq![mode_json(Mode::Transcribe), mode_json(Mode::Codemix)])
}

pub open spec fn mode_json(mode: Mode) -> JsonView {
    JsonView::Object(
        Seq::empty()
            .push(("mode"@, JsonView::Text(mode.name())))
            .push(("describe"@, JsonView::Text(mode.meaning())))
            .push(("compared"@, JsonView::Bool(true))),
    )
}

/// The meeting settings as the page shows them.
pub open spec fn meeting_setup_json(
    c: Config,
    models: Seq<MeetingModel>,
    summaries: Seq<Seq<char>>,
) -> JsonView {
    JsonView::Object(
        Seq::empty()
            .push(("model"@, JsonView::Text(setting_or(c.meeting_model, DEFAULT_MEETING_MODEL@))))
            .push(("summaryModel"@, JsonView::Text(setting_or(c.meeting_summary_model, DEFAULT_POLISH_MODEL@))))
            .push(("supportsMode"@, JsonView::Bool(c.meeting_has_modes())))
            .push(("models"@, JsonView::Array(Seq::new(models.len(), |i: int| meeting_model_json(models[i])))))
            .push(("summaryModels"@, json_texts(summaries)))
            .push(("modes"@, modes_json()))
            .push(("gate"@, JsonView::Bool(on_unless_off(c.meeting_gate))))
            .push(("mode"@, or_null(text_json(c.meeting_mode))))
            .push(("hasKey"@, JsonView::Bool(c.has_key(Provider::Sarvam)))),
    )
}

fn write_mode(mode: Mode) -> (r: Json)
    ensures
        r@ == mode_json(mode),
{
    let mut e = new_entries();
    put(&mut e, "mode", text_value(mode.as_str()));
    put(&mut e, "describe", text_value(mode.describe()));
    put(&mut e, "compared", Json::Bool(true));
    object(e)
}

fn write_meeting_model(m: &MeetingModel) -> (r: Json)
    ensures
        r@ == meeting_model_json(*m),
{
    let mut e = new_entries();
    put(&mut e, "label", text_value(m.label.as_str()));
    put(&mut e, "model", text_value(m.model.as_str()));
    put(&mut e, "supportsMode", Json::Bool(m.supports_mode));
    object(e)
}

pub fn meeting_setup(c: &Config, models: &Vec<MeetingModel>, summaries: &Vec<String>) -> (r: Json)
    ensures
        r@ == meeting_setup_json(*c, models@, texts(summaries@)),
{
    let mut offered: Vec<Json> = Vec::new();
    let mut i: usize = 0;
    while i < models.len()
        invariant
            i <= models.len(),
            offered.len() == i,
            forall|k: int|
                0 <= k < i ==> (#[trigger] offered@[k])@ == meeting_model_json(models@[k]),
        decreases models.len() - i,
    {
        offered.push(write_meeting_model(&models[i]));
        i = i + 1;
    }
    assert(json_list(offered@) =~= Seq::new(
        models@.len(),
        |i: int| meeting_model_json(models@[i]),
    ));
    let mut modes: Vec<Json> = Vec::new();
    modes.push(write_mode(Mode::Transcribe));
    modes.push(write_mode(Mode::Codemix));
    assert(json_list(modes@) =~= seq![mode_json(Mode::Transcribe), mode_json(Mode::Codemix)]);
    let mut e = new_entries();
    put(&mut e, "model", text_value(c.meeting_model_or_default()));
    put(&mut e, "summaryModel", text_value(c.meeting_summary_model_or_default()));
    put(&mut e, "supportsMode", Json::Bool(c.meeting_model_supports_mode()));
    put(&mut e, "models", array(offered));
    put(&mut e, "summaryModels", text_array(summaries));
    put(&mut e, "modes", array(modes));
    put(&mut e, "gate", Json::Bool(c.meeting_gate_enabled()));
    put(&mut e, "mode", value_or_null(opt_text_value(&c.meeting_mode)));
    put(&mut e, "hasKey", Json::Bool(c.usable_key(Provider::Sarvam).is_some()));
    object(e)
}

/// The page with no meeting in progress.
pub open spec fn idle_json(unfinished: nat, setup: JsonView) -> JsonView {
    JsonView::Object(
        Seq::empty()
            .push(("active"@, JsonView::Bool(false)))
            .push(("unfinished"@, JsonView::Number(decimal(unfinished))))
            .push(("setup"@, setup)),
    )
}

pub fn idle_document(unfinished: usize, setup: Json) -> (r: Json)
    ensures
        r@ == idle_json(unfinished as nat, setup@),
{
    let mut e = new_entries();
    put(&mut e, "active", Json::Bool(false));
    put(&mut e, "unfinished", write_count(unfinished));
    put(&mut e, "setup", setup);
    object(e)
}

/// What was measured of a meeting beside what is recorded of it: how long it has run, how
/// much is safely on disk, the levels of its sources and its sample, and, where it is known,
/// what is being done now and since when.
#[derive(Debug)]
pub struct Measured {
    pub elapsed: Time,
    pub on_disk: Option<Time>,
    pub levels: Json,
    pub sample: Json,
    pub progress: Option<String>,
    pub progress_age: Option<Time>,
}

/// The page with a meeting in progress.
pub open spec fn meeting_json(
    m: ActiveMeeting,
    measured: Measured,
    unfinished: nat,
    setup: JsonView,
) -> JsonView {
    JsonView::Object(
        Seq::empty()
            .push(("active"@, JsonView::Bool(true)))
            .push(("id"@, JsonView::Text(m.id@)))
            .push(("phase"@, JsonView::Text(m.phase.name())))
            .push(("startedAt"@, JsonView::Text(m.started_at@)))
            .push(("elapsedSeconds"@, seconds_json(measured.elapsed as int)))
            .push(("recordedSeconds"@, or_null(opt_seconds_json(m.duration))))
            .push(("onDiskSeconds"@, or_null(opt_seconds_json(measured.on_disk))))
            .push(("capturing"@, JsonView::Bool(m.phase.capturing())))
            .push(("processing"@, JsonView::Bool(m.phase.processing())))
            .push(("sourceLevels"@, measured.levels@))
            .push(("sample"@, measured.sample@))
            .push(("approvedMode"@, or_null(opt_mode_json(m.approved_mode))))
            .push(("progress"@, or_null(text_json(measured.progress))))
            .push(("progressAgeSeconds"@, or_null(opt_seconds_json(measured.progress_age))))
            .push(("imported"@, JsonView::Bool(m.imported)))
            .push(("gateBlocked"@, or_null(text_json(m.gate_blocked))))
            .push(("error"@, or_null(text_json(m.error))))
            .push(("unfinished"@, JsonView::Number(decimal(unfinished))))
            .push(("setup"@, setup)),
    )
}

pub fn meeting_document(m: &ActiveMeeting, measured: Measured, unfinished: usize, setup: Json) -> (r:
    Json)
    ensures
        r@ == meeting_json(*m, measured, unfinished as nat, setup@),
{
    let mut e = new_entries();
    put(&mut e, "active", Json::Bool(true));
    put(&mut e, "id", text_value(m.id.as_str()));
    put(&mut e, "phase", text_value(m.phase.as_str()));
    put(&mut e, "startedAt", text_value(m.started_at.as_str()));
    put(&mut e, "elapsedSeconds", write_seconds(measured.elapsed));
    put(&mut e, "recordedSeconds", value_or_null(opt_seconds(m.duration)));
    put(&mut e, "onDiskSeconds", value_or_null(opt_seconds(measured.on_disk)));
    put(&mut e, "capturing", Json::Bool(m.phase.is_capturing()));
    put(&mut e, "processing", Json::Bool(m.phase.is_processing()));
    put(&mut e, "sourceLevels", measured.levels);
    put(&mut e, "sample", measured.sample);
    put(
        &mut e,
        "approvedMode",
        match m.approved_mode {
            Some(mode) => text_value(mode.as_str()),
            None => Json::Null,
        },
    );
    put(&mut e, "progress", value_or_null(opt_text_value(&measured.progress)));
    put(&mut e, "progressAgeSeconds", value_or_null(opt_seconds(measured.progress_age)));
    put(&mut e, "imported", Json::Bool(m.imported));
    put(&mut e, "gateBlocked", value_or_null(opt_text_value(&m.gate_blocked)));
    put(&mut e, "error", value_or_null(opt_text_value(&m.error)));
    put(&mut e, "unfinished", write_count(unfinished));
    put(&mut e, "setup", setup);
    object(e)
}

// ------------------------------------------------------------------- past meetings

/// What a past meeting left behind: its id, whether a note is there and what it says where
/// that can be read, its directory, and the length of its audio where that is known.
#[derive(Debug)]
pub struct PastMeeting {
    pub id: String,
    pub transcribed: bool,
    pub note: Option<String>,
    pub directory: String,
    pub length: Option<Time>,
}

pub open spec fn past_meeting_json(p: PastMeeting) -> JsonView {
    JsonView::Object(
        Seq::empty()
            .push(("id"@, JsonView::Text(p.id@)))
            .push(("title"@, match p.note {
                Some(note) => match title_in(note@) {
                    Some(title) => JsonView::Text(title),
                    None => JsonView::Null,
                },
                None => JsonView::Null,
            }))
            .push(("transcribed"@, JsonView::Bool(p.transcribed)))
            .push(("directory"@, JsonView::Text(p.directory@)))
            .push(("seconds"@, or_null(opt_seconds_json(p.length)))),
    )
}

/// How many past meetings the page lists.
pub const LISTED_MEETINGS: usize = 50;

fn write_past_meeting(p: &PastMeeting) -> (r: Json)
    ensures
        r@ == past_meeting_json(*p),
{
    let mut e = new_entries();
    put(&mut e, "id", text_value(p.id.as_str()));
    put(
        &mut e,
        "title",
        match &p.note {
            Some(note) => match note_title_of(note.as_str()) {
                Some(title) => text_value(title.as_str()),
                None => Json::Null,
            },
            None => Json::Null,
        },
    );
    put(&mut e, "transcribed", Json::Bool(p.transcribed));
    put(&mut e, "directory", text_value(p.directory.as_str()));
    put(&mut e, "seconds", value_or_null(opt_seconds(p.length)));
    object(e)
}

pub fn history_document(meetings: &Vec<PastMeeting>) -> (r: Json)
    ensures
        r@ == JsonView::Array(Seq::new(meetings@.len(), |i: int| past_meeting_json(meetings@[i]))),
{
    let mut items: Vec<Json> = Vec::new();
    let mut i: usize = 0;
    while i < meetings.len()
        invariant
            i <= meetings.len(),
            items.len() == i,
            forall|k: int| 0 <= k < i ==> (#[trigger] items@[k])@ == past_meeting_json(meetings@[k]),
        decreases meetings.len() - i,
    {
        items.push(write_past_meeting(&meetings[i]));
        i = i + 1;
    }
    let r = array(items);
    assert(r@->Array_0 =~= Seq::new(meetings@.len(), |i: int| past_meeting_json(meetings@[i])));
    r
}

// --------------------------------------------------------------------------- laws

/// The page shows each setting of dictation under its own name, and each shortcut that was never
/// set as the one that counts in its place.
#[verifier::spinoff_prover]
pub proof fn the_page_shows_the_settings(c: Config)
    ensures
        setup_json(c).get("provider"@) == Some(
            match c.provider {
                Some(p) => JsonView::Text(p.name()),
                None => JsonView::Null,
            },
        ),
        setup_json(c).get("model"@) == Some(
            match c.model {
                Some(m) => JsonView::Text(m@),
                None => JsonView::Null,
            },
        ),
        c.shortcut is Some ==> setup_json(c).get("shortcut"@) == Some(
            JsonView::Text(c.shortcut->0@),
        ),
        c.polish_shortcut is Some ==> setup_json(c).get("polishShortcut"@) == Some(
            JsonView::Text(c.polish_shortcut->0@),
        ),
        c.spell_shortcut is Some ==> setup_json(c).get("spellShortcut"@) == Some(
            JsonView::Text(c.spell_shortcut->0@),
        ),
        setup_json(c).get("autoPolish"@) == Some(
            JsonView::Bool(c.auto_polish is Some && c.auto_polish->0),
        ),
{
    reveal_strlit("provider");
    reveal_strlit("model");
    reveal_strlit("shortcut");
    reveal_strlit("polishShortcut");
    reveal_strlit("spellShortcut");
    reveal_strlit("autoPolish");
    assert("provider"@.len() == 8 && "model"@.len() == 5 && "shortcut"@.len() == 8
        && "polishShortcut"@.len() == 14 && "spellShortcut"@.len() == 13 && "autoPolish"@.len()
        == 10);
    assert("provider"@[0] != "shortcut"@[0]);
    let all = setup_json(c)->Object_0;
    the_first_of_its_name_is_found(all, 0);
    the_first_of_its_name_is_found(all, 1);
    the_first_of_its_name_is_found(all, 2);
    the_first_of_its_name_is_found(all, 3);
    the_first_of_its_name_is_found(all, 4);
    the_first_of_its_name_is_found(all, 5);
}

/// The page shows how many listeners run, the whole history, and every model with whether its
/// provider has a key.
#[verifier::spinoff_prover]
pub proof fn the_page_shows_the_state(c: Config, listeners: nat, history: Seq<TranscriptView>, i: int)
    requires
        0 <= i < known_models().len(),
    ensures
        ({
            let state = state_json(c, listeners, history);
            let model = state.get("models"@)->0->Array_0[i];
            &&& state.get("setup"@) == Some(setup_json(c))
            &&& state.get("listeners"@) == Some(JsonView::Number(decimal(listeners)))
            &&& state.get("history"@) == Some(history_json(history))
            &&& state.get("models"@) is Some
            &&& state.get("models"@)->0 is Array
            &&& state.get("models"@)->0->Array_0.len() == known_models().len()
            &&& model.get("label"@) == Some(JsonView::Text(known_models()[i].0))
            &&& model.get("provider"@) == Some(JsonView::Text(known_models()[i].1.name()))
            &&& model.get("model"@) == Some(JsonView::Text(known_models()[i].2))
            &&& model.get("hasKey"@) == Some(JsonView::Bool(c.has_key(known_models()[i].1)))
        }),
{
    reveal_strlit("setup");
    reveal_strlit("models");
    reveal_strlit("listeners");
    reveal_strlit("history");
    assert("setup"@.len() == 5 && "models"@.len() == 6 && "listeners"@.len() == 9 && "history"@.len()
        == 7);
    let all = state_json(c, listeners, history)->Object_0;
    the_first_of_its_name_is_found(all, 0);
    the_first_of_its_name_is_found(all, 1);
    the_first_of_its_name_is_found(all, 2);
    the_first_of_its_name_is_found(all, 3);
    an_offer_names_its_parts(c, known_models()[i]);
}

proof fn an_offer_names_its_parts(c: Config, o: (Seq<char>, Provider, Seq<char>))
    ensures
        offer_json(c, o).get("label"@) == Some(JsonView::Text(o.0)),
        offer_json(c, o).get("provider"@) == Some(JsonView::Text(o.1.name())),
        offer_json(c, o).get("model"@) == Some(JsonView::Text(o.2)),
        offer_json(c, o).get("hasKey"@) == Some(JsonView::Bool(c.has_key(o.1))),
{
    reveal_strlit("label");
    reveal_strlit("model");
    reveal_strlit("provider");
    reveal_strlit("hasKey");
    assert("label"@.len() == 5 && "model"@.len() == 5 && "provider"@.len() == 8 && "hasKey"@.len()
        == 6);
    assert("label"@[0] != "model"@[0]);
    let all = offer_json(c, o)->Object_0;
    the_first_of_its_name_is_found(all, 0);
    the_first_of_its_name_is_found(all, 1);
    the_first_of_its_name_is_found(all, 2);
    the_first_of_its_name_is_found(all, 3);
}

/// The page shows of a meeting which it is, what it is doing, how long it has lasted, and what went
/// wrong.
#[verifier::spinoff_prover]
pub proof fn the_page_shows_the_meeting(
    m: ActiveMeeting,
    measured: Measured,
    unfinished: nat,
    setup: JsonView,
)
    ensures
        ({
            let shown = meeting_json(m, measured, unfinished, setup);
            &&& shown.get("active"@) == Some(JsonView::Bool(true))
            &&& shown.get("id"@) == Some(JsonView::Text(m.id@))
            &&& shown.get("phase"@) == Some(JsonView::Text(m.phase.name()))
            &&& shown.get("startedAt"@) == Some(JsonView::Text(m.started_at@))
            &&& shown.get("elapsedSeconds"@) == Some(seconds_json(measured.elapsed as int))
            &&& shown.get("capturing"@) == Some(JsonView::Bool(m.phase.capturing()))
            &&& shown.get("processing"@) == Some(JsonView::Bool(m.phase.processing()))
            &&& shown.get("sourceLevels"@) == Some(measured.levels@)
            &&& shown.get("sample"@) == Some(measured.sample@)
            &&& shown.get("progress"@) == Some(
                match measured.progress {
                    Some(p) => JsonView::Text(p@),
                    None => JsonView::Null,
                },
            )
            &&& shown.get("error"@) == Some(
                match m.error {
                    Some(e) => JsonView::Text(e@),
                    None => JsonView::Null,
                },
            )
            &&& shown.get("unfinished"@) == Some(JsonView::Number(decimal(unfinished)))
            &&& shown.get("setup"@) == Some(setup)
        }),
{
    let all = meeting_json(m, measured, unfinished, setup)->Object_0;
    the_names_of_a_meeting_differ(m, measured, unfinished, setup);
    every_member_is_found(all, 0);
    every_member_is_found(all, 1);
    every_member_is_found(all, 2);
    every_member_is_found(all, 3);
    every_member_is_found(all, 4);
    every_member_is_found(all, 7);
    every_member_is_found(all, 8);
    every_member_is_found(all, 9);
    every_member_is_found(all, 10);
    every_member_is_found(all, 12);
    every_member_is_found(all, 16);
    every_member_is_found(all, 17);
    every_member_is_found(all, 18);
}

#[verifier::spinoff_prover]
#[verifier::rlimit(60)]
proof fn the_names_of_a_meeting_differ(
    m: ActiveMeeting,
    measured: Measured,
    unfinished: nat,
    setup: JsonView,
)
    ensures
        distinct_names(meeting_json(m, measured, unfinished, setup)->Object_0),
{
    reveal_strlit("active");
    reveal_strlit("id");
    reveal_strlit("phase");
    reveal_strlit("startedAt");
    reveal_strlit("elapsedSeconds");
    reveal_strlit("recordedSeconds");
    reveal_strlit("onDiskSeconds");
    reveal_strlit("capturing");
    reveal_strlit("processing");
    reveal_strlit("sourceLevels");
    reveal_strlit("sample");
    reveal_strlit("approvedMode");
    reveal_strlit("progress");
    reveal_strlit("progressAgeSeconds");
    reveal_strlit("imported");
    reveal_strlit("gateBlocked");
    reveal_strlit("error");
    reveal_strlit("unfinished");
    reveal_strlit("setup");
    let all = meeting_json(m, measured, unfinished, setup)->Object_0;
    let marks = seq![
        (6nat, 'a'),
        (2nat, 'i'),
        (5nat, 'p'),
        (9nat, 's'),
        (14nat, 'e'),
        (15nat, 'r'),
        (13nat, 'o'),
        (9nat, 'c'),
        (10nat, 'p'),
        (12nat, 's'),
        (6nat, 's'),
        (12nat, 'a'),
        (8nat, 'p'),
        (18nat, 'p'),
        (8nat, 'i'),
        (11nat, 'g'),
        (5nat, 'e'),
        (10nat, 'u'),
        (5nat, 's'),
    ];
    assert(all.len() == marks.len());
    assert forall|i: int| 0 <= i < all.len() implies (
    #[trigger] all[i]).0.len() == marks[i].0 && all[i].0[0] == marks[i].1 by {}
    assert forall|i: int, k: int| 0 <= i < k < all.len() implies (#[trigger] all[i]).0 != (
    #[trigger] all[k]).0 by {
        assert(marks[i] != marks[k]);
    }
}

/// The page shows each setting for meetings under its own name.
#[verifier::spinoff_prover]
#[verifier::rlimit(40)]
pub proof fn the_page_shows_the_meeting_settings(
    c: Config,
    models: Seq<MeetingModel>,
    summaries: Seq<Seq<char>>,
)
    ensures
        ({
            let shown = meeting_setup_json(c, models, summaries);
            &&& c.meeting_model is Some ==> shown.get("model"@) == Some(
                JsonView::Text(c.meeting_model->0@),
            )
            &&& c.meeting_summary_model is Some ==> shown.get("summaryModel"@) == Some(
                JsonView::Text(c.meeting_summary_model->0@),
            )
            &&& shown.get("supportsMode"@) == Some(JsonView::Bool(c.meeting_has_modes()))
            &&& shown.get("summaryModels"@) == Some(json_texts(summaries))
            &&& shown.get("gate"@) == Some(JsonView::Bool(c.meeting_gate != Some(false)))
            &&& shown.get("mode"@) == Some(
                match c.meeting_mode {
                    Some(m) => JsonView::Text(m@),
                    None => JsonView::Null,
                },
            )
            &&& shown.get("hasKey"@) == Some(JsonView::Bool(c.has_key(Provider::Sarvam)))
        }),
{
    reveal_strlit("model");
    reveal_strlit("summaryModel");
    reveal_strlit("supportsMode");
    reveal_strlit("models");
    reveal_strlit("summaryModels");
    reveal_strlit("modes");
    reveal_strlit("gate");
    reveal_strlit("mode");
    reveal_strlit("hasKey");
    let all = meeting_setup_json(c, models, summaries)->Object_0;
    let marks = seq![
        (5nat, 'm', 'd', 'e'),
        (12nat, 's', 'm', 'm'),
        (12nat, 's', 'p', 'p'),
        (6nat, 'm', 'd', 'e'),
        (13nat, 's', 'm', 'm'),
        (5nat, 'm', 'd', 'e'),
        (4nat, 'g', 't', 'e'),
        (4nat, 'm', 'd', 'e'),
        (6nat, 'h', 's', 'K'),
    ];
    assert(all.len() == marks.len());
    assert forall|i: int| 0 <= i < all.len() implies (
    #[trigger] all[i]).0.len() == marks[i].0 && all[i].0[0] == marks[i].1 && all[i].0[2]
        == marks[i].2 && all[i].0[3] == marks[i].3 by {}
    assert("model"@[4] == 'l' && "modes"@[4] == 's');
    assert forall|i: int, k: int| 0 <= i < k < all.len() implies (#[trigger] all[i]).0 != (
    #[trigger] all[k]).0 by {
        if i == 0 && k == 5 {
            assert(all[i].0[4] != all[k].0[4]);
        } else {
            assert(marks[i] != marks[k]);
        }
    }
    every_member_is_found(all, 0);
    every_member_is_found(all, 1);
    every_member_is_found(all, 2);
    every_member_is_found(all, 4);
    every_member_is_found(all, 6);
    every_member_is_found(all, 7);
    every_member_is_found(all, 8);
}

/// The page shows of a past meeting which it is, its title, whether it was transcribed, and where
/// and how long it is.
pub proof fn the_page_shows_a_past_meeting(p: PastMeeting)
    ensures
        ({
            let shown = past_meeting_json(p);
            &&& shown.get("id"@) == Some(JsonView::Text(p.id@))
            &&& p.note is Some && title_in(p.note->0@) is Some ==> shown.get("title"@) == Some(
                JsonView::Text(title_in(p.note->0@)->0),
            )
            &&& p.note is None ==> shown.get("title"@) == Some(JsonView::Null)
            &&& shown.get("transcribed"@) == Some(JsonView::Bool(p.transcribed))
            &&& shown.get("directory"@) == Some(JsonView::Text(p.directory@))
            &&& p.length is Some ==> shown.get("seconds"@) == Some(
                seconds_json(p.length->0 as int),
            )
        }),
{
    reveal_strlit("id");
    reveal_strlit("title");
    reveal_strlit("transcribed");
    reveal_strlit("directory");
    reveal_strlit("seconds");
    assert("id"@.len() == 2 && "title"@.len() == 5 && "transcribed"@.len() == 11 && "directory"@.len()
        == 9 && "seconds"@.len() == 7);
    let all = past_meeting_json(p)->Object_0;
    the_first_of_its_name_is_found(all, 0);
    the_first_of_its_name_is_found(all, 1);
    the_first_of_its_name_is_found(all, 2);
    the_first_of_its_name_is_found(all, 3);
    the_first_of_its_name_is_found(all, 4);
}

} // verus!
