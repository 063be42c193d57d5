//! The local dashboard: what a request may do, what it changes, and what is answered.
//!
//! The dashboard shows transcript history, so it only ever listens on the loopback address.
use vstd::prelude::*;
use crate::config::{Config, Provider, known_models, model_options, offer, offers};
use crate::import::{has_remote_scheme, is_remote};
use crate::json::{
    Json, JsonView, entry_list, entry_of, json_single, new_entries, object, put, single, text_value,
};
use crate::number::{decimal, to_decimal};
use crate::pipeline::active_view;
use crate::sarvam_batch::Mode;
use crate::state::{ActiveMeeting, Phase, check_ready};
use crate::text::{
    ascii_lower, chars_of, contains, find_position, has, is_digit, is_lower, is_upper, lacks,
    list_has, lowercase_of, nothing_to_replace, opt_text, part_of, position, replace, replace_all, same, split, split_at,
    split_by, split_chars_by, split_is_never_empty, split_of_one_piece,
    splitting_goes_piece_by_piece, stands_at, string_of, texts, texts_of_push,
    the_first_position_is_found, trim, trim_back, trim_back_is_take, trim_both, trim_both_by, trim_front,
    trim_front_is_skip, trimmed,
};

verus! {

broadcast use texts_of_push;

pub const DEFAULT_PORT: u16 = 3838;

/// The largest audio file that can be uploaded, in bytes.
pub const UPLOAD_LIMIT: u64 = 4_294_967_296;

/// An upload that is older than this was copied into its meeting long ago, in microseconds.
pub const UPLOAD_AGE: u64 = 21_600_000_000;

/// An answer: an HTTP status and a document.
#[derive(Debug)]
pub struct Reply {
    pub status: u16,
    pub body: Json,
}

#[verifier::ext_equal]
pub struct ReplyView {
    pub status: u16,
    pub body: JsonView,
}

impl View for Reply {
    type V = ReplyView;

    open spec fn view(&self) -> ReplyView {
        ReplyView { status: self.status, body: self.body@ }
    }
}

pub open spec fn problem_reply(status: u16, message: Seq<char>) -> ReplyView {
    ReplyView { status, body: json_single("error"@, JsonView::Text(message)) }
}

pub fn ok(body: Json) -> (r: Reply)
    ensures
        r@ == (ReplyView { status: 200, body: body@ }),
{
    Reply { status: 200, body }
}

pub fn problem(status: u16, message: &str) -> (r: Reply)
    ensures
        r@ == problem_reply(status, message@),
{
    Reply { status, body: single("error", text_value(message)) }
}

// -------------------------------------------------------------------------- address

/// The address that is listened on, which is never another machine's to reach.
pub open spec fn loopback(port: u16) -> Seq<char> {
    "127.0.0.1:"@ + decimal(port as nat)
}

pub fn address(port: Option<u16>) -> (r: String)
    ensures
        r@ == loopback(
            match port {
                Some(p) => p,
                None => DEFAULT_PORT,
            },
        ),
{
    let p: u16 = match port {
        Some(p) => p,
        None => DEFAULT_PORT,
    };
    "127.0.0.1:".to_owned().concat(to_decimal(p as u64).as_str())
}

pub fn dashboard_url(address: &str) -> (r: String)
    ensures
        r@ == "http://"@ + address@,
{
    "http://".to_owned().concat(address)
}

/// Whether what answers on a port is the dashboard: it is told by a field that only this
/// answer has, so an unrelated service is never mistaken for it.
pub fn is_dashboard(response: &str) -> (r: bool)
    ensures
        r == (has(response@, "200 OK"@) && has(response@, "\"active\""@)),
{
    contains(response, "200 OK") && contains(response, "\"active\"")
}

// ------------------------------------------------------------------------- requests

pub const START_CONSENT: &'static str =
    "Run `nbmeet start` in a terminal once to confirm that meeting audio is uploaded for transcription.";

pub const IMPORT_CONSENT: &'static str =
    "Run `nbmeet start` or `nbmeet audio` in a terminal once to confirm that audio is uploaded for transcription.";

pub const NO_KEY: &'static str =
    "Meeting transcription needs a Sarvam API key (Batch STT with speaker labels). Run: nbmeet setup";

/// The id of a meeting that is there.
pub open spec fn id_of(active: Option<(Seq<char>, Phase)>) -> Seq<char> {
    match active {
        Some((id, _)) => id,
        None => Seq::<char>::empty(),
    }
}

/// The phase of a meeting. One that is not there is finished.
pub open spec fn phase_of(active: Option<(Seq<char>, Phase)>) -> Phase {
    match active {
        Some((_, phase)) => phase,
        None => Phase::Done,
    }
}

/// Why a meeting is not started from the browser.
pub open spec fn start_problem(config: Config, active: Option<(Seq<char>, Phase)>) -> Option<
    ReplyView,
> {
    if !config.has_key(Provider::Sarvam) {
        Some(problem_reply(400, NO_KEY@))
    } else if phase_of(active).capturing() {
        Some(
            problem_reply(
                409,
                "Meeting "@ + id_of(active) + " is already "@ + phase_of(active).name() + "."@,
            ),
        )
    } else if config.meeting_consent != Some(true) {
        Some(problem_reply(400, START_CONSENT@))
    } else {
        None
    }
}

/// Whether a meeting may be started from the browser. Consent is a decision for a person,
/// and the browser is not where it is given.
pub fn start_meeting(config: &Config, active: Option<&ActiveMeeting>) -> (r: Option<Reply>)
    ensures
        match r {
            Some(reply) => start_problem(*config, active_view(active)) == Some(reply@),
            None => start_problem(*config, active_view(active)) is None,
        },
{
    if check_ready(config).is_err() {
        return Some(problem(400, NO_KEY));
    }
    if let Some(m) = active {
        if m.phase.is_capturing() {
            return Some(
                problem(
                    409,
                    "Meeting ".to_owned().concat(m.id.as_str()).concat(" is already ").concat(
                        m.phase.as_str(),
                    ).concat(".").as_str(),
                ),
            );
        }
    }
    if config.meeting_consent != Some(true) {
        return Some(problem(400, START_CONSENT));
    }
    None
}

/// Why audio is not imported from the browser, whatever it is.
pub open spec fn import_problem(config: Config, active: Option<(Seq<char>, Phase)>) -> Option<
    ReplyView,
> {
    if !config.has_key(Provider::Sarvam) {
        Some(problem_reply(400, NO_KEY@))
    } else if phase_of(active).capturing() || phase_of(active).processing() {
        Some(
            problem_reply(
                409,
                "Meeting "@ + id_of(active) + " is "@ + phase_of(active).name() + "."@,
            ),
        )
    } else if config.meeting_consent != Some(true) {
        Some(problem_reply(400, IMPORT_CONSENT@))
    } else {
        None
    }
}

pub fn refuse_import(config: &Config, active: Option<&ActiveMeeting>) -> (r: Option<Reply>)
    ensures
        match r {
            Some(reply) => import_problem(*config, active_view(active)) == Some(reply@),
            None => import_problem(*config, active_view(active)) is None,
        },
{
    if check_ready(config).is_err() {
        return Some(problem(400, NO_KEY));
    }
    if let Some(m) = active {
        if m.phase.is_capturing() || m.phase.is_processing() {
            return Some(
                problem(
                    409,
                    "Meeting ".to_owned().concat(m.id.as_str()).concat(" is ").concat(
                        m.phase.as_str(),
                    ).concat(".").as_str(),
                ),
            );
        }
    }
    if config.meeting_consent != Some(true) {
        return Some(problem(400, IMPORT_CONSENT));
    }
    None
}

/// Nothing is uploaded for someone who has not agreed to it.
pub proof fn no_upload_without_consent(config: Config, active: Option<(Seq<char>, Phase)>)
    requires
        config.meeting_consent != Some(true),
    ensures
        start_problem(config, active) is Some,
        import_problem(config, active) is Some,
{
}

/// The source that a request names.
pub open spec fn requested_source(body: JsonView) -> Option<Seq<char>> {
    match body.text_at("source"@) {
        Some(t) => if trimmed(t).len() > 0 {
            Some(trimmed(t))
        } else {
            None
        },
        None => None,
    }
}

pub fn read_source(body: &Json) -> (r: Result<String, Reply>)
    ensures
        match r {
            Ok(source) => requested_source(body@) == Some(source@),
            Err(reply) => requested_source(body@) is None && reply@ == problem_reply(
                400,
                "Give a file path or an http(s) URL."@,
            ),
        },
{
    match body.text_at("source") {
        Some(t) => {
            let t = trim(t.as_str());
            if t.as_str().is_empty() {
                Err(problem(400, "Give a file path or an http(s) URL."))
            } else {
                Ok(t)
            }
        },
        None => Err(problem(400, "Give a file path or an http(s) URL.")),
    }
}

/// Whether an import may go ahead. A local path that does not exist is refused now, so the
/// error arrives in the browser rather than only in the log.
pub fn import_audio(
    source: &str,
    is_file: bool,
    config: &Config,
    active: Option<&ActiveMeeting>,
) -> (r: Option<Reply>)
    ensures
        match r {
            Some(reply) => if import_problem(*config, active_view(active)) is Some {
                import_problem(*config, active_view(active)) == Some(reply@)
            } else {
                !has_remote_scheme(lowercase_of(trimmed(source@))) && !is_file && reply@
                    == problem_reply(400, "No file at "@ + source@)
            },
            None => import_problem(*config, active_view(active)) is None && (has_remote_scheme(
                lowercase_of(trimmed(source@)),
            ) || is_file),
        },
{
    if let Some(reply) = refuse_import(config, active) {
        return Some(reply);
    }
    if !is_remote(source) && !is_file {
        return Some(problem(400, "No file at ".to_owned().concat(source).as_str()));
    }
    None
}

/// Whether an uploaded file may go ahead.
pub fn upload_audio(len: usize, config: &Config, active: Option<&ActiveMeeting>) -> (r: Option<
    Reply,
>)
    ensures
        match r {
            Some(reply) => if import_problem(*config, active_view(active)) is Some {
                import_problem(*config, active_view(active)) == Some(reply@)
            } else {
                len < 1024 && reply@ == problem_reply(
                    400,
                    "That file is only "@ + decimal(len as nat)
                        + " bytes, which is not audio."@,
                )
            },
            None => import_problem(*config, active_view(active)) is None && len >= 1024,
        },
{
    if let Some(reply) = refuse_import(config, active) {
        return Some(reply);
    }
    if len < 1024 {
        return Some(
            problem(
                400,
                "That file is only ".to_owned().concat(to_decimal(len as u64).as_str()).concat(
                    " bytes, which is not audio.",
                ).as_str(),
            ),
        );
    }
    None
}

/// Whether an upload has been there long enough to be tidied away. One whose age is unknown
/// stays.
pub fn is_old_upload(age: Option<u64>) -> (r: bool)
    ensures
        r == (age is Some && age->0 > UPLOAD_AGE),
{
    match age {
        Some(a) => a > UPLOAD_AGE,
        None => false,
    }
}

// --------------------------------------------------------------------- upload names

/// The value of a `name=value` pair, where the name is `name`.
pub open spec fn name_value(pair: Seq<char>) -> Option<Seq<char>> {
    match position(pair, "="@, 0) {
        Some(i) => if pair.take(i) == "name"@ {
            Some(replace_all(replace_all(pair.skip(i + 1), "%20"@, " "@), "+"@, " "@))
        } else {
            None
        },
        None => None,
    }
}

/// The first name among pairs.
pub open spec fn first_name(pairs: Seq<Seq<char>>) -> Option<Seq<char>>
    decreases pairs.len(),
{
    if pairs.len() == 0 {
        None
    } else {
        match first_name(pairs.drop_last()) {
            Some(name) => Some(name),
            None => name_value(pairs.last()),
        }
    }
}

fn read_name(pair: &str) -> (r: Option<String>)
    ensures
        opt_text(r) == name_value(pair@),
{
    let v = chars_of(pair);
    let sign = chars_of("=");
    proof {
        reveal_strlit("=");
        reveal_strlit("%20");
        reveal_strlit("+");
    }
    match find_position(&v, &sign, 0) {
        Some(i) => {
            let key = part_of(&v, 0, i);
            assert(key@ =~= pair@.take(i as int));
            if !same(string_of(&key).as_str(), "name") {
                return None;
            }
            assert(i < v.len());
            let rest = part_of(&v, i + 1, v.len());
            assert(rest@ =~= pair@.skip(i + 1));
            let value = string_of(&rest);
            Some(replace(replace(value.as_str(), "%20", " ").as_str(), "+", " "))
        },
        None => None,
    }
}

/// The name in a raw query. It is decoded only as far as spaces, since everything unusual in
/// it is thrown away anyway.
pub fn query_name(query: &Option<String>) -> (r: Option<String>)
    ensures
        opt_text(r) == (match query {
            Some(q) => first_name(split_at(q@, '&')),
            None => None,
        }),
{
    let q = match query {
        Some(q) => q,
        None => {
            return None;
        },
    };
    let pairs = split(q.as_str(), '&');
    let ghost all = split_at(q@, '&');
    let mut found: Option<String> = None;
    let mut i: usize = 0;
    while i < pairs.len()
        invariant
            i <= pairs.len(),
            all == texts(pairs@),
            opt_text(found) == first_name(all.take(i as int)),
        decreases pairs.len() - i,
    {
        assert(all.take(i + 1).drop_last() == all.take(i as int));
        assert(all.take(i + 1).last() == pairs@[i as int]@);
        if found.is_none() {
            found = read_name(pairs[i].as_str());
        }
        i = i + 1;
    }
    assert(all.take(i as int) == all);
    found
}

pub open spec fn is_slash(c: char) -> bool {
    c == '/' || c == '\\'
}

/// Whether a character is safe in a file name.
pub open spec fn is_safe(c: char) -> bool {
    is_digit(c) || is_upper(c) || is_lower(c) || c == '.' || c == '-' || c == '_'
}

pub open spec fn safe_char(c: char) -> char {
    if is_safe(c) {
        c
    } else {
        '-'
    }
}

pub open spec fn is_edge(c: char) -> bool {
    c == '.' || c == '-'
}

/// A file name with only its last part, and only characters that are safe in one.
pub open spec fn safe_name(raw: Seq<char>) -> Seq<char> {
    let base = split_by(raw, |c: char| is_slash(c)).last();
    let cleaned = base.map_values(|c: char| safe_char(c));
    let name = trim_both(cleaned, |c: char| is_edge(c));
    if name.len() == 0 {
        "upload.wav"@
    } else {
        name
    }
}

fn slash(c: char) -> (r: bool)
    ensures
        r == is_slash(c),
{
    c == '/' || c == '\\'
}

fn edge(c: char) -> (r: bool)
    ensures
        r == is_edge(c),
{
    c == '.' || c == '-'
}

fn made_safe(c: char) -> (r: char)
    ensures
        r == safe_char(c),
{
    if ('0' <= c && c <= '9') || ('A' <= c && c <= 'Z') || ('a' <= c && c <= 'z') || c == '.' || c
        == '-' || c == '_' {
        c
    } else {
        '-'
    }
}

/// Keeps only the last part of a name, and only characters that are safe in one: the name
/// arrives from a browser, and would otherwise choose where the file lands.
pub fn safe_file_name(raw: &str) -> (r: String)
    ensures
        r@ == safe_name(raw@),
{
    let v = chars_of(raw);
    let parts = split_chars_by(&v, slash, Ghost(|c: char| is_slash(c)));
    proof {
        split_is_never_empty(raw@, |c: char| is_slash(c));
    }
    assert(texts(parts@).len() == parts.len());
    let base = chars_of(parts[parts.len() - 1].as_str());
    let ghost wanted = base@.map_values(|c: char| safe_char(c));
    let mut cleaned: Vec<char> = Vec::new();
    let mut i: usize = 0;
    assert(cleaned@ =~= wanted.take(0));
    while i < base.len()
        invariant
            i <= base.len(),
            wanted == base@.map_values(|c: char| safe_char(c)),
            cleaned@ == wanted.take(i as int),
        decreases base.len() - i,
    {
        cleaned.push(made_safe(base[i]));
        assert(wanted.take(i + 1) =~= wanted.take(i as int).push(wanted[i as int]));
        i = i + 1;
    }
    assert(wanted.take(i as int) =~= wanted);
    let name = trim_both_by(&cleaned, edge, Ghost(|c: char| is_edge(c)));
    if name.len() == 0 {
        "upload.wav".to_owned()
    } else {
        string_of(&name)
    }
}

/// Whatever a browser sends, the name has something in it, holds no separator, and neither
/// starts nor ends with a dot or a hyphen: it names a file in the directory it is put in.
pub proof fn a_safe_name_stays_in_its_directory(raw: Seq<char>)
    ensures
        safe_name(raw).len() > 0,
        !is_edge(safe_name(raw)[0]),
        !is_edge(safe_name(raw).last()),
        forall|i: int| 0 <= i < safe_name(raw).len() ==> is_safe(#[trigger] safe_name(raw)[i]),
        forall|i: int| 0 <= i < safe_name(raw).len() ==> !is_slash(#[trigger] safe_name(raw)[i]),
{
    reveal_strlit("upload.wav");
    let base = split_by(raw, |c: char| is_slash(c)).last();
    let cleaned = base.map_values(|c: char| safe_char(c));
    let p = |c: char| is_edge(c);
    trim_front_is_skip(cleaned, p);
    let front = trim_front(cleaned, p);
    trim_back_is_take(front, p);
    let name = trim_back(front, p);
    let k = cleaned.len() - front.len();
    assert forall|i: int| 0 <= i < name.len() implies is_safe(#[trigger] name[i]) by {
        assert(name[i] == front[i]);
        assert(front[i] == cleaned[i + k]);
        assert(cleaned[i + k] == safe_char(base[i + k]));
    }
    assert(trim_both(cleaned, p) == name);
    if name.len() > 0 {
        assert(name[0] == front[0]);
        assert(!p(front[0]));
    }
}

/// A name that is safe already is kept as it is.
pub proof fn a_safe_name_is_its_own(raw: Seq<char>)
    ensures
        safe_name(safe_name(raw)) == safe_name(raw),
{
    let name = safe_name(raw);
    a_safe_name_stays_in_its_directory(raw);
    let slashes = |c: char| is_slash(c);
    assert forall|i: int| 0 <= i < name.len() implies !slashes(#[trigger] name[i]) by {
        assert(!is_slash(name[i]));
    }
    split_of_one_piece(name, slashes);
    assert(split_by(name, |c: char| is_slash(c)) == seq![name]);
    assert(seq![name].last() == name);
    assert(name.map_values(|c: char| safe_char(c)) =~= name);
}

// ------------------------------------------------------------------ approval, models

pub open spec fn approval_problem(active: Option<(Seq<char>, Phase)>) -> Option<ReplyView> {
    match active {
        None => Some(problem_reply(404, "No meeting is waiting for approval."@)),
        Some((id, phase)) => if phase != Phase::AwaitingApproval {
            Some(problem_reply(409, "Meeting "@ + id + " is "@ + phase.name() + "."@))
        } else {
            None
        },
    }
}

pub fn refuse_approval(active: Option<&ActiveMeeting>) -> (r: Option<Reply>)
    ensures
        match r {
            Some(reply) => approval_problem(active_view(active)) == Some(reply@),
            None => approval_problem(active_view(active)) is None,
        },
{
    match active {
        None => Some(problem(404, "No meeting is waiting for approval.")),
        Some(m) => if m.phase != Phase::AwaitingApproval {
            Some(
                problem(
                    409,
                    "Meeting ".to_owned().concat(m.id.as_str()).concat(" is ").concat(
                        m.phase.as_str(),
                    ).concat(".").as_str(),
                ),
            )
        } else {
            None
        },
    }
}

/// The mode that an approval from the browser names.
pub fn approve_meeting(active: Option<&ActiveMeeting>, name: &str) -> (r: Result<Mode, Reply>)
    ensures
        ({
            let mode = Mode::named(ascii_lower(trimmed(name@)));
            match r {
                Ok(m) => approval_problem(active_view(active)) is None && mode == Some(m),
                Err(reply) => if approval_problem(active_view(active)) is Some {
                    approval_problem(active_view(active)) == Some(reply@)
                } else {
                    mode is None && reply@ == problem_reply(
                        400,
                        "Unknown mode. Use transcribe or codemix."@,
                    )
                },
            }
        }),
{
    if let Some(reply) = refuse_approval(active) {
        return Err(reply);
    }
    match Mode::from_name(name) {
        Some(mode) => Ok(mode),
        None => Err(problem(400, "Unknown mode. Use transcribe or codemix.")),
    }
}

/// Why the meeting models are not changed. `plain` is the mode that is named, trimmed and in
/// lower case.
pub open spec fn model_problem(
    body: JsonView,
    plain: Seq<char>,
    models: Seq<Seq<char>>,
    summaries: Seq<Seq<char>>,
) -> Option<ReplyView> {
    let model = body.text_at("model"@);
    let summary = body.text_at("summaryModel"@);
    let mode = body.text_at("mode"@);
    if model is None && summary is None && body.get("mode"@) is None {
        Some(problem_reply(400, "Nothing to change."@))
    } else if model is Some && !models.contains(model->0) {
        Some(problem_reply(400, "Unknown model "@ + model->0 + "."@))
    } else if summary is Some && !summaries.contains(summary->0) {
        Some(problem_reply(400, "Unknown summary model "@ + summary->0 + "."@))
    } else if mode is Some && Mode::named(plain) is None {
        Some(problem_reply(400, "Unknown mode "@ + mode->0 + "."@))
    } else {
        None
    }
}

pub open spec fn plain_mode(body: JsonView) -> Seq<char> {
    match body.text_at("mode"@) {
        Some(mode) => ascii_lower(trimmed(mode)),
        None => Seq::<char>::empty(),
    }
}

/// Changes the meeting models. Only the meeting fields are ever written here: the two tools
/// are kept apart.
pub fn set_meeting_model(
    config: &mut Config,
    body: &Json,
    models: &Vec<String>,
    summaries: &Vec<String>,
) -> (r: Option<Reply>)
    ensures
        ({
            let refusal = model_problem(
                body@,
                plain_mode(body@),
                texts(models@),
                texts(summaries@),
            );
            match r {
                Some(reply) => refusal == Some(reply@) && *final(config) == *old(config),
                None => {
                    &&& refusal is None
                    &&& *final(config) == (Config {
                        meeting_model: final(config).meeting_model,
                        meeting_summary_model: final(config).meeting_summary_model,
                        meeting_mode: final(config).meeting_mode,
                        ..*old(config)
                    })
                    &&& opt_text(final(config).meeting_model) == (if body@.text_at("model"@)
                        is Some {
                        body@.text_at("model"@)
                    } else {
                        opt_text(old(config).meeting_model)
                    })
                    &&& opt_text(final(config).meeting_summary_model) == (if body@.text_at(
                        "summaryModel"@,
                    ) is Some {
                        body@.text_at("summaryModel"@)
                    } else {
                        opt_text(old(config).meeting_summary_model)
                    })
                    &&& opt_text(final(config).meeting_mode) == (if body@.text_at("mode"@)
                        is Some {
                        body@.text_at("mode"@)
                    } else {
                        opt_text(old(config).meeting_mode)
                    })
                },
            }
        }),
{
    let model = body.text_at("model");
    let summary = body.text_at("summaryModel");
    if model.is_none() && summary.is_none() && body.get("mode").is_none() {
        return Some(problem(400, "Nothing to change."));
    }
    if let Some(model) = model {
        if !list_has(models, model.as_str()) {
            return Some(
                problem(
                    400,
                    "Unknown model ".to_owned().concat(model.as_str()).concat(".").as_str(),
                ),
            );
        }
    }
    if let Some(summary) = summary {
        if !list_has(summaries, summary.as_str()) {
            return Some(
                problem(
                    400,
                    "Unknown summary model ".to_owned().concat(summary.as_str()).concat(
                        ".",
                    ).as_str(),
                ),
            );
        }
    }
    let mode = body.text_at("mode");
    if let Some(mode) = mode {
        if Mode::from_name(mode.as_str()).is_none() {
            return Some(
                problem(400, "Unknown mode ".to_owned().concat(mode.as_str()).concat(".").as_str()),
            );
        }
    }
    if let Some(model) = model {
        config.meeting_model = Some(model.clone());
    }
    if let Some(summary) = summary {
        config.meeting_summary_model = Some(summary.clone());
    }
    if let Some(mode) = mode {
        config.meeting_mode = Some(mode.clone());
    }
    None
}

/// The provider of a dictation model that is offered.
pub open spec fn model_provider(list: Seq<(Seq<char>, Provider, Seq<char>)>, model: Seq<char>) -> Option<
    Provider,
>
    decreases list.len(),
{
    if list.len() == 0 {
        None
    } else if list[0].2 == model {
        Some(list[0].1)
    } else {
        model_provider(list.drop_first(), model)
    }
}

pub fn provider_of_model(model: &str) -> (r: Option<Provider>)
    ensures
        r == model_provider(known_models(), model@),
{
    let list = model_options();
    let ghost all = offers(list@);
    let mut i: usize = 0;
    assert(all.skip(0) =~= all);
    while i < list.len()
        invariant
            i <= list.len(),
            all == offers(list@),
            model_provider(known_models(), model@) == model_provider(all.skip(i as int), model@),
        decreases list.len() - i,
    {
        assert(all.skip(i as int)[0] == offer(list@[i as int]));
        if same(list[i].model, model) {
            return Some(list[i].provider);
        }
        assert(all.skip(i as int).drop_first() =~= all.skip(i + 1));
        i = i + 1;
    }
    None
}

pub open spec fn wisper_model_problem(body: JsonView, config: Config) -> Option<ReplyView> {
    match body.text_at("model"@) {
        None => Some(problem_reply(400, "Name a model."@)),
        Some(wanted) => match model_provider(known_models(), wanted) {
            None => Some(problem_reply(400, "Unknown model "@ + wanted + "."@)),
            Some(provider) => if !config.has_key(provider) {
                Some(
                    problem_reply(
                        400,
                        "No "@ + provider.name() + " key is saved. Add one first: wisper model "@
                            + wanted,
                    ),
                )
            } else {
                None
            },
        },
    }
}

pub open spec fn wisper_model_reply(provider: Provider, model: Seq<char>) -> ReplyView {
    ReplyView {
        status: 200,
        body: JsonView::Object(
            seq![
                ("provider"@, JsonView::Text(provider.name())),
                ("model"@, JsonView::Text(model)),
                ("restartRequired"@, JsonView::Bool(true)),
            ],
        ),
    }
}

/// Changes the dictation model. Provider and model move together, since a provider with
/// another provider's model fails on every dictation, and without a key the change would
/// only surface as a failure at the next one.
pub fn set_wisper_model(config: &mut Config, body: &Json) -> (r: Reply)
    ensures
        match wisper_model_problem(body@, *old(config)) {
            Some(reply) => r@ == reply && *final(config) == *old(config),
            None => {
                let wanted = body@.text_at("model"@)->0;
                let provider = model_provider(known_models(), wanted)->0;
                &&& r@ == wisper_model_reply(provider, wanted)
                &&& *final(config) == (Config {
                    provider: Some(provider),
                    model: final(config).model,
                    ..*old(config)
                })
                &&& opt_text(final(config).model) == Some(wanted)
            },
        },
{
    let wanted = match body.text_at("model") {
        Some(wanted) => wanted,
        None => {
            return problem(400, "Name a model.");
        },
    };
    let provider = match provider_of_model(wanted.as_str()) {
        Some(provider) => provider,
        None => {
            return problem(
                400,
                "Unknown model ".to_owned().concat(wanted.as_str()).concat(".").as_str(),
            );
        },
    };
    if config.usable_key(provider).is_none() {
        return problem(
            400,
            "No ".to_owned().concat(provider.as_str()).concat(
                " key is saved. Add one first: wisper model ",
            ).concat(wanted.as_str()).as_str(),
        );
    }
    config.provider = Some(provider);
    config.model = Some(wanted.clone());
    let mut entries = new_entries();
    put(&mut entries, "provider", text_value(provider.as_str()));
    put(&mut entries, "model", text_value(wanted.as_str()));
    put(&mut entries, "restartRequired", Json::Bool(true));
    assert(entry_list(entries@) =~= wisper_model_reply(provider, wanted@).body->Object_0);
    ok(object(entries))
}

/// The status that deleting a transcript is answered with.
pub fn deleted_status(found: bool) -> (r: u16)
    ensures
        r == (if found {
            204u16
        } else {
            404u16
        }),
{
    if found {
        204
    } else {
        404
    }
}

// ------------------------------------------------------------- what is let through

/// A meeting is started exactly where there is a key, none is being recorded, and the user has
/// consented.
pub proof fn a_start_is_let_through(config: Config, active: Option<(Seq<char>, Phase)>)
    ensures
        start_problem(config, active) is None <==> config.has_key(Provider::Sarvam)
            && config.meeting_consent == Some(true) && !(active is Some && ((active->0).1
            == Phase::Starting || (active->0).1 == Phase::Recording || (active->0).1
            == Phase::Stopping)),
        start_problem(config, active) is Some ==> start_problem(config, active)->0.status == 400
            || start_problem(config, active)->0.status == 409,
{
}

/// A recording is imported exactly where there is a key, no meeting is being recorded or worked
/// on, and the user has consented.
pub proof fn an_import_is_let_through(config: Config, active: Option<(Seq<char>, Phase)>)
    ensures
        import_problem(config, active) is None <==> config.has_key(Provider::Sarvam)
            && config.meeting_consent == Some(true) && !(active is Some && ((active->0).1
            == Phase::Starting || (active->0).1 == Phase::Recording || (active->0).1
            == Phase::Stopping || (active->0).1 == Phase::Sampling || (active->0).1
            == Phase::Transcribing || (active->0).1 == Phase::Summarising)),
{
}

/// Only a meeting that waits for approval is approved.
pub proof fn only_a_waiting_meeting_is_approved(active: Option<(Seq<char>, Phase)>)
    ensures
        approval_problem(active) is None <==> active is Some && (active->0).1
            == Phase::AwaitingApproval,
        active is None ==> approval_problem(active)->0.status == 404,
{
}

/// A refusal says why.
pub proof fn a_refusal_says_why(status: u16, message: Seq<char>)
    ensures
        problem_reply(status, message).status == status,
        problem_reply(status, message).body.get("error"@) == Some(JsonView::Text(message)),
{
    reveal_with_fuel(entry_of, 2);
}

/// The source that was asked for is the one that is imported, without the spaces round it.
pub proof fn the_source_asked_for_is_imported(body: JsonView, source: Seq<char>)
    requires
        body.get("source"@) == Some(JsonView::Text(source)),
    ensures
        requested_source(body) == (if trimmed(source).len() > 0 {
            Some(trimmed(source))
        } else {
            None
        }),
{
}

/// The name in a query is the value of its first `name`.
pub proof fn the_first_name_counts(pairs: Seq<Seq<char>>, i: int)
    requires
        0 <= i < pairs.len(),
        name_value(pairs[i]) is Some,
        forall|k: int| 0 <= k < i ==> name_value(#[trigger] pairs[k]) is None,
    ensures
        first_name(pairs) == name_value(pairs[i]),
    decreases pairs.len(),
{
    let front = pairs.drop_last();
    if i < front.len() {
        assert(front[i] == pairs[i]);
        the_first_name_counts(front, i);
    } else {
        no_name_in(front);
    }
}

proof fn no_name_in(pairs: Seq<Seq<char>>)
    requires
        forall|k: int| 0 <= k < pairs.len() ==> name_value(#[trigger] pairs[k]) is None,
    ensures
        first_name(pairs) is None,
    decreases pairs.len(),
{
    if pairs.len() > 0 {
        assert(name_value(pairs[pairs.len() - 1]) is None);
        no_name_in(pairs.drop_last());
    }
}

/// The value of a `name` is what follows its equals sign, as it stands where nothing in it is
/// escaped.
#[verifier::spinoff_prover]
pub proof fn a_plain_name_is_taken_as_it_stands(value: Seq<char>)
    requires
        lacks(value, "%20"@),
        lacks(value, "+"@),
    ensures
        name_value("name="@ + value) == Some(value),
{
    reveal_strlit("name=");
    reveal_strlit("name");
    reveal_strlit("=");
    let pair = "name="@ + value;
    the_first_position_is_found(pair, "="@, 0);
    assert(pair.subrange(4, 5) =~= "="@);
    assert(stands_at(pair, "="@, 4));
    let at = position(pair, "="@, 0)->0;
    assert forall|k: int| 0 <= k < 4 implies !stands_at(pair, "="@, k) by {
        assert(pair.subrange(k, k + 1)[0] == pair[k]);
    }
    assert(at == 4);
    assert(pair.take(4) =~= "name"@);
    assert(pair.skip(5) =~= value);
    nothing_to_replace(value, "%20"@, " "@);
    nothing_to_replace(value, "+"@, " "@);
}

/// A name that is safe is kept, whatever directory it came from.
#[verifier::spinoff_prover]
pub proof fn a_safe_name_is_kept(directory: Seq<char>, name: Seq<char>)
    requires
        name.len() > 0,
        forall|i: int| 0 <= i < name.len() ==> is_safe(#[trigger] name[i]),
        !is_edge(name[0]),
        !is_edge(name.last()),
    ensures
        safe_name(directory + seq!['/'] + name) == name,
{
    let p = |c: char| is_slash(c);
    let e = |c: char| is_edge(c);
    assert forall|i: int| 0 <= i < name.len() implies !p(#[trigger] name[i]) by {
        assert(is_safe(name[i]));
    }
    splitting_goes_piece_by_piece(directory, '/', name, p);
    assert(name.map_values(|c: char| safe_char(c)) =~= name);
    assert(trim_front(name, e) == name);
    assert(trim_back(name, e) == name);
}

/// Models are changed exactly where something is asked for and all of it is known.
pub proof fn known_models_are_let_through(
    body: JsonView,
    plain: Seq<char>,
    models: Seq<Seq<char>>,
    summaries: Seq<Seq<char>>,
    model: Seq<char>,
)
    requires
        body.get("model"@) == Some(JsonView::Text(model)),
        body.get("summaryModel"@) is None,
        body.get("mode"@) is None,
    ensures
        model_problem(body, plain, models, summaries) is None <==> models.contains(model),
{
}

/// A dictation model can be chosen exactly where it is one of those offered and its provider has a
/// key.
pub proof fn a_model_needs_its_providers_key(body: JsonView, config: Config, wanted: Seq<char>)
    requires
        body.get("model"@) == Some(JsonView::Text(wanted)),
    ensures
        wisper_model_problem(body, config) is None <==> model_provider(known_models(), wanted)
            is Some && config.has_key(model_provider(known_models(), wanted)->0),
{
}

/// The provider of a model is that of the first offer of it.
pub proof fn a_model_has_its_provider(
    list: Seq<(Seq<char>, Provider, Seq<char>)>,
    model: Seq<char>,
    i: int,
)
    requires
        0 <= i < list.len(),
        list[i].2 == model,
        forall|k: int| 0 <= k < i ==> (#[trigger] list[k]).2 != model,
    ensures
        model_provider(list, model) == Some(list[i].1),
    decreases list.len(),
{
    if i > 0 {
        assert(list[0].2 != model);
        let rest = list.drop_first();
        assert(rest[i - 1] == list[i]);
        assert forall|k: int| 0 <= k < i - 1 implies (#[trigger] rest[k]).2 != model by {
            assert(rest[k] == list[k + 1]);
        }
        a_model_has_its_provider(rest, model, i - 1);
    }
}

/// The dashboard is reached on this machine alone, at its port.
pub proof fn the_dashboard_stays_on_this_machine(port: u16)
    ensures
        "127.0.0.1:"@.is_prefix_of(loopback(port)),
        decimal(port as nat).is_suffix_of(loopback(port)),
{
    let at = loopback(port);
    let n = decimal(port as nat).len() as int;
    assert(at.take("127.0.0.1:"@.len() as int) =~= "127.0.0.1:"@);
    assert(at.subrange(at.len() - n, at.len() as int) =~= decimal(port as nat));
}

} // verus!
