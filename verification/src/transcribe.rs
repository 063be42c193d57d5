//! Transcription of short clips, across all four providers.
use vstd::prelude::*;
use crate::chat::{is_success, succeeded};
use crate::config::{Config, Provider, known_models, setting_or};
use crate::job::header_list;
use crate::json::{Json, JsonView, json_written, opt_json, write_json};
use crate::number::{decimal, to_decimal};
use crate::paths::{extension_of_name, file_name, file_name_of, path_extension};
use crate::sarvam_batch::{either, or_empty, read_either};
use crate::text::{
    contains, has, lowercase_of, opt_text, same, stands_inside, to_lowercase, trim, trimmed,
};

verus! {

/// The largest file that the Nextbase gateway takes, in bytes.
pub const CODEX_MAX_BYTES: u64 = 26_214_400;

// -------------------------------------------------------------------------- routes

/// A direct endpoint.
#[derive(Debug, Clone, Copy, PartialEq, Eq, Structural)]
pub enum Service {
    Groq,
    ElevenLabs,
    Sarvam,
    NextbaseCodex,
}

impl Service {
    pub open spec fn title(self) -> Seq<char> {
        match self {
            Service::Groq => "Groq"@,
            Service::ElevenLabs => "ElevenLabs"@,
            Service::Sarvam => "Sarvam"@,
            Service::NextbaseCodex => "Nextbase Codex"@,
        }
    }

    /// The name that errors are reported under.
    pub fn label(&self) -> (r: &'static str)
        ensures
            r@ == self.title(),
    {
        match self {
            Service::Groq => "Groq",
            Service::ElevenLabs => "ElevenLabs",
            Service::Sarvam => "Sarvam",
            Service::NextbaseCodex => "Nextbase Codex",
        }
    }

    pub open spec fn address(self) -> Seq<char> {
        match self {
            Service::Groq => "https://api.groq.com/openai/v1/audio/transcriptions"@,
            Service::ElevenLabs => "https://api.elevenlabs.io/v1/speech-to-text"@,
            Service::Sarvam => "https://api.sarvam.ai/speech-to-text"@,
            Service::NextbaseCodex =>
            "https://nextbase-model-gateway.infinitycorp.tech/v1/openai-codex/audio/transcriptions"@,
        }
    }

    pub fn url(&self) -> (r: &'static str)
        ensures
            r@ == self.address(),
    {
        match self {
            Service::Groq => "https://api.groq.com/openai/v1/audio/transcriptions",
            Service::ElevenLabs => "https://api.elevenlabs.io/v1/speech-to-text",
            Service::Sarvam => "https://api.sarvam.ai/speech-to-text",
            Service::NextbaseCodex =>
            "https://nextbase-model-gateway.infinitycorp.tech/v1/openai-codex/audio/transcriptions",
        }
    }

    /// The header that carries the key, and what stands before it.
    pub open spec fn key_header(self, key: Seq<char>) -> (Seq<char>, Seq<char>) {
        match self {
            Service::Groq => ("authorization"@, "Bearer "@ + key),
            Service::ElevenLabs => ("xi-api-key"@, key),
            Service::Sarvam => ("api-subscription-key"@, key),
            Service::NextbaseCodex => ("x-api-key"@, key),
        }
    }

    pub fn auth(&self, key: &str) -> (r: (String, String))
        ensures
            (r.0@, r.1@) == self.key_header(key@),
    {
        match self {
            Service::Groq => ("authorization".to_owned(), "Bearer ".to_owned().concat(key)),
            Service::ElevenLabs => ("xi-api-key".to_owned(), key.to_owned()),
            Service::Sarvam => ("api-subscription-key".to_owned(), key.to_owned()),
            Service::NextbaseCodex => ("x-api-key".to_owned(), key.to_owned()),
        }
    }
}

/// The model that is asked for in place of a retired one.
pub open spec fn current_sarvam_model(model: Seq<char>) -> Seq<char> {
    if model == "saarika:v2"@ {
        "saarika:v2.5"@
    } else {
        model
    }
}

/// `saarika:v2` was retired in favour of `v2.5`; keeps old settings working.
pub fn sarvam_model(model: &str) -> (r: String)
    ensures
        r@ == current_sarvam_model(model@),
{
    if same(model, "saarika:v2") {
        "saarika:v2.5".to_owned()
    } else {
        model.to_owned()
    }
}

/// The fields that are sent beside the file.
pub open spec fn fields_for(service: Service, model: Seq<char>) -> Seq<(Seq<char>, Seq<char>)> {
    match service {
        Service::Groq => seq![("model"@, model), ("response_format"@, "json"@)],
        Service::ElevenLabs => seq![("model_id"@, model)],
        Service::Sarvam => if current_sarvam_model(model) == "saaras:v3"@ {
            seq![
                ("model"@, current_sarvam_model(model)),
                ("language_code"@, "unknown"@),
                ("mode"@, "transcribe"@),
            ]
        } else {
            seq![("model"@, current_sarvam_model(model)), ("language_code"@, "unknown"@)]
        },
        Service::NextbaseCodex => seq![
            ("model"@, "codex-transcribe"@),
            ("response_format"@, "json"@),
        ],
    }
}

pub fn form_fields(service: Service, model: &str) -> (r: Vec<(String, String)>)
    ensures
        header_list(r@) == fields_for(service, model@),
{
    let mut r: Vec<(String, String)> = Vec::new();
    match service {
        Service::Groq => {
            r.push(("model".to_owned(), model.to_owned()));
            r.push(("response_format".to_owned(), "json".to_owned()));
        },
        Service::ElevenLabs => {
            r.push(("model_id".to_owned(), model.to_owned()));
        },
        Service::Sarvam => {
            let current = sarvam_model(model);
            let has_mode = same(current.as_str(), "saaras:v3");
            r.push(("model".to_owned(), current));
            r.push(("language_code".to_owned(), "unknown".to_owned()));
            if has_mode {
                r.push(("mode".to_owned(), "transcribe".to_owned()));
            }
        },
        Service::NextbaseCodex => {
            r.push(("model".to_owned(), "codex-transcribe".to_owned()));
            r.push(("response_format".to_owned(), "json".to_owned()));
        },
    }
    assert(header_list(r@) =~= fields_for(service, model@));
    r
}

/// Whether an extension, in lower case, is one the providers know.
pub open spec fn is_clip_extension(e: Seq<char>) -> bool {
    ||| e == "wav"@
    ||| e == "mp3"@
    ||| e == "flac"@
    ||| e == "m4a"@
    ||| e == "ogg"@
    ||| e == "opus"@
    ||| e == "webm"@
    ||| e == "mp4"@
    ||| e == "mpeg"@
    ||| e == "mpga"@
}

/// The file name that a clip is sent under.
pub open spec fn clip_name_of(path: Seq<char>, target_os: Seq<char>) -> Seq<char> {
    let name = match file_name(path, target_os) {
        Some(name) => name,
        None => "audio.wav"@,
    };
    match path_extension(path, target_os) {
        Some(e) => if is_clip_extension(lowercase_of(e)) {
            name
        } else {
            name + ".wav"@
        },
        None => name + ".wav"@,
    }
}

fn known_clip_extension(e: &str) -> (r: bool)
    ensures
        r == is_clip_extension(e@),
{
    same(e, "wav") || same(e, "mp3") || same(e, "flac") || same(e, "m4a") || same(e, "ogg")
        || same(e, "opus") || same(e, "webm") || same(e, "mp4") || same(e, "mpeg") || same(
        e,
        "mpga",
    )
}

/// Providers infer the format from the file name, so a name without a known audio
/// extension gets `.wav` appended.
pub fn clip_name(path: &str, target_os: &str) -> (r: String)
    ensures
        r@ == clip_name_of(path@, target_os@),
{
    match file_name_of(path, target_os) {
        Some(name) => {
            let known = match extension_of_name(name.as_str()) {
                Some(e) => known_clip_extension(to_lowercase(e.as_str()).as_str()),
                None => false,
            };
            if known {
                name
            } else {
                name.concat(".wav")
            }
        },
        None => "audio.wav".to_owned().concat(".wav"),
    }
}

// -------------------------------------------------------------------------- the plan

/// One request to make: where to, with which key, for which model.
#[derive(Debug)]
pub struct Attempt {
    pub service: Service,
    pub key: String,
    pub model: String,
}

pub open spec fn service_of(provider: Provider) -> Service {
    match provider {
        Provider::Groq => Service::Groq,
        Provider::ElevenLabs => Service::ElevenLabs,
        Provider::Sarvam => Service::Sarvam,
        Provider::NextbaseCodex => Service::NextbaseCodex,
    }
}

pub open spec fn default_model(provider: Provider) -> Seq<char> {
    match provider {
        Provider::Groq => "whisper-large-v3-turbo"@,
        Provider::ElevenLabs => "scribe_v2"@,
        Provider::Sarvam => "saaras:v3"@,
        Provider::NextbaseCodex => "codex-transcribe"@,
    }
}

/// The first request for a file, or why there is none.
pub fn first_attempt(config: &Config) -> (r: Result<Attempt, String>)
    ensures
        match r {
            Ok(a) => {
                &&& config.configured()
                &&& a.service == service_of(config.provider->0)
                &&& config.key(config.provider->0) == Some(a.key@)
                &&& a.model@ == setting_or(config.model, default_model(config.provider->0))
            },
            Err(e) => {
                &&& !config.configured()
                &&& e@ == match config.provider {
                    None => "No provider configured. Run: wisper setup"@,
                    Some(p) => "No API key saved for "@ + p.name() + ". Run: wisper setup"@,
                }
            },
        },
{
    let provider = match config.provider {
        Some(provider) => provider,
        None => {
            return Err("No provider configured. Run: wisper setup".to_owned());
        },
    };
    let key = match config.usable_key(provider) {
        Some(key) => key,
        None => {
            return Err(
                "No API key saved for ".to_owned().concat(provider.as_str()).concat(
                    ". Run: wisper setup",
                ),
            );
        },
    };
    let (service, fallback) = match provider {
        Provider::Groq => (Service::Groq, "whisper-large-v3-turbo"),
        Provider::ElevenLabs => (Service::ElevenLabs, "scribe_v2"),
        Provider::Sarvam => (Service::Sarvam, "saaras:v3"),
        Provider::NextbaseCodex => (Service::NextbaseCodex, "codex-transcribe"),
    };
    let model = match &config.model {
        Some(model) => model.clone(),
        None => fallback.to_owned(),
    };
    Ok(Attempt { service, key, model })
}

/// Whether a file is refused for its size.
pub fn refused_size(service: Service, size: u64) -> (r: Option<String>)
    ensures
        match r {
            Some(e) => service == Service::NextbaseCodex && size > CODEX_MAX_BYTES && e@
                == "Nextbase Codex Transcribe accepts audio files up to 25 MiB."@,
            None => !(service == Service::NextbaseCodex && size > CODEX_MAX_BYTES),
        },
{
    if service == Service::NextbaseCodex && size > CODEX_MAX_BYTES {
        Some("Nextbase Codex Transcribe accepts audio files up to 25 MiB.".to_owned())
    } else {
        None
    }
}

/// Whether an error, in lower case, says that the audio is too long. Only these markers
/// trigger the fallback: anything else is a real error the user needs to see.
pub open spec fn is_about_duration(lower: Seq<char>) -> bool {
    ||| has(lower, "duration"@)
    ||| has(lower, "30 second"@)
    ||| has(lower, "maximum limit"@)
    ||| has(lower, "too long"@)
    ||| has(lower, "exceeds"@)
}

pub fn names_duration(lower: &str) -> (r: bool)
    ensures
        r == is_about_duration(lower@),
{
    contains(lower, "duration") || contains(lower, "30 second") || contains(lower, "maximum limit")
        || contains(lower, "too long") || contains(lower, "exceeds")
}

/// What follows a failed request: a second one, or the error that is reported.
#[derive(Debug)]
pub enum Recovery {
    Retry { attempt: Attempt, note: String },
    Fail { message: String },
}

pub open spec fn fallback_note(error: Seq<char>) -> Seq<char> {
    "Sarvam could not handle this audio ("@ + error + "). Falling back to Groq Whisper."@
}

pub open spec fn limit_message(error: Seq<char>) -> Seq<char> {
    error
        + "\nSarvam's direct endpoint is limited to ~30s of audio. Add a Groq key for longer files: wisper provider"@
}

/// What follows a failed request of a service, with the error as it is and in lower case.
pub fn recover_from(config: &Config, service: Service, error: &str, lower: &str) -> (r: Recovery)
    ensures
        match r {
            Recovery::Retry { attempt, note } => {
                &&& service == Service::Sarvam
                &&& is_about_duration(lower@)
                &&& config.key(Provider::Groq) == Some(attempt.key@)
                &&& attempt.service == Service::Groq
                &&& attempt.model@ == "whisper-large-v3-turbo"@
                &&& note@ == fallback_note(error@)
            },
            Recovery::Fail { message } => if service == Service::Sarvam && is_about_duration(
                lower@,
            ) {
                config.key(Provider::Groq) is None && message@ == limit_message(error@)
            } else {
                message@ == error@
            },
        },
{
    if service != Service::Sarvam || !names_duration(lower) {
        return Recovery::Fail { message: error.to_owned() };
    }
    match config.key_for(Provider::Groq) {
        Some(key) => Recovery::Retry {
            attempt: Attempt {
                service: Service::Groq,
                key: key.clone(),
                model: "whisper-large-v3-turbo".to_owned(),
            },
            note: "Sarvam could not handle this audio (".to_owned().concat(error).concat(
                "). Falling back to Groq Whisper.",
            ),
        },
        None => Recovery::Fail {
            message: error.to_owned().concat(
                "\nSarvam's direct endpoint is limited to ~30s of audio. Add a Groq key for longer files: wisper provider",
            ),
        },
    }
}

/// What follows a failed request of a service.
pub fn recover(config: &Config, service: Service, error: &str) -> (r: Recovery)
    ensures
        match r {
            Recovery::Retry { attempt, note } => {
                &&& service == Service::Sarvam
                &&& is_about_duration(lowercase_of(error@))
                &&& config.key(Provider::Groq) == Some(attempt.key@)
                &&& attempt.service == Service::Groq
                &&& attempt.model@ == "whisper-large-v3-turbo"@
                &&& note@ == fallback_note(error@)
            },
            Recovery::Fail { message } => if service == Service::Sarvam && is_about_duration(
                lowercase_of(error@),
            ) {
                config.key(Provider::Groq) is None && message@ == limit_message(error@)
            } else {
                message@ == error@
            },
        },
{
    let lower = to_lowercase(error);
    recover_from(config, service, error, lower.as_str())
}

// -------------------------------------------------------------------------- replies

/// What one place of a reply says of the error: its words where they are more than white
/// space, its JSON text where it is neither a string nor null.
pub open spec fn told_by(candidate: Option<JsonView>) -> Option<Seq<char>> {
    match candidate {
        Some(JsonView::Text(t)) => if trimmed(t).len() > 0 {
            Some(t)
        } else {
            None
        },
        Some(JsonView::Null) => None,
        Some(other) => Some(json_written(other)),
        None => None,
    }
}

pub open spec fn member_of_member(j: JsonView, outer: Seq<char>, inner: Seq<char>) -> Option<
    JsonView,
> {
    match j.get(outer) {
        Some(value) => value.get(inner),
        None => None,
    }
}

/// What a refused transcription is reported as.
pub open spec fn refusal_text(body: JsonView, status: u16, provider: Seq<char>) -> Seq<char> {
    match told_by(member_of_member(body, "error"@, "message"@)) {
        Some(m) => m,
        None => match told_by(body.get("message"@)) {
            Some(m) => m,
            None => match told_by(body.get("detail"@)) {
                Some(m) => m,
                None => match told_by(member_of_member(body, "detail"@, "message"@)) {
                    Some(m) => m,
                    None => provider + " transcription failed: HTTP "@ + decimal(status as nat),
                },
            },
        },
    }
}

fn read_told(candidate: Option<&Json>) -> (r: Option<String>)
    ensures
        opt_text(r) == told_by(opt_json(candidate)),
{
    match candidate {
        Some(value) => match value {
            Json::Text(t) => if trim(t.as_str()).as_str().is_empty() {
                None
            } else {
                Some(t.clone())
            },
            Json::Null => None,
            _ => Some(write_json(value)),
        },
        None => None,
    }
}

fn read_member_of_member<'a>(j: &'a Json, outer: &str, inner: &str) -> (r: Option<&'a Json>)
    ensures
        opt_json(r) == member_of_member(j@, outer@, inner@),
{
    match j.get(outer) {
        Some(value) => value.get(inner),
        None => None,
    }
}

/// Providers disagree on where they put an error string, so each shape is tried.
pub fn provider_error(body: &Json, status: u16, provider: &str) -> (r: String)
    ensures
        r@ == refusal_text(body@, status, provider@),
{
    if let Some(m) = read_told(read_member_of_member(body, "error", "message")) {
        return m;
    }
    if let Some(m) = read_told(body.get("message")) {
        return m;
    }
    if let Some(m) = read_told(body.get("detail")) {
        return m;
    }
    if let Some(m) = read_told(read_member_of_member(body, "detail", "message")) {
        return m;
    }
    provider.to_owned().concat(" transcription failed: HTTP ").concat(
        to_decimal(status as u64).as_str(),
    )
}

/// The words of a reply, under either name.
pub open spec fn transcript_text(body: JsonView) -> Seq<char> {
    match either(body, "text"@, "transcript"@) {
        Some(value) => trimmed(or_empty(value.as_text())),
        None => Seq::<char>::empty(),
    }
}

pub fn transcript_from(body: &Json) -> (r: String)
    ensures
        r@ == transcript_text(body@),
{
    match read_either(body, "text", "transcript") {
        Some(value) => match value.as_text() {
            Some(t) => trim(t.as_str()),
            None => {
                assert(trimmed(Seq::<char>::empty()) =~= Seq::<char>::empty());
                String::new()
            },
        },
        None => String::new(),
    }
}

/// What a reply gives: the transcript, or the error.
pub fn transcription_reply(status: u16, body: &Json, service: Service) -> (r: Result<String, String>)
    ensures
        match r {
            Ok(text) => is_success(status) && text@ == transcript_text(body@),
            Err(e) => !is_success(status) && e@ == refusal_text(body@, status, service.title()),
        },
{
    if succeeded(status) {
        Ok(transcript_from(body))
    } else {
        Err(provider_error(body, status, service.label()))
    }
}

// --------------------------------------------------------------------------- laws

/// Each provider is asked through its own service, and no two through the same.
pub proof fn each_provider_has_its_own_service(a: Provider, b: Provider)
    ensures
        service_of(a) == service_of(b) ==> a == b,
        service_of(a) == Service::Groq <==> a == Provider::Groq,
        service_of(a) == Service::ElevenLabs <==> a == Provider::ElevenLabs,
        service_of(a) == Service::Sarvam <==> a == Provider::Sarvam,
        service_of(a) == Service::NextbaseCodex <==> a == Provider::NextbaseCodex,
{
}

/// A service gets the whole key, under the header that is its own.
pub proof fn a_service_gets_its_key(service: Service, other: Service, key: Seq<char>)
    ensures
        key.is_suffix_of(service.key_header(key).1),
        service != Service::Groq ==> service.key_header(key).1 == key,
        service == Service::Groq ==> service.key_header(key).1 == "Bearer "@ + key,
        service.key_header(key).0 == other.key_header(key).0 ==> service == other,
{
    let bearer = "Bearer "@ + key;
    assert(bearer.subrange(bearer.len() - key.len(), bearer.len() as int) =~= key);
    assert(key.subrange(0, key.len() as int) =~= key);
    reveal_strlit("authorization");
    reveal_strlit("xi-api-key");
    reveal_strlit("api-subscription-key");
    reveal_strlit("x-api-key");
    assert("authorization"@.len() == 13 && "xi-api-key"@.len() == 10
        && "api-subscription-key"@.len() == 20 && "x-api-key"@.len() == 9);
}

/// The model that was chosen is the one that is asked for. Sarvam's retired name stands for its
/// successor, and the gateway has a single model.
pub proof fn the_chosen_model_is_asked_for(service: Service, model: Seq<char>)
    ensures
        ({
            let sent = fields_for(service, model);
            let name = if service == Service::ElevenLabs {
                "model_id"@
            } else {
                "model"@
            };
            &&& sent.len() > 0
            &&& sent[0].0 == name
            &&& service == Service::Groq || service == Service::ElevenLabs ==> sent[0].1 == model
            &&& service == Service::Sarvam && model != "saarika:v2"@ ==> sent[0].1 == model
            &&& service == Service::Sarvam && model == "saarika:v2"@ ==> sent[0].1
                == "saarika:v2.5"@
            &&& service == Service::NextbaseCodex ==> sent[0].1 == "codex-transcribe"@
            &&& service == Service::Sarvam ==> sent[1] == ("language_code"@, "unknown"@) && (
            sent.len() == 3 <==> model == "saaras:v3"@)
        }),
{
    reveal_strlit("saarika:v2");
    reveal_strlit("saarika:v2.5");
    reveal_strlit("saaras:v3");
    assert("saarika:v2"@.len() == 10 && "saarika:v2.5"@.len() == 12 && "saaras:v3"@.len() == 9);
}

/// A clip is sent under a name that begins with its file's own and ends in an extension that is
/// known.
pub proof fn a_clip_name_is_the_files_own(path: Seq<char>, target_os: Seq<char>)
    requires
        file_name(path, target_os) is Some,
    ensures
        ({
            let own = file_name(path, target_os)->0;
            let name = clip_name_of(path, target_os);
            let extension = path_extension(path, target_os);
            let known = extension is Some && is_clip_extension(lowercase_of(extension->0));
            &&& own.is_prefix_of(name)
            &&& known ==> name == own
            &&& !known ==> name == own + ".wav"@
        }),
{
    let own = file_name(path, target_os)->0;
    assert((own + ".wav"@).take(own.len() as int) =~= own);
}

/// The words that a service heard are its transcript, whichever of its two names they stand under.
pub proof fn the_words_heard_are_the_transcript(body: JsonView, words: Seq<char>)
    ensures
        body.get("text"@) == Some(JsonView::Text(words)) ==> transcript_text(body) == trimmed(
            words,
        ),
        body.get("text"@) is None && body.get("transcript"@) == Some(JsonView::Text(words))
            ==> transcript_text(body) == trimmed(words),
        body.get("text"@) is None && body.get("transcript"@) is None ==> transcript_text(
            body,
        ).len() == 0,
{
}

/// What a service says of its refusal is what is reported. Only where it says nothing is its
/// status reported in its place, with its name.
pub proof fn a_refusal_is_told_in_its_own_words(
    body: JsonView,
    error: JsonView,
    message: Seq<char>,
    status: u16,
    provider: Seq<char>,
)
    requires
        trimmed(message).len() > 0,
    ensures
        body.get("error"@) == Some(error) && error.get("message"@) == Some(JsonView::Text(message))
            ==> refusal_text(body, status, provider) == message,
        body.get("error"@) is None && body.get("message"@) == Some(JsonView::Text(message))
            ==> refusal_text(body, status, provider) == message,
        body.get("error"@) is None && body.get("message"@) is None && body.get("detail"@) == Some(
            JsonView::Text(message),
        ) ==> refusal_text(body, status, provider) == message,
        body.get("error"@) is None && body.get("message"@) is None && body.get("detail"@) is None
            ==> provider.is_prefix_of(refusal_text(body, status, provider)) && decimal(
            status as nat,
        ).is_suffix_of(refusal_text(body, status, provider)),
{
    let text = provider + " transcription failed: HTTP "@ + decimal(status as nat);
    assert(text.take(provider.len() as int) =~= provider);
    let n = decimal(status as nat).len() as int;
    assert(text.subrange(text.len() - n, text.len() as int) =~= decimal(status as nat));
}

/// A fallback says what went wrong.
pub proof fn a_fallback_says_why(error: Seq<char>)
    ensures
        has(fallback_note(error), error),
        error.is_prefix_of(limit_message(error)),
{
    stands_inside(
        "Sarvam could not handle this audio ("@,
        error,
        "). Falling back to Groq Whisper."@,
    );
    let text = limit_message(error);
    assert(text.take(error.len() as int) =~= error);
}

/// The model that a provider is asked for without a choice is one that is offered with it.
pub proof fn a_default_model_is_one_of_those_offered(provider: Provider)
    ensures
        exists|i: int|
            0 <= i < known_models().len() && (#[trigger] known_models()[i]).1 == provider
                && known_models()[i].2 == default_model(provider),
{
    let all = known_models();
    assert(all[0].1 == Provider::Groq && all[1].1 == Provider::ElevenLabs && all[2].1
        == Provider::Sarvam && all[3].1 == Provider::NextbaseCodex);
}

/// A refusal is about the length of the audio exactly where it says one of these words.
pub proof fn a_refusal_about_length_says_so(lower: Seq<char>)
    ensures
        is_about_duration(lower) <==> has(lower, "duration"@) || has(lower, "30 second"@) || has(
            lower,
            "maximum limit"@,
        ) || has(lower, "too long"@) || has(lower, "exceeds"@),
{
}

} // verus!
