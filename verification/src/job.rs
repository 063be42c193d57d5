//! One Sarvam Batch job, end to end: what is sent, what the replies mean, and what is done
//! next.
use vstd::prelude::*;
use crate::json::{
    Json, JsonView, entry_list, entry_of, entry_of_both, json_single, json_texts, new_entries, object, put,
    single, text_array, text_value,
};
use crate::number::{decimal, to_decimal};
use crate::paths::{extension_of_name, file_name, file_name_of, path_extension};
use crate::sarvam_batch::{BatchOptions, Mode};
use crate::text::{
    ascii_lower, chars_of, contains, eq_ignore_ascii_case, equal_to, find_position, has,
    lowercase_of, opt_text, part_of, position, same, shorten, shortened, split, split_at,
    split_is_never_empty, stands_at, starts_with, string_of, texts, the_first_position_is_found,
    to_lowercase, trim, trimmed,
};

verus! {

pub const BASE: &'static str = "https://api.sarvam.ai/speech-to-text/job/v1";

// --------------------------------------------------------------------- job states

#[derive(Debug, Clone, Copy, PartialEq, Eq, Structural)]
pub enum JobState {
    Accepted,
    Pending,
    Running,
    Completed,
    PartiallyCompleted,
    Failed,
    Unknown,
}

impl JobState {
    /// The state that a name means once it is trimmed and in lower case.
    pub open spec fn named(name: Seq<char>) -> JobState {
        if name == "accepted"@ {
            JobState::Accepted
        } else if name == "pending"@ {
            JobState::Pending
        } else if name == "running"@ {
            JobState::Running
        } else if name == "completed"@ {
            JobState::Completed
        } else if name == "partiallycompleted"@ || name == "partially_completed"@ {
            JobState::PartiallyCompleted
        } else if name == "failed"@ {
            JobState::Failed
        } else {
            JobState::Unknown
        }
    }

    pub open spec fn of(value: Seq<char>) -> JobState {
        JobState::named(lowercase_of(trimmed(value)))
    }

    pub open spec fn ends_job(self) -> bool {
        self is Completed || self is PartiallyCompleted || self is Failed
    }

    /// The state of a name that is already trimmed and in lower case.
    pub fn of_plain_name(name: &str) -> (r: JobState)
        ensures
            r == JobState::named(name@),
    {
        if same(name, "accepted") {
            JobState::Accepted
        } else if same(name, "pending") {
            JobState::Pending
        } else if same(name, "running") {
            JobState::Running
        } else if same(name, "completed") {
            JobState::Completed
        } else if same(name, "partiallycompleted") || same(name, "partially_completed") {
            JobState::PartiallyCompleted
        } else if same(name, "failed") {
            JobState::Failed
        } else {
            JobState::Unknown
        }
    }

    pub fn parse(value: &str) -> (r: JobState)
        ensures
            r == JobState::of(value@),
    {
        JobState::of_plain_name(to_lowercase(trim(value).as_str()).as_str())
    }

    pub fn is_terminal(&self) -> (r: bool)
        ensures
            r == self.ends_job(),
    {
        match self {
            JobState::Completed | JobState::PartiallyCompleted | JobState::Failed => true,
            _ => false,
        }
    }
}

// ------------------------------------------------------------------------ requests

/// Whether the provider knows the format by this extension, in lower case.
pub open spec fn is_audio_extension(e: Seq<char>) -> bool {
    ||| e == "wav"@
    ||| e == "mp3"@
    ||| e == "flac"@
    ||| e == "m4a"@
    ||| e == "ogg"@
    ||| e == "opus"@
    ||| e == "webm"@
    ||| e == "mp4"@
    ||| e == "aac"@
    ||| e == "amr"@
    ||| e == "wma"@
    ||| e == "aiff"@
}

fn known_extension(e: &str) -> (r: bool)
    ensures
        r == is_audio_extension(e@),
{
    same(e, "wav") || same(e, "mp3") || same(e, "flac") || same(e, "m4a") || same(e, "ogg")
        || same(e, "opus") || same(e, "webm") || same(e, "mp4") || same(e, "aac") || same(e, "amr")
        || same(e, "wma") || same(e, "aiff")
}

/// The file name that a path is registered under.
pub open spec fn registered_name(path: Seq<char>, target_os: Seq<char>) -> Seq<char> {
    let name = match file_name(path, target_os) {
        Some(name) => name,
        None => "audio.wav"@,
    };
    match path_extension(path, target_os) {
        Some(e) => if is_audio_extension(lowercase_of(e)) {
            name
        } else {
            name + ".wav"@
        },
        None => name + ".wav"@,
    }
}

/// File name to register with the job. Providers infer the format from it.
pub fn upload_name(path: &str, target_os: &str) -> (r: String)
    ensures
        r@ == registered_name(path@, target_os@),
{
    match file_name_of(path, target_os) {
        Some(name) => {
            let known = match extension_of_name(name.as_str()) {
                Some(e) => known_extension(to_lowercase(e.as_str()).as_str()),
                None => false,
            };
            if known {
                name
            } else {
                name.concat(".wav")
            }
        },
        None => "audio.wav".to_owned().concat(".wav"),
    }
}

pub open spec fn mode_entries(mode: Option<Mode>) -> Seq<(Seq<char>, JsonView)> {
    match mode {
        Some(mode) => seq![("mode"@, JsonView::Text(mode.name()))],
        None => Seq::empty(),
    }
}

pub open spec fn speaker_entries(n: Option<u8>) -> Seq<(Seq<char>, JsonView)> {
    match n {
        Some(n) => seq![("num_speakers"@, JsonView::Number(decimal(n as nat)))],
        None => Seq::empty(),
    }
}

/// The body that creates a job. The number of speakers is only sent when it is known:
/// guessing it would bias diarization for no reason.
pub open spec fn job_body(options: BatchOptions) -> JsonView {
    json_single(
        "job_parameters"@,
        JsonView::Object(
            seq![("model"@, JsonView::Text(options.model@))] + mode_entries(options.mode) + seq![
                ("language_code"@, JsonView::Text(options.language_code@)),
                ("with_timestamps"@, JsonView::Bool(options.with_timestamps)),
                ("with_diarization"@, JsonView::Bool(options.with_diarization)),
            ] + speaker_entries(options.num_speakers),
        ),
    )
}

pub fn job_parameters(options: &BatchOptions) -> (r: Json)
    ensures
        r@ == job_body(*options),
{
    let mut entries = new_entries();
    put(&mut entries, "model", text_value(options.model.as_str()));
    let ghost head = seq![("model"@, JsonView::Text(options.model@))];
    assert(entry_list(entries@) =~= head);
    match options.mode {
        Some(mode) => {
            put(&mut entries, "mode", text_value(mode.as_str()));
        },
        None => {},
    }
    assert(entry_list(entries@) =~= head + mode_entries(options.mode));
    put(&mut entries, "language_code", text_value(options.language_code.as_str()));
    put(&mut entries, "with_timestamps", Json::Bool(options.with_timestamps));
    put(&mut entries, "with_diarization", Json::Bool(options.with_diarization));
    let ghost middle = seq![
        ("language_code"@, JsonView::Text(options.language_code@)),
        ("with_timestamps"@, JsonView::Bool(options.with_timestamps)),
        ("with_diarization"@, JsonView::Bool(options.with_diarization)),
    ];
    assert(entry_list(entries@) =~= head + mode_entries(options.mode) + middle);
    match options.num_speakers {
        Some(n) => {
            put(&mut entries, "num_speakers", Json::Number(to_decimal(n as u64)));
        },
        None => {},
    }
    assert(entry_list(entries@) =~= head + mode_entries(options.mode) + middle + speaker_entries(
        options.num_speakers,
    ));
    single("job_parameters", object(entries))
}

/// The body that asks for signed addresses of `names`.
pub open spec fn files_body(job_id: Seq<char>, names: Seq<Seq<char>>) -> JsonView {
    JsonView::Object(seq![("job_id"@, JsonView::Text(job_id)), ("files"@, json_texts(names))])
}

pub fn files_request(job_id: &str, names: &Vec<String>) -> (r: Json)
    ensures
        r@ == files_body(job_id@, texts(names@)),
{
    let mut entries = new_entries();
    put(&mut entries, "job_id", text_value(job_id));
    put(&mut entries, "files", text_array(names));
    assert(entry_list(entries@) =~= seq![
        ("job_id"@, JsonView::Text(job_id@)),
        ("files"@, json_texts(texts(names@))),
    ]);
    object(entries)
}

// ------------------------------------------------------------------------- replies

/// The text of the member of a member.
pub open spec fn nested_text(j: JsonView, outer: Seq<char>, inner: Seq<char>) -> Option<Seq<char>> {
    match j.get(outer) {
        Some(value) => value.text_at(inner),
        None => None,
    }
}

pub fn read_nested_text<'a>(j: &'a Json, outer: &str, inner: &str) -> (r: Option<&'a String>)
    ensures
        match r {
            Some(t) => nested_text(j@, outer@, inner@) == Some(t@),
            None => nested_text(j@, outer@, inner@) is None,
        },
{
    match j.get(outer) {
        Some(value) => value.text_at(inner),
        None => None,
    }
}

/// What a refused request is reported as.
pub open spec fn failure_text(payload: JsonView, status: u16, what: Seq<char>) -> Seq<char> {
    match nested_text(payload, "error"@, "message"@) {
        Some(m) => m,
        None => match payload.text_at("message"@) {
            Some(m) => m,
            None => match payload.text_at("detail"@) {
                Some(m) => m,
                None => what + " failed: HTTP "@ + decimal(status as nat),
            },
        },
    }
}

/// Sarvam's error bodies vary by endpoint, so all three shapes are tried before falling
/// back to the status code.
pub fn error_message(payload: &Json, status: u16, what: &str) -> (r: String)
    ensures
        r@ == failure_text(payload@, status, what@),
{
    match read_nested_text(payload, "error", "message") {
        Some(m) => m.clone(),
        None => match payload.text_at("message") {
            Some(m) => m.clone(),
            None => match payload.text_at("detail") {
                Some(m) => m.clone(),
                None => what.to_owned().concat(" failed: HTTP ").concat(
                    to_decimal(status as u64).as_str(),
                ),
            },
        },
    }
}

/// A signed address, and the headers it was signed with.
#[derive(Debug)]
pub struct SignedUrl {
    pub url: String,
    pub headers: Vec<(String, String)>,
}

#[verifier::ext_equal]
pub struct SignedUrlView {
    pub url: Seq<char>,
    pub headers: Seq<(Seq<char>, Seq<char>)>,
}

pub open spec fn header_list(headers: Seq<(String, String)>) -> Seq<(Seq<char>, Seq<char>)> {
    Seq::new(headers.len(), |i: int| (headers[i].0@, headers[i].1@))
}

impl View for SignedUrl {
    type V = SignedUrlView;

    open spec fn view(&self) -> SignedUrlView {
        SignedUrlView { url: self.url@, headers: header_list(self.headers@) }
    }
}

/// The entries whose value is a string.
pub open spec fn text_entries(entries: Seq<(Seq<char>, JsonView)>) -> Seq<(Seq<char>, Seq<char>)>
    decreases entries.len(),
{
    if entries.len() == 0 {
        Seq::empty()
    } else {
        let before = text_entries(entries.drop_last());
        match entries.last().1.as_text() {
            Some(t) => before.push((entries.last().0, t)),
            None => before,
        }
    }
}

/// The entry for a name, or the only entry there is.
pub open spec fn named_or_only(entries: Seq<(Seq<char>, JsonView)>, name: Seq<char>) -> Option<
    JsonView,
> {
    match entry_of(entries, name) {
        Some(value) => Some(value),
        None => if entries.len() == 1 {
            Some(entries[0].1)
        } else {
            None
        },
    }
}

/// The headers that an entry wants replayed.
pub open spec fn replayed(entry: JsonView) -> Seq<(Seq<char>, Seq<char>)> {
    match entry.get("file_metadata"@) {
        Some(metadata) => match metadata.as_object() {
            Some(entries) => text_entries(entries),
            None => Seq::empty(),
        },
        None => Seq::empty(),
    }
}

pub open spec fn signed(payload: JsonView, field: Seq<char>, name: Seq<char>) -> Option<
    SignedUrlView,
> {
    match payload.get(field) {
        Some(map) => match map.as_object() {
            Some(entries) => match named_or_only(entries, name) {
                Some(entry) => match entry.text_at("file_url"@) {
                    Some(url) => Some(SignedUrlView { url, headers: replayed(entry) }),
                    None => None,
                },
                None => None,
            },
            None => None,
        },
        None => None,
    }
}

pub open spec fn opt_signed(o: Option<SignedUrl>) -> Option<SignedUrlView> {
    match o {
        Some(s) => Some(s@),
        None => None,
    }
}

fn read_headers(entry: &Json) -> (r: Vec<(String, String)>)
    ensures
        header_list(r@) == replayed(entry@),
{
    let mut r: Vec<(String, String)> = Vec::new();
    assert(header_list(r@) =~= Seq::empty());
    if let Some(metadata) = entry.get("file_metadata") {
        if let Json::Object(entries) = metadata {
            let ghost all = metadata@->Object_0;
            let mut i: usize = 0;
            while i < entries.len()
                invariant
                    i <= entries.len(),
                    metadata is Object,
                    entries == metadata->Object_0,
                    all == metadata@->Object_0,
                    header_list(r@) == text_entries(all.take(i as int)),
                decreases entries.len() - i,
            {
                assert(all.take(i + 1).drop_last() == all.take(i as int));
                assert(all.take(i + 1).last() == (entries@[i as int].0@, entries@[i as int].1@));
                if let Some(t) = entries[i].1.as_text() {
                    let ghost before = header_list(r@);
                    r.push((entries[i].0.clone(), t.clone()));
                    assert(header_list(r@) =~= before.push((entries@[i as int].0@, t@)));
                }
                i = i + 1;
            }
            assert(all.take(i as int) == all);
        }
    }
    r
}

/// Picks a file's signed URL out of the response, tolerating a key that does not match the
/// requested name exactly when only one entry came back.
pub fn signed_url(payload: &Json, field: &str, name: &str) -> (r: Option<SignedUrl>)
    ensures
        opt_signed(r) == signed(payload@, field@, name@),
{
    let map = match payload.get(field) {
        Some(map) => map,
        None => {
            return None;
        },
    };
    let entry = match map {
        Json::Object(entries) => match map.get(name) {
            Some(entry) => entry,
            None => {
                if entries.len() != 1 {
                    return None;
                }
                assert(map@->Object_0[0].1 == entries@[0].1@);
                &entries[0].1
            },
        },
        _ => {
            return None;
        },
    };
    match entry.text_at("file_url") {
        Some(url) => {
            let found = SignedUrl { url: url.clone(), headers: read_headers(entry) };
            Some(found)
        },
        None => None,
    }
}

/// Whether a signed URL points at Azure Blob Storage, given the container type in lower
/// case.
pub open spec fn azure_by(url: Seq<char>, container: Option<Seq<char>>) -> bool {
    match container {
        Some(lower) => if "azure"@.is_prefix_of(lower) {
            true
        } else if lower == "google"@ || lower == "local"@ {
            false
        } else {
            has(url, ".blob.core.windows.net"@)
        },
        None => has(url, ".blob.core.windows.net"@),
    }
}

pub open spec fn lowered(container: Option<Seq<char>>) -> Option<Seq<char>> {
    match container {
        Some(c) => Some(lowercase_of(c)),
        None => None,
    }
}

/// A container that is named explicitly as something else must not get an Azure header:
/// Google signed URLs reject headers they were not signed with.
pub fn is_azure_in(url: &str, lower: &Option<String>) -> (r: bool)
    ensures
        r == azure_by(url@, opt_text(*lower)),
{
    if let Some(lower) = lower {
        if starts_with(lower.as_str(), "azure") {
            return true;
        }
        if same(lower.as_str(), "google") || same(lower.as_str(), "local") {
            return false;
        }
    }
    contains(url, ".blob.core.windows.net")
}

/// Whether a signed URL points at Azure Blob Storage.
///
/// The container type is reported by the provider, but the host is checked too: the field
/// is absent from some responses and the header it decides is mandatory.
pub fn is_azure_blob(url: &str, container: &Option<String>) -> (r: bool)
    ensures
        r == azure_by(url@, lowered(opt_text(*container))),
{
    let lower = match container {
        Some(c) => Some(to_lowercase(c.as_str())),
        None => None,
    };
    is_azure_in(url, &lower)
}

/// Whether two texts are equal once their ASCII letters are in lower case.
pub open spec fn equal_ignoring_case(a: Seq<char>, b: Seq<char>) -> bool {
    ascii_lower(a) == ascii_lower(b)
}

/// Whether a blob type is among the headers.
pub open spec fn is_typed(headers: Seq<(Seq<char>, Seq<char>)>) -> bool {
    exists|i: int|
        0 <= i < headers.len() && equal_ignoring_case(#[trigger] headers[i].0, "x-ms-blob-type"@)
}

/// The headers of an upload: the blob type that Azure demands, unless it was handed back
/// already, and then everything that was handed back, as given.
pub open spec fn upload_headers_of(
    details: SignedUrlView,
    container: Option<Seq<char>>,
) -> Seq<(Seq<char>, Seq<char>)> {
    if azure_by(details.url, lowered(container)) && !is_typed(details.headers) {
        seq![("x-ms-blob-type"@, "BlockBlob"@)] + details.headers
    } else {
        details.headers
    }
}

fn already_typed(headers: &Vec<(String, String)>) -> (r: bool)
    ensures
        r == is_typed(header_list(headers@)),
{
    let ghost all = header_list(headers@);
    let mut i: usize = 0;
    while i < headers.len()
        invariant
            i <= headers.len(),
            all == header_list(headers@),
            forall|j: int|
                0 <= j < i ==> !equal_ignoring_case(#[trigger] all[j].0, "x-ms-blob-type"@),
        decreases headers.len() - i,
    {
        assert(all[i as int].0 == headers@[i as int].0@);
        if eq_ignore_ascii_case(headers[i].0.as_str(), "x-ms-blob-type") {
            return true;
        }
        i = i + 1;
    }
    false
}

pub fn upload_headers(details: &SignedUrl, container: &Option<String>) -> (r: Vec<(String, String)>)
    ensures
        header_list(r@) == upload_headers_of(details@, opt_text(*container)),
{
    let mut r: Vec<(String, String)> = Vec::new();
    if is_azure_blob(details.url.as_str(), container) && !already_typed(&details.headers) {
        r.push(("x-ms-blob-type".to_owned(), "BlockBlob".to_owned()));
    }
    let ghost head = header_list(r@);
    assert(head + details@.headers =~= upload_headers_of(details@, opt_text(*container)));
    let mut i: usize = 0;
    assert(head + details@.headers.take(0) =~= head);
    while i < details.headers.len()
        invariant
            i <= details.headers.len(),
            header_list(r@) == head + details@.headers.take(i as int),
        decreases details.headers.len() - i,
    {
        let ghost before = header_list(r@);
        let header = &details.headers[i];
        r.push((header.0.clone(), header.1.clone()));
        assert(header_list(r@) =~= before.push((header.0@, header.1@)));
        assert(head + details@.headers.take(i + 1) =~= (head + details@.headers.take(
            i as int,
        )).push(details@.headers[i as int]));
        i = i + 1;
    }
    assert(details@.headers.take(i as int) == details@.headers);
    r
}

/// What stands between the first `open` and the `close` after it, trimmed.
pub open spec fn between(body: Seq<char>, open: Seq<char>, close: Seq<char>) -> Option<Seq<char>> {
    match position(body, open, 0) {
        Some(at) => {
            let start = at + open.len();
            match position(body, close, start) {
                Some(end) => Some(trimmed(body.subrange(start, end))),
                None => None,
            }
        },
        None => None,
    }
}

/// The first line of a text, trimmed.
pub open spec fn first_line(t: Seq<char>) -> Seq<char> {
    trimmed(split_at(t, '\n')[0])
}

/// The human part of an error body: code and first line of the message, or a short prefix
/// where it is not XML.
pub open spec fn azure_text(body: Seq<char>) -> Seq<char> {
    let code = between(body, "<Code>"@, "</Code>"@);
    let message = between(body, "<Message>"@, "</Message>"@);
    match (code, message) {
        (Some(code), Some(message)) => code + ": "@ + first_line(message),
        (Some(code), None) => code,
        (None, Some(message)) => first_line(message),
        (None, None) => shortened(trimmed(body), 200),
    }
}

fn read_between(body: &str, open: &str, close: &str) -> (r: Option<String>)
    ensures
        opt_text(r) == between(body@, open@, close@),
{
    let v = chars_of(body);
    let o = chars_of(open);
    let c = chars_of(close);
    match find_position(&v, &o, 0) {
        Some(at) => {
            assert(stands_at(v@, o@, at as int));
            assert(at + o.len() <= v.len());
            let start: usize = at + o.len();
            match find_position(&v, &c, start) {
                Some(end) => {
                    let inner = part_of(&v, start, end);
                    Some(trim(string_of(&inner).as_str()))
                },
                None => None,
            }
        },
        None => None,
    }
}

fn read_first_line(t: &str) -> (r: String)
    ensures
        r@ == first_line(t@),
{
    let lines = split(t, '\n');
    proof {
        split_is_never_empty(t@, equal_to('\n'));
    }
    assert(lines@.len() == texts(lines@).len());
    trim(lines[0].as_str())
}

/// Pulls the human part out of Azure's XML error body.
pub fn azure_error_message(body: &str) -> (r: String)
    ensures
        r@ == azure_text(body@),
{
    let code = read_between(body, "<Code>", "</Code>");
    let message = read_between(body, "<Message>", "</Message>");
    match code {
        Some(code) => match message {
            Some(message) => code.concat(": ").concat(read_first_line(message.as_str()).as_str()),
            None => code,
        },
        None => match message {
            Some(message) => read_first_line(message.as_str()),
            None => shorten(trim(body).as_str(), 200),
        },
    }
}

/// What a refused upload is reported as.
pub open spec fn upload_failure(path: Seq<char>, status: u16, body: Seq<char>) -> Seq<char> {
    let detail = azure_text(body);
    "Uploading "@ + path + " failed: HTTP "@ + decimal(status as nat) + if detail.len() > 0 {
        " — "@ + detail
    } else {
        Seq::<char>::empty()
    }
}

pub fn upload_error(path: &str, status: u16, body: &str) -> (r: String)
    ensures
        r@ == upload_failure(path@, status, body@),
{
    let detail = azure_error_message(body);
    let head = "Uploading ".to_owned().concat(path).concat(" failed: HTTP ").concat(
        to_decimal(status as u64).as_str(),
    );
    if detail.as_str().is_empty() {
        assert(head@ + Seq::<char>::empty() =~= head@);
        head
    } else {
        let tail = " — ".to_owned().concat(detail.as_str());
        head.concat(tail.as_str())
    }
}

// --------------------------------------------------------------------------- laws

/// A job asks for what its options say, each under its own name. A mode or a number of speakers
/// that was left open is left out.
#[verifier::spinoff_prover]
pub proof fn a_job_asks_for_what_was_chosen(options: BatchOptions)
    ensures
        ({
            let asked = job_body(options).get("job_parameters"@)->0;
            &&& job_body(options).get("job_parameters"@) is Some
            &&& asked.get("model"@) == Some(JsonView::Text(options.model@))
            &&& asked.get("language_code"@) == Some(JsonView::Text(options.language_code@))
            &&& asked.get("with_timestamps"@) == Some(JsonView::Bool(options.with_timestamps))
            &&& asked.get("with_diarization"@) == Some(JsonView::Bool(options.with_diarization))
            &&& asked.get("mode"@) == (match options.mode {
                Some(mode) => Some(JsonView::Text(mode.name())),
                None => None,
            })
            &&& asked.get("num_speakers"@) == (match options.num_speakers {
                Some(n) => Some(JsonView::Number(decimal(n as nat))),
                None => None,
            })
        }),
{
    reveal_strlit("model");
    reveal_strlit("mode");
    reveal_strlit("language_code");
    reveal_strlit("with_timestamps");
    reveal_strlit("with_diarization");
    reveal_strlit("num_speakers");
    assert("model"@.len() == 5 && "mode"@.len() == 4 && "language_code"@.len() == 13
        && "with_timestamps"@.len() == 15 && "with_diarization"@.len() == 16
        && "num_speakers"@.len() == 12);
    let a = seq![("model"@, JsonView::Text(options.model@))];
    let b = mode_entries(options.mode);
    let c = seq![
        ("language_code"@, JsonView::Text(options.language_code@)),
        ("with_timestamps"@, JsonView::Bool(options.with_timestamps)),
        ("with_diarization"@, JsonView::Bool(options.with_diarization)),
    ];
    let d = speaker_entries(options.num_speakers);
    four_runs(a, b, c, d, "model"@);
    four_runs(a, b, c, d, "mode"@);
    four_runs(a, b, c, d, "language_code"@);
    four_runs(a, b, c, d, "with_timestamps"@);
    four_runs(a, b, c, d, "with_diarization"@);
    four_runs(a, b, c, d, "num_speakers"@);
    reveal_with_fuel(entry_of, 4);
    assert(c.drop_first() =~= seq![c[1], c[2]]);
    assert(c.drop_first().drop_first() =~= seq![c[2]]);
    assert(seq![c[2]].drop_first() =~= Seq::<(Seq<char>, JsonView)>::empty());
    assert(a.drop_first() =~= Seq::<(Seq<char>, JsonView)>::empty());
    if b.len() > 0 {
        assert(b.drop_first() =~= Seq::<(Seq<char>, JsonView)>::empty());
    }
    if d.len() > 0 {
        assert(d.drop_first() =~= Seq::<(Seq<char>, JsonView)>::empty());
    }
}

proof fn four_runs(
    a: Seq<(Seq<char>, JsonView)>,
    b: Seq<(Seq<char>, JsonView)>,
    c: Seq<(Seq<char>, JsonView)>,
    d: Seq<(Seq<char>, JsonView)>,
    name: Seq<char>,
)
    ensures
        entry_of(a + b + c + d, name) == (if entry_of(a, name) is Some {
            entry_of(a, name)
        } else if entry_of(b, name) is Some {
            entry_of(b, name)
        } else if entry_of(c, name) is Some {
            entry_of(c, name)
        } else {
            entry_of(d, name)
        }),
{
    entry_of_both(a, b, name);
    entry_of_both(a + b, c, name);
    entry_of_both(a + b + c, d, name);
}

/// A request about files names its job and each file, in order.
pub proof fn a_files_request_names_every_file(job_id: Seq<char>, names: Seq<Seq<char>>, i: int)
    requires
        0 <= i < names.len(),
    ensures
        files_body(job_id, names).get("job_id"@) == Some(JsonView::Text(job_id)),
        files_body(job_id, names).get("files"@) is Some,
        files_body(job_id, names).get("files"@)->0 is Array,
        files_body(job_id, names).get("files"@)->0->Array_0.len() == names.len(),
        files_body(job_id, names).get("files"@)->0->Array_0[i] == JsonView::Text(names[i]),
{
    reveal_strlit("job_id");
    reveal_strlit("files");
    assert("job_id"@.len() == 6 && "files"@.len() == 5);
    reveal_with_fuel(entry_of, 3);
    let both = seq![("job_id"@, JsonView::Text(job_id)), ("files"@, json_texts(names))];
    assert(both.drop_first() =~= seq![both[1]]);
}

/// A file is registered under a name that begins with its own and ends in an audio extension.
pub proof fn a_registered_name_is_the_files_own(path: Seq<char>, target_os: Seq<char>)
    requires
        file_name(path, target_os) is Some,
    ensures
        ({
            let own = file_name(path, target_os)->0;
            let name = registered_name(path, target_os);
            let extension = path_extension(path, target_os);
            let audio = extension is Some && is_audio_extension(lowercase_of(extension->0));
            &&& own.is_prefix_of(name)
            &&& audio ==> name == own
            &&& !audio ==> ".wav"@.is_suffix_of(name) && name.len() == own.len() + 4
        }),
{
    reveal_strlit(".wav");
    let own = file_name(path, target_os)->0;
    assert((own + ".wav"@).take(own.len() as int) =~= own);
    assert((own + ".wav"@).subrange(own.len() as int, (own.len() + 4) as int) =~= ".wav"@);
}

/// What to send and where comes from the file's own entry. The entry of another file serves only
/// where it is the only one.
pub proof fn an_address_is_that_of_its_file(
    payload: JsonView,
    field: Seq<char>,
    name: Seq<char>,
    entries: Seq<(Seq<char>, JsonView)>,
)
    requires
        payload.get(field) == Some(JsonView::Object(entries)),
    ensures
        signed(payload, field, name) is Some ==> ({
            let own = entry_of(entries, name);
            let used = if own is Some {
                own->0
            } else {
                entries[0].1
            };
            &&& own is Some || entries.len() == 1
            &&& used.get("file_url"@) == Some(
                JsonView::Text(signed(payload, field, name)->0.url),
            )
        }),
        entry_of(entries, name) is None && entries.len() != 1 ==> signed(payload, field, name)
            is None,
{
}

proof fn text_entries_of_both(a: Seq<(Seq<char>, JsonView)>, b: Seq<(Seq<char>, JsonView)>)
    ensures
        text_entries(a + b) == text_entries(a) + text_entries(b),
    decreases b.len(),
{
    if b.len() == 0 {
        assert(a + b == a);
        assert(text_entries(a) + text_entries(b) == text_entries(a));
    } else {
        assert((a + b).drop_last() == a + b.drop_last());
        assert((a + b).last() == b.last());
        text_entries_of_both(a, b.drop_last());
    }
}

/// Every header that the signature came with is sent along, in its place, with its own value.
pub proof fn every_signed_header_is_replayed(
    entry: JsonView,
    metadata: Seq<(Seq<char>, JsonView)>,
    i: int,
    value: Seq<char>,
)
    requires
        entry.get("file_metadata"@) == Some(JsonView::Object(metadata)),
        0 <= i < metadata.len(),
        metadata[i].1 == JsonView::Text(value),
    ensures
        replayed(entry) == text_entries(metadata.take(i)) + seq![(metadata[i].0, value)]
            + text_entries(metadata.skip(i + 1)),
{
    reveal_with_fuel(text_entries, 2);
    let one = seq![metadata[i]];
    assert(metadata == metadata.take(i) + one + metadata.skip(i + 1));
    text_entries_of_both(metadata.take(i) + one, metadata.skip(i + 1));
    text_entries_of_both(metadata.take(i), one);
    assert(one.drop_last() == Seq::<(Seq<char>, JsonView)>::empty());
    assert(one.last() == metadata[i]);
    assert(text_entries(one) =~= seq![(metadata[i].0, value)]);
}

/// An upload to Azure always says what kind of blob it is, and says it once. No other upload is
/// changed, and no header is lost.
pub proof fn an_azure_upload_is_typed(details: SignedUrlView, container: Option<Seq<char>>)
    ensures
        ({
            let sent = upload_headers_of(details, container);
            &&& azure_by(details.url, lowered(container)) ==> is_typed(sent)
            &&& is_typed(details.headers) ==> sent == details.headers
            &&& !azure_by(details.url, lowered(container)) ==> sent == details.headers
            &&& sent.skip(sent.len() - details.headers.len()) == details.headers
        }),
{
    let sent = upload_headers_of(details, container);
    assert(sent.skip(sent.len() - details.headers.len()) =~= details.headers);
    if azure_by(details.url, lowered(container)) && !is_typed(details.headers) {
        assert(sent[0].0 == "x-ms-blob-type"@);
        assert(equal_ignoring_case(sent[0].0, "x-ms-blob-type"@));
    }
}

/// What the provider says of a failure is what is reported. Only where it says nothing is the
/// status reported in its place.
pub proof fn the_providers_own_words_are_reported(
    payload: JsonView,
    error: JsonView,
    message: Seq<char>,
    status: u16,
    what: Seq<char>,
)
    ensures
        payload.get("error"@) == Some(error) && error.get("message"@) == Some(
            JsonView::Text(message),
        ) ==> failure_text(payload, status, what) == message,
        payload.get("error"@) is None && payload.get("message"@) == Some(JsonView::Text(message))
            ==> failure_text(payload, status, what) == message,
        payload.get("error"@) is None && payload.get("message"@) is None && payload.get("detail"@)
            == Some(JsonView::Text(message)) ==> failure_text(payload, status, what) == message,
        payload.get("error"@) is None && payload.get("message"@) is None && payload.get("detail"@)
            is None ==> what.is_prefix_of(failure_text(payload, status, what)) && decimal(
            status as nat,
        ).is_suffix_of(failure_text(payload, status, what)),
{
    let text = what + " failed: HTTP "@ + decimal(status as nat);
    assert(text.take(what.len() as int) =~= what);
    let n = decimal(status as nat).len() as int;
    assert(text.subrange(text.len() - n, text.len() as int) =~= decimal(status as nat));
}

/// What stands between two marks is what is taken: the first text that is enclosed by them.
pub proof fn what_is_enclosed_is_taken(
    before: Seq<char>,
    open: Seq<char>,
    inside: Seq<char>,
    close: Seq<char>,
    after: Seq<char>,
)
    requires
        forall|k: int|
            0 <= k < before.len() ==> !#[trigger] stands_at(
                before + open + inside + close + after,
                open,
                k,
            ),
        forall|k: int|
            before.len() + open.len() <= k < before.len() + open.len() + inside.len()
                ==> !#[trigger] stands_at(before + open + inside + close + after, close, k),
    ensures
        between(before + open + inside + close + after, open, close) == Some(trimmed(inside)),
{
    let body = before + open + inside + close + after;
    let start = (before.len() + open.len()) as int;
    let end = (start + inside.len()) as int;
    assert(body.subrange(before.len() as int, start) =~= open);
    assert(body.subrange(end, end + close.len()) =~= close);
    assert(body.subrange(start, end) =~= inside);
    assert(stands_at(body, open, before.len() as int));
    assert(stands_at(body, close, end));
    the_first_position_is_found(body, open, 0);
    the_first_position_is_found(body, close, start);
}

} // verus!
