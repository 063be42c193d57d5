//! The course of one Sarvam Batch job: which request follows which reply, until the job has
//! produced its transcripts or has failed.
use vstd::prelude::*;
use crate::dashboard::Reply;
use crate::job::{
    BASE, JobState, files_body, files_request, header_list, job_body, job_parameters, replayed,
    signed, signed_url, upload_headers, upload_headers_of,
};
use crate::json::{Json, JsonView, entry_of, json_list, new_entries, object};
use crate::number::{decimal, to_decimal};
use crate::sarvam_batch::{
    BatchOptions, BatchResult, BatchResultView, MAX_FILES_PER_JOB, either, or_empty, output_of,
    parse_output, read_either,
};
use crate::text::{list_has, lowercase_of, opt_text, same, texts, texts_of_push, trim, trimmed};
use crate::time::{Time, add_times, clock, clock_text, time_sum};
use crate::transcription::{
    Transcription, TranscriptionView, transcription_list, transcription_list_of_push,
};

verus! {

// ----------------------------------------------------------------- status documents

/// The name of an output file.
pub open spec fn item_name(item: JsonView) -> Option<Seq<char>> {
    match either(item, "file_name"@, "name"@) {
        Some(value) => value.as_text(),
        None => None,
    }
}

/// The name of an input file, which may stand alone.
pub open spec fn input_name(item: JsonView) -> Option<Seq<char>> {
    match either(item, "file_name"@, "name"@) {
        Some(value) => value.as_text(),
        None => item.as_text(),
    }
}

pub open spec fn item_names(items: Seq<JsonView>) -> Seq<Seq<char>>
    decreases items.len(),
{
    if items.len() == 0 {
        Seq::<Seq<char>>::empty()
    } else {
        let before = item_names(items.drop_last());
        match item_name(items.last()) {
            Some(name) => before.push(name),
            None => before,
        }
    }
}

pub open spec fn or_none(items: Option<Seq<JsonView>>) -> Seq<JsonView> {
    match items {
        Some(items) => items,
        None => Seq::<JsonView>::empty(),
    }
}

pub open spec fn detail_outputs(details: Seq<JsonView>) -> Seq<Seq<char>>
    decreases details.len(),
{
    if details.len() == 0 {
        Seq::<Seq<char>>::empty()
    } else {
        detail_outputs(details.drop_last()) + item_names(
            or_none(details.last().array_at("outputs"@)),
        )
    }
}

/// The output files that a finished job names.
pub open spec fn output_names(status: JsonView) -> Seq<Seq<char>> {
    detail_outputs(or_none(status.array_at("job_details"@)))
}

/// Whether the task of one input failed, or produced nothing.
pub open spec fn task_failed(detail: JsonView) -> bool {
    let state = match either(detail, "task_state"@, "state"@) {
        Some(value) => or_empty(value.as_text()),
        None => Seq::<char>::empty(),
    };
    JobState::of(state) is Failed || or_none(detail.array_at("outputs"@)).len() == 0
}

pub open spec fn detail_input(detail: JsonView) -> Option<Seq<char>> {
    let inputs = or_none(detail.array_at("inputs"@));
    if inputs.len() > 0 {
        input_name(inputs[0])
    } else {
        None
    }
}

pub open spec fn failed_inputs_of(details: Seq<JsonView>) -> Seq<Seq<char>>
    decreases details.len(),
{
    if details.len() == 0 {
        Seq::<Seq<char>>::empty()
    } else {
        let before = failed_inputs_of(details.drop_last());
        if task_failed(details.last()) {
            match detail_input(details.last()) {
                Some(name) => before.push(name),
                None => before,
            }
        } else {
            before
        }
    }
}

/// The inputs whose task did not complete.
pub open spec fn failed_names(status: JsonView) -> Seq<Seq<char>> {
    failed_inputs_of(or_none(status.array_at("job_details"@)))
}

fn append_item_names(names: &mut Vec<String>, items: &Vec<Json>)
    ensures
        texts(final(names)@) == texts(old(names)@) + item_names(json_list(items@)),
{
    broadcast use texts_of_push;

    let ghost before = texts(names@);
    let ghost all = json_list(items@);
    let mut i: usize = 0;
    assert(before + item_names(all.take(0)) =~= before);
    while i < items.len()
        invariant
            i <= items.len(),
            all == json_list(items@),
            texts(names@) == before + item_names(all.take(i as int)),
        decreases items.len() - i,
    {
        assert(all.take(i + 1).drop_last() == all.take(i as int));
        assert(all.take(i + 1).last() == items@[i as int]@);
        if let Some(value) = read_either(&items[i], "file_name", "name") {
            if let Some(name) = value.as_text() {
                names.push(name.clone());
                assert(before + item_names(all.take(i as int)).push(name@) =~= (before
                    + item_names(all.take(i as int))).push(name@));
            }
        }
        i = i + 1;
    }
    assert(all.take(i as int) == all);
}

pub fn output_file_names(status: &Json) -> (r: Vec<String>)
    ensures
        texts(r@) == output_names(status@),
{
    let mut names: Vec<String> = Vec::new();
    assert(texts(names@) =~= Seq::<Seq<char>>::empty());
    if let Some(details) = status.array_at("job_details") {
        let ghost all = json_list(details@);
        let mut i: usize = 0;
        while i < details.len()
            invariant
                i <= details.len(),
                all == json_list(details@),
                texts(names@) == detail_outputs(all.take(i as int)),
            decreases details.len() - i,
        {
            assert(all.take(i + 1).drop_last() == all.take(i as int));
            assert(all.take(i + 1).last() == details@[i as int]@);
            match details[i].array_at("outputs") {
                Some(outputs) => {
                    append_item_names(&mut names, outputs);
                },
                None => {
                    assert(texts(names@) + Seq::<Seq<char>>::empty() =~= texts(names@));
                },
            }
            i = i + 1;
        }
        assert(all.take(i as int) == all);
    }
    names
}

fn has_failed(detail: &Json) -> (r: bool)
    ensures
        r == task_failed(detail@),
{
    let state = match read_either(detail, "task_state", "state") {
        Some(value) => match value.as_text() {
            Some(t) => JobState::parse(t.as_str()),
            None => JobState::parse(String::new().as_str()),
        },
        None => JobState::parse(String::new().as_str()),
    };
    let produced = match detail.array_at("outputs") {
        Some(outputs) => outputs.len() > 0,
        None => false,
    };
    state == JobState::Failed || !produced
}

fn first_input(detail: &Json) -> (r: Option<String>)
    ensures
        opt_text(r) == detail_input(detail@),
{
    match detail.array_at("inputs") {
        Some(inputs) => {
            if inputs.len() == 0 {
                return None;
            }
            assert(json_list(inputs@)[0] == inputs@[0]@);
            let value = match read_either(&inputs[0], "file_name", "name") {
                Some(value) => value,
                None => &inputs[0],
            };
            match value.as_text() {
                Some(name) => Some(name.clone()),
                None => None,
            }
        },
        None => None,
    }
}

/// Inputs whose task did not complete, so the caller can resubmit exactly those.
pub fn failed_input_names(status: &Json) -> (r: Vec<String>)
    ensures
        texts(r@) == failed_names(status@),
{
    broadcast use texts_of_push;

    let mut names: Vec<String> = Vec::new();
    assert(texts(names@) =~= Seq::<Seq<char>>::empty());
    if let Some(details) = status.array_at("job_details") {
        let ghost all = json_list(details@);
        let mut i: usize = 0;
        while i < details.len()
            invariant
                i <= details.len(),
                all == json_list(details@),
                texts(names@) == failed_inputs_of(all.take(i as int)),
            decreases details.len() - i,
        {
            assert(all.take(i + 1).drop_last() == all.take(i as int));
            assert(all.take(i + 1).last() == details@[i as int]@);
            if has_failed(&details[i]) {
                if let Some(name) = first_input(&details[i]) {
                    names.push(name);
                }
            }
            i = i + 1;
        }
        assert(all.take(i as int) == all);
    }
    names
}

// ---------------------------------------------------------------------- the course

/// Where a submission stands: what the reply that comes next is the answer to.
#[derive(Debug)]
pub enum Stage {
    Creating,
    RequestingUploads { job_id: String, created: Json },
    Uploading { job_id: String, upload: Json, container: Option<String>, index: usize },
    Starting { job_id: String },
    Polling { job_id: String, wait: u64, last_state: String },
    RequestingDownloads { job_id: String, names: Vec<String>, failed: Vec<String>, partial: bool },
    Downloading {
        job_id: String,
        downloads: Json,
        names: Vec<String>,
        failed: Vec<String>,
        partial: bool,
        index: usize,
        outputs: Vec<Transcription>,
    },
}

pub enum StageView {
    Creating,
    RequestingUploads { job_id: Seq<char>, created: JsonView },
    Uploading {
        job_id: Seq<char>,
        upload: JsonView,
        container: Option<Seq<char>>,
        index: usize,
    },
    Starting { job_id: Seq<char> },
    Polling { job_id: Seq<char>, wait: u64, last_state: Seq<char> },
    RequestingDownloads {
        job_id: Seq<char>,
        names: Seq<Seq<char>>,
        failed: Seq<Seq<char>>,
        partial: bool,
    },
    Downloading {
        job_id: Seq<char>,
        downloads: JsonView,
        names: Seq<Seq<char>>,
        failed: Seq<Seq<char>>,
        partial: bool,
        index: usize,
        outputs: Seq<TranscriptionView>,
    },
}

impl View for Stage {
    type V = StageView;

    open spec fn view(&self) -> StageView {
        match self {
            Stage::Creating => StageView::Creating,
            Stage::RequestingUploads { job_id, created } => StageView::RequestingUploads {
                job_id: job_id@,
                created: created@,
            },
            Stage::Uploading { job_id, upload, container, index } => StageView::Uploading {
                job_id: job_id@,
                upload: upload@,
                container: opt_text(*container),
                index: *index,
            },
            Stage::Starting { job_id } => StageView::Starting { job_id: job_id@ },
            Stage::Polling { job_id, wait, last_state } => StageView::Polling {
                job_id: job_id@,
                wait: *wait,
                last_state: last_state@,
            },
            Stage::RequestingDownloads { job_id, names, failed, partial } =>
            StageView::RequestingDownloads {
                job_id: job_id@,
                names: texts(names@),
                failed: texts(failed@),
                partial: *partial,
            },
            Stage::Downloading { job_id, downloads, names, failed, partial, index, outputs } =>
            StageView::Downloading {
                job_id: job_id@,
                downloads: downloads@,
                names: texts(names@),
                failed: texts(failed@),
                partial: *partial,
                index: *index,
                outputs: transcription_list(outputs@),
            },
        }
    }
}

/// What is asked of the outside next. `what` names the request in an error message.
#[derive(Debug)]
pub enum Request {
    Post { url: String, body: Json, what: String },
    /// Uploads the file of this index.
    Put { index: usize, url: String, headers: Vec<(String, String)> },
    /// Sleeps, then asks for the job's status.
    Status { wait: u64, url: String, what: String },
    Get { url: String, what: String },
}

pub enum RequestView {
    Post { url: Seq<char>, body: JsonView, what: Seq<char> },
    Put { index: usize, url: Seq<char>, headers: Seq<(Seq<char>, Seq<char>)> },
    Status { wait: u64, url: Seq<char>, what: Seq<char> },
    Get { url: Seq<char>, what: Seq<char> },
}

impl View for Request {
    type V = RequestView;

    open spec fn view(&self) -> RequestView {
        match self {
            Request::Post { url, body, what } => RequestView::Post {
                url: url@,
                body: body@,
                what: what@,
            },
            Request::Put { index, url, headers } => RequestView::Put {
                index: *index,
                url: url@,
                headers: header_list(headers@),
            },
            Request::Status { wait, url, what } => RequestView::Status {
                wait: *wait,
                url: url@,
                what: what@,
            },
            Request::Get { url, what } => RequestView::Get { url: url@, what: what@ },
        }
    }
}

#[derive(Debug)]
pub enum Next {
    Ask { stage: Stage, request: Request },
    Finished { result: BatchResult },
    Failed { message: String },
}

pub enum NextView {
    Ask { stage: StageView, request: RequestView },
    Finished { result: BatchResultView },
    Failed { message: Seq<char> },
}

impl View for Next {
    type V = NextView;

    open spec fn view(&self) -> NextView {
        match self {
            Next::Ask { stage, request } => NextView::Ask { stage: stage@, request: request@ },
            Next::Finished { result } => NextView::Finished { result: result@ },
            Next::Failed { message } => NextView::Failed { message: message@ },
        }
    }
}

/// One turn: what is reported as progress, and what happens next.
#[derive(Debug)]
pub struct Turn {
    pub notes: Vec<String>,
    pub next: Next,
}

#[verifier::ext_equal]
pub struct TurnView {
    pub notes: Seq<Seq<char>>,
    pub next: NextView,
}

impl View for Turn {
    type V = TurnView;

    open spec fn view(&self) -> TurnView {
        TurnView { notes: texts(self.notes@), next: self.next@ }
    }
}

/// What came back: a reply with how long the submission and the polling have run, or a
/// refusal.
#[derive(Debug)]
pub enum Event {
    Reply { body: Json, total: Time, polled: Time },
    Refused { message: String },
}

pub enum EventView {
    Reply { body: JsonView, total: Time, polled: Time },
    Refused { message: Seq<char> },
}

impl View for Event {
    type V = EventView;

    open spec fn view(&self) -> EventView {
        match self {
            Event::Reply { body, total, polled } => EventView::Reply {
                body: body@,
                total: *total,
                polled: *polled,
            },
            Event::Refused { message } => EventView::Refused { message: message@ },
        }
    }
}

pub open spec fn failed_turn(notes: Seq<Seq<char>>, message: Seq<char>) -> TurnView {
    TurnView { notes, next: NextView::Failed { message } }
}

pub open spec fn ask_turn(notes: Seq<Seq<char>>, stage: StageView, request: RequestView) -> TurnView {
    TurnView { notes, next: NextView::Ask { stage, request } }
}

pub open spec fn no_notes() -> Seq<Seq<char>> {
    Seq::<Seq<char>>::empty()
}

fn fail(notes: Vec<String>, message: String) -> (r: Turn)
    ensures
        r@ == failed_turn(texts(notes@), message@),
{
    Turn { notes, next: Next::Failed { message } }
}

fn ask(notes: Vec<String>, stage: Stage, request: Request) -> (r: Turn)
    ensures
        r@ == ask_turn(texts(notes@), stage@, request@),
{
    Turn { notes, next: Next::Ask { stage, request } }
}

fn silent() -> (r: Vec<String>)
    ensures
        texts(r@) == no_notes(),
{
    let r: Vec<String> = Vec::new();
    assert(texts(r@) =~= no_notes());
    r
}

fn note(line: String) -> (r: Vec<String>)
    ensures
        texts(r@) == seq![line@],
{
    let mut r: Vec<String> = Vec::new();
    let ghost t = line@;
    r.push(line);
    assert(texts(r@) =~= seq![t]);
    r
}

// ------------------------------------------------------------------- first request

/// The limits that are refused before anything is sent.
pub open spec fn refusal(count: nat) -> Option<Seq<char>> {
    if count == 0 {
        Some("No audio files were given to transcribe."@)
    } else if count > MAX_FILES_PER_JOB {
        Some(
            "Sarvam Batch accepts 20 files per job; "@ + decimal(count) + " were given."@,
        )
    } else {
        None
    }
}

pub open spec fn first_turn(count: nat, options: BatchOptions) -> TurnView {
    match refusal(count) {
        Some(message) => failed_turn(no_notes(), message),
        None => ask_turn(
            seq!["Creating the transcription job"@],
            StageView::Creating,
            RequestView::Post { url: BASE@, body: job_body(options), what: "create the job"@ },
        ),
    }
}

/// The first turn of a submission of `count` files. A request that cannot succeed is
/// refused rather than paid for.
pub fn begin(count: usize, options: &BatchOptions) -> (r: Turn)
    ensures
        r@ == first_turn(count as nat, *options),
{
    if count == 0 {
        return fail(silent(), "No audio files were given to transcribe.".to_owned());
    }
    if count > MAX_FILES_PER_JOB {
        return fail(
            silent(),
            "Sarvam Batch accepts 20 files per job; ".to_owned().concat(
                to_decimal(count as u64).as_str(),
            ).concat(" were given."),
        );
    }
    ask(
        note("Creating the transcription job".to_owned()),
        Stage::Creating,
        Request::Post {
            url: BASE.to_owned(),
            body: job_parameters(options),
            what: "create the job".to_owned(),
        },
    )
}

// ------------------------------------------------------------------ later requests

pub open spec fn after_create(names: Seq<Seq<char>>, created: JsonView) -> TurnView {
    match created.text_at("job_id"@) {
        Some(job_id) => ask_turn(
            seq!["Requesting upload URLs for "@ + decimal(names.len()) + " file(s)"@],
            StageView::RequestingUploads { job_id, created },
            RequestView::Post {
                url: BASE@ + "/upload-files"@,
                body: files_body(job_id, names),
                what: "request upload URLs"@,
            },
        ),
        None => failed_turn(no_notes(), "Sarvam did not return a job_id."@),
    }
}

fn on_created(names: &Vec<String>, created: Json) -> (r: Turn)
    ensures
        r@ == after_create(texts(names@), created@),
{
    let job_id = match created.text_at("job_id") {
        Some(id) => id.clone(),
        None => {
            return fail(silent(), "Sarvam did not return a job_id.".to_owned());
        },
    };
    let request = Request::Post {
        url: BASE.to_owned().concat("/upload-files"),
        body: files_request(job_id.as_str(), names),
        what: "request upload URLs".to_owned(),
    };
    ask(
        note(
            "Requesting upload URLs for ".to_owned().concat(
                to_decimal(names.len() as u64).as_str(),
            ).concat(" file(s)"),
        ),
        Stage::RequestingUploads { job_id, created },
        request,
    )
}

/// The kind of storage, as the upload reply tells it, or else the first reply.
pub open spec fn container_type(upload: JsonView, created: JsonView) -> Option<Seq<char>> {
    let value = match upload.get("storage_container_type"@) {
        Some(value) => Some(value),
        None => created.get("storage_container_type"@),
    };
    match value {
        Some(value) => value.as_text(),
        None => None,
    }
}

fn read_container(upload: &Json, created: &Json) -> (r: Option<String>)
    ensures
        opt_text(r) == container_type(upload@, created@),
{
    let value = match upload.get("storage_container_type") {
        Some(value) => Some(value),
        None => created.get("storage_container_type"),
    };
    match value {
        Some(value) => match value.as_text() {
            Some(t) => Some(t.clone()),
            None => None,
        },
        None => None,
    }
}

/// Uploads the file of `index`, or starts the job once all are there.
pub open spec fn upload_next(
    names: Seq<Seq<char>>,
    job_id: Seq<char>,
    upload: JsonView,
    container: Option<Seq<char>>,
    index: usize,
) -> TurnView {
    if index < names.len() {
        match signed(upload, "upload_urls"@, names[index as int]) {
            Some(details) => ask_turn(
                seq!["Uploading "@ + names[index as int]],
                StageView::Uploading { job_id, upload, container, index },
                RequestView::Put {
                    index,
                    url: details.url,
                    headers: upload_headers_of(details, container),
                },
            ),
            None => failed_turn(
                no_notes(),
                "Sarvam did not return an upload URL for "@ + names[index as int] + "."@,
            ),
        }
    } else {
        ask_turn(
            seq!["Starting the job"@],
            StageView::Starting { job_id },
            RequestView::Post {
                url: BASE@ + "/"@ + job_id + "/start"@,
                body: JsonView::Object(Seq::empty()),
                what: "start the job"@,
            },
        )
    }
}

fn on_upload(
    names: &Vec<String>,
    job_id: String,
    upload: Json,
    container: Option<String>,
    index: usize,
) -> (r: Turn)
    ensures
        r@ == upload_next(texts(names@), job_id@, upload@, opt_text(container), index),
{
    if index < names.len() {
        assert(texts(names@)[index as int] == names@[index as int]@);
        match signed_url(&upload, "upload_urls", names[index].as_str()) {
            Some(details) => {
                let headers = upload_headers(&details, &container);
                let line = "Uploading ".to_owned().concat(names[index].as_str());
                ask(
                    note(line),
                    Stage::Uploading { job_id, upload, container, index },
                    Request::Put { index, url: details.url, headers },
                )
            },
            None => fail(
                silent(),
                "Sarvam did not return an upload URL for ".to_owned().concat(
                    names[index].as_str(),
                ).concat("."),
            ),
        }
    } else {
        let url = BASE.to_owned().concat("/").concat(job_id.as_str()).concat("/start");
        let body = object(new_entries());
        ask(
            note("Starting the job".to_owned()),
            Stage::Starting { job_id },
            Request::Post { url, body, what: "start the job".to_owned() },
        )
    }
}

pub open spec fn status_request(job_id: Seq<char>, wait: u64) -> RequestView {
    RequestView::Status {
        wait,
        url: BASE@ + "/"@ + job_id + "/status"@,
        what: "check the job status"@,
    }
}

fn ask_status(job_id: &str, wait: u64) -> (r: Request)
    ensures
        r@ == status_request(job_id@, wait),
{
    Request::Status {
        wait,
        url: BASE.to_owned().concat("/").concat(job_id).concat("/status"),
        what: "check the job status".to_owned(),
    }
}

/// The wait after `wait`, in seconds: twice as long, and fifteen at most.
pub open spec fn longer_wait(wait: u64) -> u64 {
    if wait < 8 {
        (wait * 2) as u64
    } else {
        15
    }
}

/// A job that is not over after this long is given up.
pub const DEADLINE: Time = 10_800_000_000_000_000_000_000;

pub open spec fn after_start(job_id: Seq<char>) -> TurnView {
    ask_turn(
        no_notes(),
        StageView::Polling { job_id, wait: longer_wait(5), last_state: Seq::<char>::empty() },
        status_request(job_id, 5),
    )
}

fn on_started(job_id: String) -> (r: Turn)
    ensures
        r@ == after_start(job_id@),
{
    let request = ask_status(job_id.as_str(), 5);
    ask(silent(), Stage::Polling { job_id, wait: 10, last_state: String::new() }, request)
}

/// The state that a status names.
pub open spec fn state_text(status: JsonView) -> Seq<char> {
    match status.text_at("job_state"@) {
        Some(state) => state,
        None => "Unknown"@,
    }
}

pub open spec fn state_notes(state: Seq<char>, last: Seq<char>, polled: Time) -> Seq<Seq<char>> {
    if state == last {
        no_notes()
    } else {
        seq!["Job "@ + state + " ("@ + clock_text(polled as int) + " elapsed)"@]
    }
}

/// The error that a status carries, or else `fallback`.
pub open spec fn status_error(status: JsonView, fallback: Seq<char>) -> Seq<char> {
    match status.text_at("error_message"@) {
        Some(m) => if trimmed(m).len() > 0 {
            m
        } else {
            fallback
        },
        None => fallback,
    }
}

/// What follows once the job has ended.
pub open spec fn after_end(
    notes: Seq<Seq<char>>,
    job_id: Seq<char>,
    status: JsonView,
    state: JobState,
) -> TurnView {
    if state is Failed {
        failed_turn(notes, status_error(status, "Sarvam Batch job failed."@))
    } else if output_names(status).len() == 0 {
        failed_turn(
            notes,
            status_error(status, "Sarvam Batch finished without producing any output."@),
        )
    } else {
        ask_turn(
            notes.push(
                "Downloading "@ + decimal(output_names(status).len()) + " output file(s)"@,
            ),
            StageView::RequestingDownloads {
                job_id,
                names: output_names(status),
                failed: failed_names(status),
                partial: state is PartiallyCompleted,
            },
            RequestView::Post {
                url: BASE@ + "/download-files"@,
                body: files_body(job_id, output_names(status)),
                what: "request download URLs"@,
            },
        )
    }
}

pub open spec fn after_status(
    job_id: Seq<char>,
    wait: u64,
    last: Seq<char>,
    status: JsonView,
    polled: Time,
) -> TurnView {
    let state = state_text(status);
    let notes = state_notes(state, last, polled);
    if JobState::of(state).ends_job() {
        after_end(notes, job_id, status, JobState::of(state))
    } else if polled > DEADLINE {
        failed_turn(
            notes,
            "Sarvam Batch job "@ + job_id + " was still "@ + state + " after "@ + clock_text(
                polled as int,
            ) + ". The job may finish later; the audio is kept."@,
        )
    } else {
        ask_turn(
            notes,
            StageView::Polling { job_id, wait: longer_wait(wait), last_state: state },
            status_request(job_id, wait),
        )
    }
}

fn read_status_error(status: &Json, fallback: &str) -> (r: String)
    ensures
        r@ == status_error(status@, fallback@),
{
    match status.text_at("error_message") {
        Some(m) => if !trim(m.as_str()).as_str().is_empty() {
            m.clone()
        } else {
            fallback.to_owned()
        },
        None => fallback.to_owned(),
    }
}

fn on_end(notes: Vec<String>, job_id: String, status: Json, state: JobState) -> (r: Turn)
    ensures
        r@ == after_end(texts(notes@), job_id@, status@, state),
{
    broadcast use texts_of_push;

    if state == JobState::Failed {
        let message = read_status_error(&status, "Sarvam Batch job failed.");
        return fail(notes, message);
    }
    let names = output_file_names(&status);
    assert(texts(names@).len() == names@.len());
    if names.len() == 0 {
        let message = read_status_error(
            &status,
            "Sarvam Batch finished without producing any output.",
        );
        return fail(notes, message);
    }
    let failed = failed_input_names(&status);
    let mut notes = notes;
    notes.push(
        "Downloading ".to_owned().concat(to_decimal(names.len() as u64).as_str()).concat(
            " output file(s)",
        ),
    );
    let request = Request::Post {
        url: BASE.to_owned().concat("/download-files"),
        body: files_request(job_id.as_str(), &names),
        what: "request download URLs".to_owned(),
    };
    ask(
        notes,
        Stage::RequestingDownloads {
            job_id,
            names,
            failed,
            partial: state == JobState::PartiallyCompleted,
        },
        request,
    )
}

fn on_status(job_id: String, wait: u64, last: String, status: Json, polled: Time) -> (r: Turn)
    ensures
        r@ == after_status(job_id@, wait, last@, status@, polled),
{
    let state = match status.text_at("job_state") {
        Some(state) => state.clone(),
        None => "Unknown".to_owned(),
    };
    let notes = if same(state.as_str(), last.as_str()) {
        silent()
    } else {
        note(
            "Job ".to_owned().concat(state.as_str()).concat(" (").concat(
                clock(polled).as_str(),
            ).concat(" elapsed)"),
        )
    };
    let parsed = JobState::parse(state.as_str());
    if parsed.is_terminal() {
        return on_end(notes, job_id, status, parsed);
    }
    if polled > DEADLINE {
        let message = "Sarvam Batch job ".to_owned().concat(job_id.as_str()).concat(
            " was still ",
        ).concat(state.as_str()).concat(" after ").concat(clock(polled).as_str()).concat(
            ". The job may finish later; the audio is kept.",
        );
        return fail(notes, message);
    }
    let request = ask_status(job_id.as_str(), wait);
    let next: u64 = if wait < 8 {
        wait * 2
    } else {
        15
    };
    ask(notes, Stage::Polling { job_id, wait: next, last_state: state }, request)
}

// ---------------------------------------------------------------------- downloads

/// The first output at or after `index` that has a signed address.
pub open spec fn next_signed(downloads: JsonView, names: Seq<Seq<char>>, index: int) -> Option<int>
    decreases names.len() - index,
{
    if index < 0 || index >= names.len() {
        None
    } else if signed(downloads, "download_urls"@, names[index]) is Some {
        Some(index)
    } else {
        next_signed(downloads, names, index + 1)
    }
}

/// Whether an output holds neither words nor segments.
pub open spec fn is_blank_output(t: TranscriptionView) -> bool {
    t.text.len() == 0 && t.segments.len() == 0
}

pub open spec fn all_blank(outputs: Seq<TranscriptionView>) -> bool {
    forall|i: int| 0 <= i < outputs.len() ==> is_blank_output(#[trigger] outputs[i])
}

/// Downloads the next output that can be had, or finishes.
pub open spec fn download_next(
    job_id: Seq<char>,
    downloads: JsonView,
    names: Seq<Seq<char>>,
    failed: Seq<Seq<char>>,
    partial: bool,
    index: int,
    outputs: Seq<TranscriptionView>,
    total: Time,
) -> TurnView {
    match next_signed(downloads, names, index) {
        Some(at) => ask_turn(
            no_notes(),
            StageView::Downloading {
                job_id,
                downloads,
                names,
                failed,
                partial,
                index: at as usize,
                outputs,
            },
            RequestView::Get {
                url: signed(downloads, "download_urls"@, names[at])->0.url,
                what: "download the transcript"@,
            },
        ),
        None => if all_blank(outputs) {
            failed_turn(no_notes(), "Sarvam Batch returned an empty transcript."@)
        } else {
            TurnView {
                notes: no_notes(),
                next: NextView::Finished {
                    result: BatchResultView {
                        job_id,
                        outputs,
                        failed_inputs: failed,
                        elapsed: total,
                        partial,
                    },
                },
            }
        },
    }
}

fn none_said(outputs: &Vec<Transcription>) -> (r: bool)
    ensures
        r == all_blank(transcription_list(outputs@)),
{
    let ghost all = transcription_list(outputs@);
    let mut i: usize = 0;
    while i < outputs.len()
        invariant
            i <= outputs.len(),
            all == transcription_list(outputs@),
            forall|j: int| 0 <= j < i ==> is_blank_output(#[trigger] all[j]),
        decreases outputs.len() - i,
    {
        assert(all[i as int] == outputs@[i as int]@);
        if !(outputs[i].text.as_str().is_empty() && outputs[i].segments.len() == 0) {
            return false;
        }
        i = i + 1;
    }
    true
}

fn on_download(
    job_id: String,
    downloads: Json,
    names: Vec<String>,
    failed: Vec<String>,
    partial: bool,
    index: usize,
    outputs: Vec<Transcription>,
    total: Time,
) -> (r: Turn)
    ensures
        r@ == download_next(
            job_id@,
            downloads@,
            texts(names@),
            texts(failed@),
            partial,
            index as int,
            transcription_list(outputs@),
            total,
        ),
{
    let ghost all = texts(names@);
    let mut at: usize = index;
    while at < names.len()
        invariant
            all == texts(names@),
            next_signed(downloads@, all, index as int) == next_signed(downloads@, all, at as int),
        decreases names.len() - at,
    {
        assert(all[at as int] == names@[at as int]@);
        if let Some(details) = signed_url(&downloads, "download_urls", names[at].as_str()) {
            return ask(
                silent(),
                Stage::Downloading { job_id, downloads, names, failed, partial, index: at, outputs },
                Request::Get { url: details.url, what: "download the transcript".to_owned() },
            );
        }
        at = at + 1;
    }
    if none_said(&outputs) {
        return fail(silent(), "Sarvam Batch returned an empty transcript.".to_owned());
    }
    Turn {
        notes: silent(),
        next: Next::Finished {
            result: BatchResult { job_id, outputs, failed_inputs: failed, elapsed: total, partial },
        },
    }
}

// ------------------------------------------------------------------------ the step

/// The turn that follows an event.
pub open spec fn turn_after(names: Seq<Seq<char>>, stage: StageView, event: EventView) -> TurnView {
    match event {
        EventView::Refused { message } => failed_turn(no_notes(), message),
        EventView::Reply { body, total, polled } => match stage {
            StageView::Creating => after_create(names, body),
            StageView::RequestingUploads { job_id, created } => upload_next(
                names,
                job_id,
                body,
                container_type(body, created),
                0,
            ),
            StageView::Uploading { job_id, upload, container, index } => upload_next(
                names,
                job_id,
                upload,
                container,
                (index + 1) as usize,
            ),
            StageView::Starting { job_id } => after_start(job_id),
            StageView::Polling { job_id, wait, last_state } => after_status(
                job_id,
                wait,
                last_state,
                body,
                polled,
            ),
            StageView::RequestingDownloads { job_id, names, failed, partial } => download_next(
                job_id,
                body,
                names,
                failed,
                partial,
                0,
                Seq::empty(),
                total,
            ),
            StageView::Downloading { job_id, downloads, names, failed, partial, index, outputs } =>
            download_next(
                job_id,
                downloads,
                names,
                failed,
                partial,
                index + 1,
                outputs.push(output_of(body)),
                total,
            ),
        },
    }
}

/// Whether a stage is one that a submission of these files can be in: an upload or a
/// download that is under way is one of those to be made.
pub open spec fn is_stage_of(names: Seq<Seq<char>>, stage: StageView) -> bool {
    match stage {
        StageView::Uploading { index, .. } => index < names.len(),
        StageView::Downloading { names, index, .. } => index < names.len(),
        _ => true,
    }
}

/// What happens after an event, for a submission of files registered as `names`.
pub fn advance(names: &Vec<String>, stage: Stage, event: Event) -> (r: Turn)
    requires
        is_stage_of(texts(names@), stage@),
    ensures
        r@ == turn_after(texts(names@), stage@, event@),
{
    broadcast use transcription_list_of_push;

    match event {
        Event::Refused { message } => fail(silent(), message),
        Event::Reply { body, total, polled } => match stage {
            Stage::Creating => on_created(names, body),
            Stage::RequestingUploads { job_id, created } => {
                let container = read_container(&body, &created);
                on_upload(names, job_id, body, container, 0)
            },
            Stage::Uploading { job_id, upload, container, index } => {
                assert(texts(names@).len() == names.len());
                on_upload(names, job_id, upload, container, index + 1)
            },
            Stage::Starting { job_id } => on_started(job_id),
            Stage::Polling { job_id, wait, last_state } => on_status(
                job_id,
                wait,
                last_state,
                body,
                polled,
            ),
            Stage::RequestingDownloads { job_id, names, failed, partial } => {
                let outputs: Vec<Transcription> = Vec::new();
                assert(transcription_list(outputs@) =~= Seq::<TranscriptionView>::empty());
                on_download(job_id, body, names, failed, partial, 0, outputs, total)
            },
            Stage::Downloading { job_id, downloads, names, failed, partial, index, outputs } => {
                let mut outputs = outputs;
                outputs.push(parse_output(&body));
                assert(texts(names@).len() == names.len());
                on_download(job_id, downloads, names, failed, partial, index + 1, outputs, total)
            },
        },
    }
}

// --------------------------------------------------------------------------- retry

/// The files whose registered name is among the failed inputs.
pub open spec fn retried(names: Seq<Seq<char>>, failed: Seq<Seq<char>>) -> Seq<int>
    decreases names.len(),
{
    if names.len() == 0 {
        Seq::<int>::empty()
    } else {
        let before = retried(names.drop_last(), failed);
        if failed.contains(names.last()) {
            before.push(names.len() - 1)
        } else {
            before
        }
    }
}

pub open spec fn indices(v: Seq<usize>) -> Seq<int> {
    v.map_values(|i: usize| i as int)
}

/// Which files to submit again: exactly those that failed. A failed job can never be
/// restarted, and resubmitting everything would pay twice for work that succeeded.
pub fn files_to_retry(names: &Vec<String>, failed: &Vec<String>) -> (r: Vec<usize>)
    ensures
        indices(r@) == retried(texts(names@), texts(failed@)),
{
    let ghost all = texts(names@);
    let mut r: Vec<usize> = Vec::new();
    let mut i: usize = 0;
    assert(indices(r@) =~= Seq::<int>::empty());
    while i < names.len()
        invariant
            i <= names.len(),
            all == texts(names@),
            indices(r@) == retried(all.take(i as int), texts(failed@)),
        decreases names.len() - i,
    {
        assert(all.take(i + 1).drop_last() == all.take(i as int));
        assert(all.take(i + 1).last() == names@[i as int]@);
        if list_has(failed, names[i].as_str()) {
            let ghost before = indices(r@);
            r.push(i);
            assert(indices(r@) =~= before.push(i as int));
        }
        i = i + 1;
    }
    assert(all.take(i as int) == all);
    r
}

/// What is reported before a retry.
pub fn retry_note(count: usize) -> (r: String)
    ensures
        r@ == decimal(count as nat)
            + " file(s) failed. Resubmitting only those in a new job"@,
{
    to_decimal(count as u64).concat(" file(s) failed. Resubmitting only those in a new job")
}

/// Two passes as one result.
pub open spec fn both_passes(first: BatchResultView, second: BatchResultView) -> BatchResultView {
    BatchResultView {
        job_id: first.job_id,
        outputs: first.outputs + second.outputs,
        failed_inputs: second.failed_inputs,
        elapsed: time_sum(first.elapsed as int, second.elapsed as int) as Time,
        partial: second.failed_inputs.len() > 0,
    }
}

/// Adds what the second pass produced to the first.
pub fn combine(first: BatchResult, second: BatchResult) -> (r: BatchResult)
    ensures
        r@ == both_passes(first@, second@),
{
    let mut first_outputs = first.outputs;
    let mut second_outputs = second.outputs;
    let ghost a = transcription_list(first_outputs@);
    let ghost b = transcription_list(second_outputs@);
    first_outputs.append(&mut second_outputs);
    assert(transcription_list(first_outputs@) =~= a + b);
    let partial = second.failed_inputs.len() > 0;
    assert(texts(second.failed_inputs@).len() == second.failed_inputs@.len());
    BatchResult {
        job_id: first.job_id,
        outputs: first_outputs,
        failed_inputs: second.failed_inputs,
        elapsed: add_times(first.elapsed, second.elapsed),
        partial,
    }
}

// --------------------------------------------------------------------------- laws

proof fn next_signed_is_in_range(downloads: JsonView, names: Seq<Seq<char>>, index: int)
    ensures
        match next_signed(downloads, names, index) {
            Some(at) => index <= at < names.len() && signed(
                downloads,
                "download_urls"@,
                names[at],
            ) is Some,
            None => true,
        },
    decreases names.len() - index,
{
    if 0 <= index < names.len() {
        next_signed_is_in_range(downloads, names, index + 1);
    }
}

/// A submission never reaches a stage outside its files: wherever a turn asks on, the next
/// event can be taken.
pub proof fn a_turn_leads_to_a_stage_of_its_files(
    names: Seq<Seq<char>>,
    stage: StageView,
    event: EventView,
)
    requires
        is_stage_of(names, stage),
        names.len() <= usize::MAX,
        stage is RequestingDownloads ==> stage->RequestingDownloads_names.len() <= usize::MAX,
        stage is Downloading ==> stage->Downloading_names.len() <= usize::MAX,
    ensures
        match turn_after(names, stage, event).next {
            NextView::Ask { stage, .. } => is_stage_of(names, stage),
            _ => true,
        },
{
    match event {
        EventView::Refused { message } => {},
        EventView::Reply { body, total, polled } => match stage {
            StageView::RequestingDownloads { job_id, names, failed, partial } => {
                next_signed_is_in_range(body, names, 0);
            },
            StageView::Downloading { job_id, downloads, names, failed, partial, index, outputs } => {
                next_signed_is_in_range(downloads, names, index + 1);
            },
            _ => {},
        },
    }
}

/// A job that finishes has produced something: no result is made of blank outputs alone.
pub proof fn a_finished_job_has_words(names: Seq<Seq<char>>, stage: StageView, event: EventView)
    ensures
        match turn_after(names, stage, event).next {
            NextView::Finished { result } => !all_blank(result.outputs),
            _ => true,
        },
{
}

/// A refused request ends the submission with the refusal's own words.
pub proof fn a_refusal_ends_the_job(names: Seq<Seq<char>>, stage: StageView, message: Seq<char>)
    ensures
        turn_after(names, stage, EventView::Refused { message }).next == (NextView::Failed {
            message,
        }),
{
}

/// The job is started only once every file has been uploaded: from the first upload on,
/// each reply leads to the upload of the next file, or to a failure, until none is left.
pub proof fn uploads_come_one_after_another(
    names: Seq<Seq<char>>,
    job_id: Seq<char>,
    upload: JsonView,
    container: Option<Seq<char>>,
    index: usize,
)
    ensures
        match upload_next(names, job_id, upload, container, index).next {
            NextView::Ask { stage, request } => if index < names.len() {
                &&& request is Put
                &&& request->Put_index == index
                &&& stage == (StageView::Uploading { job_id, upload, container, index })
            } else {
                stage == (StageView::Starting { job_id })
            },
            NextView::Finished { .. } => false,
            NextView::Failed { .. } => index < names.len(),
        },
{
}

/// Only files that failed are submitted again, and all of them are.
pub proof fn only_failed_inputs_are_retried(
    names: Seq<Seq<char>>,
    failed: Seq<Seq<char>>,
    i: int,
)
    requires
        0 <= i < names.len(),
    ensures
        retried(names, failed).contains(i) <==> failed.contains(names[i]),
    decreases names.len(),
{
    let before = retried(names.drop_last(), failed);
    retried_are_indices(names.drop_last(), failed);
    let last = names.len() - 1;
    if i == last {
        if failed.contains(names.last()) {
            let r = before.push(last);
            assert(r[r.len() - 1] == last);
        }
    } else {
        only_failed_inputs_are_retried(names.drop_last(), failed, i);
        assert(names.drop_last()[i] == names[i]);
        if failed.contains(names.last()) {
            let r = before.push(last);
            if before.contains(i) {
                let k = choose|k: int| 0 <= k < before.len() && before[k] == i;
                assert(r[k] == i);
            }
            if r.contains(i) {
                let k = choose|k: int| 0 <= k < r.len() && r[k] == i;
                assert(before[k] == i);
            }
        }
    }
}

proof fn retried_are_indices(names: Seq<Seq<char>>, failed: Seq<Seq<char>>)
    ensures
        forall|k: int|
            0 <= k < retried(names, failed).len() ==> 0 <= #[trigger] retried(names, failed)[k]
                < names.len(),
    decreases names.len(),
{
    if names.len() > 0 {
        retried_are_indices(names.drop_last(), failed);
        let before = retried(names.drop_last(), failed);
        let all = retried(names, failed);
        assert forall|k: int| 0 <= k < all.len() implies 0 <= #[trigger] all[k] < names.len() by {
            if k < before.len() {
                assert(all[k] == before[k]);
            }
        }
    }
}

/// The wait between two looks at a job never exceeds fifteen seconds.
pub proof fn waits_are_bounded(wait: u64)
    ensures
        longer_wait(wait) <= 15,
{
}

// ----------------------------------------------------------- what a job comes to

/// The outputs of two runs of tasks are those of the first and then those of the second.
proof fn detail_outputs_of_both(a: Seq<JsonView>, b: Seq<JsonView>)
    ensures
        detail_outputs(a + b) == detail_outputs(a) + detail_outputs(b),
    decreases b.len(),
{
    if b.len() == 0 {
        assert(a + b == a);
        assert(detail_outputs(a) + detail_outputs(b) == detail_outputs(a));
    } else {
        assert((a + b).drop_last() == a + b.drop_last());
        assert((a + b).last() == b.last());
        detail_outputs_of_both(a, b.drop_last());
        let last = item_names(or_none(b.last().array_at("outputs"@)));
        assert(detail_outputs(a) + (detail_outputs(b.drop_last()) + last) =~= detail_outputs(a)
            + detail_outputs(b.drop_last()) + last);
    }
}

proof fn item_names_of_both(a: Seq<JsonView>, b: Seq<JsonView>)
    ensures
        item_names(a + b) == item_names(a) + item_names(b),
    decreases b.len(),
{
    if b.len() == 0 {
        assert(a + b == a);
        assert(item_names(a) + item_names(b) == item_names(a));
    } else {
        assert((a + b).drop_last() == a + b.drop_last());
        assert((a + b).last() == b.last());
        item_names_of_both(a, b.drop_last());
    }
}

/// Every output that a finished job names is fetched, in the order of its tasks: behind the
/// outputs of the tasks before it and those before it in its own task.
pub proof fn every_output_is_fetched(
    status: JsonView,
    details: Seq<JsonView>,
    i: int,
    outputs: Seq<JsonView>,
    k: int,
    name: Seq<char>,
)
    requires
        status.get("job_details"@) == Some(JsonView::Array(details)),
        0 <= i < details.len(),
        details[i].get("outputs"@) == Some(JsonView::Array(outputs)),
        0 <= k < outputs.len(),
        outputs[k].get("file_name"@) == Some(JsonView::Text(name)),
    ensures
        output_names(status) == detail_outputs(details.take(i)) + (item_names(outputs.take(k))
            + seq![name] + item_names(outputs.skip(k + 1))) + detail_outputs(details.skip(i + 1)),
        output_names(status).contains(name),
{
    reveal_with_fuel(detail_outputs, 2);
    reveal_with_fuel(item_names, 2);
    let task = seq![details[i]];
    assert(details == details.take(i) + task + details.skip(i + 1));
    detail_outputs_of_both(details.take(i) + task, details.skip(i + 1));
    detail_outputs_of_both(details.take(i), task);
    assert(task.drop_last() == Seq::<JsonView>::empty());
    assert(task.last() == details[i]);
    assert(detail_outputs(task) =~= item_names(outputs));
    let one = seq![outputs[k]];
    assert(outputs == outputs.take(k) + one + outputs.skip(k + 1));
    item_names_of_both(outputs.take(k) + one, outputs.skip(k + 1));
    item_names_of_both(outputs.take(k), one);
    assert(one.drop_last() == Seq::<JsonView>::empty());
    assert(one.last() == outputs[k]);
    assert(item_names(one) =~= seq![name]);
    let at = detail_outputs(details.take(i)).len() + item_names(outputs.take(k)).len();
    assert(output_names(status)[at as int] == name);
}

proof fn failed_inputs_of_both(a: Seq<JsonView>, b: Seq<JsonView>)
    ensures
        failed_inputs_of(a + b) == failed_inputs_of(a) + failed_inputs_of(b),
    decreases b.len(),
{
    if b.len() == 0 {
        assert(a + b == a);
        assert(failed_inputs_of(a) + failed_inputs_of(b) == failed_inputs_of(a));
    } else {
        assert((a + b).drop_last() == a + b.drop_last());
        assert((a + b).last() == b.last());
        failed_inputs_of_both(a, b.drop_last());
    }
}

/// An input counts as failed exactly where its task failed, or came to no output. Each is listed
/// once, in its task's place.
pub proof fn an_input_fails_with_its_task(
    status: JsonView,
    details: Seq<JsonView>,
    i: int,
    inputs: Seq<JsonView>,
    name: Seq<char>,
    state: Seq<char>,
    outputs: Seq<JsonView>,
)
    requires
        status.get("job_details"@) == Some(JsonView::Array(details)),
        0 <= i < details.len(),
        details[i].get("inputs"@) == Some(JsonView::Array(inputs)),
        inputs.len() > 0,
        inputs[0].get("file_name"@) == Some(JsonView::Text(name)),
        details[i].get("task_state"@) == Some(JsonView::Text(state)),
        details[i].get("outputs"@) == Some(JsonView::Array(outputs)),
    ensures
        failed_names(status) == failed_inputs_of(details.take(i)) + (if outputs.len() == 0
            || lowercase_of(trimmed(state)) == "failed"@ {
            seq![name]
        } else {
            Seq::<Seq<char>>::empty()
        }) + failed_inputs_of(details.skip(i + 1)),
{
    reveal_with_fuel(failed_inputs_of, 2);
    let task = seq![details[i]];
    assert(details == details.take(i) + task + details.skip(i + 1));
    failed_inputs_of_both(details.take(i) + task, details.skip(i + 1));
    failed_inputs_of_both(details.take(i), task);
    assert(task.drop_last() == Seq::<JsonView>::empty());
    assert(task.last() == details[i]);
    states_by_name(lowercase_of(trimmed(state)));
    assert(failed_inputs_of(task) =~= (if outputs.len() == 0 || lowercase_of(trimmed(state))
        == "failed"@ {
        seq![name]
    } else {
        Seq::<Seq<char>>::empty()
    }));
}

/// A job goes on being asked about until it says that it has ended, or three hours have passed.
/// Then it fails where it says so or has no output, and else all that it names is fetched. It
/// counts as partial exactly where it says so.
pub proof fn a_job_is_asked_about_until_it_ends(
    names: Seq<Seq<char>>,
    job_id: Seq<char>,
    wait: u64,
    last_state: Seq<char>,
    body: JsonView,
    state: Seq<char>,
    total: Time,
    polled: Time,
)
    requires
        body.get("job_state"@) == Some(JsonView::Text(state)),
    ensures
        ({
            let stage = StageView::Polling { job_id, wait, last_state };
            let next = turn_after(names, stage, EventView::Reply { body, total, polled }).next;
            let said = lowercase_of(trimmed(state));
            let whole = said == "completed"@;
            let partial = said == "partiallycompleted"@ || said == "partially_completed"@;
            let failed = said == "failed"@;
            &&& failed ==> next is Failed
            &&& !failed && !whole && !partial ==> if polled <= 10_800 * 1_000_000_000_000_000_000 {
                &&& next is Ask
                &&& next->Ask_stage is Polling
                &&& next->Ask_stage->Polling_job_id == job_id
                &&& next->Ask_request is Status
                &&& next->Ask_request->Status_wait == wait
            } else {
                next is Failed
            }
            &&& whole || partial ==> if output_names(body).len() > 0 {
                &&& next is Ask
                &&& next->Ask_stage == (StageView::RequestingDownloads {
                    job_id,
                    names: output_names(body),
                    failed: failed_names(body),
                    partial,
                })
            } else {
                next is Failed
            }
        }),
{
    states_by_name(lowercase_of(trimmed(state)));
}

proof fn states_by_name(name: Seq<char>)
    ensures
        JobState::named(name) is Failed <==> name == "failed"@,
        JobState::named(name) is Completed <==> name == "completed"@,
        JobState::named(name) is PartiallyCompleted <==> name == "partiallycompleted"@ || name
            == "partially_completed"@,
{
    reveal_strlit("accepted");
    reveal_strlit("pending");
    reveal_strlit("running");
    reveal_strlit("completed");
    reveal_strlit("partiallycompleted");
    reveal_strlit("partially_completed");
    reveal_strlit("failed");
    assert("accepted"@.len() == 8 && "pending"@.len() == 7 && "running"@.len() == 7
        && "completed"@.len() == 9 && "partiallycompleted"@.len() == 18
        && "partially_completed"@.len() == 19 && "failed"@.len() == 6);
}

/// The job that a stage belongs to, once there is one.
pub open spec fn job_of_stage(stage: StageView) -> Option<Seq<char>> {
    match stage {
        StageView::Creating => None,
        StageView::RequestingUploads { job_id, .. } => Some(job_id),
        StageView::Uploading { job_id, .. } => Some(job_id),
        StageView::Starting { job_id } => Some(job_id),
        StageView::Polling { job_id, .. } => Some(job_id),
        StageView::RequestingDownloads { job_id, .. } => Some(job_id),
        StageView::Downloading { job_id, .. } => Some(job_id),
    }
}

/// All turns of a job are about that job, and its result is too.
pub proof fn a_job_stays_the_same(names: Seq<Seq<char>>, stage: StageView, event: EventView)
    requires
        job_of_stage(stage) is Some,
    ensures
        match turn_after(names, stage, event).next {
            NextView::Ask { stage: next, .. } => job_of_stage(next) == job_of_stage(stage),
            NextView::Finished { result } => Some(result.job_id) == job_of_stage(stage),
            NextView::Failed { .. } => true,
        },
{
}

/// The job that is created is the one that the provider names.
pub proof fn the_provider_names_the_job(
    names: Seq<Seq<char>>,
    body: JsonView,
    job_id: Seq<char>,
    total: Time,
    polled: Time,
)
    requires
        body.get("job_id"@) == Some(JsonView::Text(job_id)),
    ensures
        ({
            let next = turn_after(
                names,
                StageView::Creating,
                EventView::Reply { body, total, polled },
            ).next;
            &&& next is Ask
            &&& job_of_stage(next->Ask_stage) == Some(job_id)
            &&& next->Ask_request is Post
            &&& next->Ask_request->Post_body == files_body(job_id, names)
        }),
{
}

/// A file goes to the address that was signed for it, with every header that came with it.
pub proof fn a_file_goes_to_its_own_address(
    names: Seq<Seq<char>>,
    job_id: Seq<char>,
    upload: JsonView,
    container: Option<Seq<char>>,
    index: usize,
    urls: Seq<(Seq<char>, JsonView)>,
    at: JsonView,
    url: Seq<char>,
)
    requires
        index < names.len(),
        upload.get("upload_urls"@) == Some(JsonView::Object(urls)),
        entry_of(urls, names[index as int]) == Some(at),
        at.get("file_url"@) == Some(JsonView::Text(url)),
    ensures
        ({
            let next = upload_next(names, job_id, upload, container, index).next;
            &&& next is Ask
            &&& next->Ask_request is Put
            &&& next->Ask_request->Put_url == url
            &&& next->Ask_request->Put_index == index
            &&& replayed(at).is_suffix_of(next->Ask_request->Put_headers)
        }),
{
    let details = signed(upload, "upload_urls"@, names[index as int])->0;
    let headers = upload_headers_of(details, container);
    assert(headers.subrange(headers.len() - details.headers.len(), headers.len() as int)
        =~= details.headers);
}

/// The next output to fetch is the first that has an address.
pub proof fn no_output_with_an_address_is_skipped(
    downloads: JsonView,
    names: Seq<Seq<char>>,
    index: int,
    k: int,
)
    requires
        0 <= index <= k < names.len(),
        signed(downloads, "download_urls"@, names[k]) is Some,
    ensures
        next_signed(downloads, names, index) is Some,
        index <= next_signed(downloads, names, index)->0 <= k,
        signed(
            downloads,
            "download_urls"@,
            names[next_signed(downloads, names, index)->0],
        ) is Some,
    decreases names.len() - index,
{
    if signed(downloads, "download_urls"@, names[index]) is None {
        no_output_with_an_address_is_skipped(downloads, names, index + 1, k);
    }
}

/// Every output that is fetched is kept behind those fetched before, and the job's result is all
/// of them, with the inputs that failed and whether the job was partial.
pub proof fn every_output_is_kept(
    names: Seq<Seq<char>>,
    stage: StageView,
    body: JsonView,
    total: Time,
    polled: Time,
)
    requires
        stage is Downloading,
        stage->Downloading_names.len() <= usize::MAX,
    ensures
        ({
            let outputs = stage->Downloading_outputs.push(output_of(body));
            match turn_after(names, stage, EventView::Reply { body, total, polled }).next {
                NextView::Ask { stage: next, request } => {
                    &&& next is Downloading
                    &&& next->Downloading_outputs == outputs
                    &&& next->Downloading_index > stage->Downloading_index
                    &&& next->Downloading_names == stage->Downloading_names
                    &&& next->Downloading_downloads == stage->Downloading_downloads
                    &&& next->Downloading_failed == stage->Downloading_failed
                    &&& next->Downloading_partial == stage->Downloading_partial
                    &&& request is Get
                },
                NextView::Finished { result } => {
                    &&& result.outputs == outputs
                    &&& result.failed_inputs == stage->Downloading_failed
                    &&& result.partial == stage->Downloading_partial
                    &&& result.elapsed == total
                },
                NextView::Failed { .. } => all_blank(outputs),
            }
        }),
{
    next_signed_is_in_range(
        stage->Downloading_downloads,
        stage->Downloading_names,
        stage->Downloading_index + 1,
    );
}

/// Inputs are tried again in the order in which they were given, each once.
pub proof fn retries_keep_the_order(names: Seq<Seq<char>>, failed: Seq<Seq<char>>, a: int, b: int)
    requires
        0 <= a < b < retried(names, failed).len(),
    ensures
        0 <= retried(names, failed)[a] < retried(names, failed)[b] < names.len(),
    decreases names.len(),
{
    let front = names.drop_last();
    let before = retried(front, failed);
    retried_are_indices(front, failed);
    if b < before.len() {
        retries_keep_the_order(front, failed, a, b);
    } else {
        assert(before.contains(before[a]));
    }
}

/// A second pass adds to the first: every output of both is kept, in order, the time is that of
/// both, and what failed is what failed again.
pub proof fn a_second_pass_loses_nothing(first: BatchResultView, second: BatchResultView)
    requires
        i128::MIN <= first.elapsed + second.elapsed <= i128::MAX,
    ensures
        ({
            let both = both_passes(first, second);
            &&& both.outputs.len() == first.outputs.len() + second.outputs.len()
            &&& both.outputs.take(first.outputs.len() as int) == first.outputs
            &&& both.outputs.skip(first.outputs.len() as int) == second.outputs
            &&& both.failed_inputs == second.failed_inputs
            &&& both.partial <==> second.failed_inputs.len() > 0
            &&& both.elapsed == first.elapsed + second.elapsed
        }),
{
    let both = both_passes(first, second);
    assert(both.outputs.take(first.outputs.len() as int) =~= first.outputs);
    assert(both.outputs.skip(first.outputs.len() as int) =~= second.outputs);
}

/// Each wait is longer than the one before, up to a quarter of a minute.
pub proof fn waits_grow(wait: u64)
    requires
        0 < wait <= 15,
    ensures
        longer_wait(wait) > wait || wait == 15,
        longer_wait(wait) <= 2 * wait,
{
}

/// One to twenty files make a job, and no other number does.
pub proof fn a_job_takes_one_to_twenty_files(count: nat, options: BatchOptions)
    ensures
        first_turn(count, options).next is Ask <==> 1 <= count <= 20,
        first_turn(count, options).next is Failed <==> !(1 <= count <= 20),
{
}

/// A job is started and asked about under its own address.
pub proof fn a_job_is_reached_under_its_own_address(
    names: Seq<Seq<char>>,
    job_id: Seq<char>,
    upload: JsonView,
    container: Option<Seq<char>>,
    index: usize,
    wait: u64,
)
    requires
        index >= names.len(),
    ensures
        ({
            let base = "https://api.sarvam.ai/speech-to-text/job/v1"@;
            let start = upload_next(names, job_id, upload, container, index).next;
            let status = after_start(job_id).next;
            &&& start is Ask && start->Ask_request is Post
            &&& start->Ask_request->Post_url == base + "/"@ + job_id + "/start"@
            &&& status is Ask && status->Ask_request is Status
            &&& status->Ask_request->Status_url == base + "/"@ + job_id + "/status"@
            &&& status_request(job_id, wait)->Status_url == base + "/"@ + job_id + "/status"@
            &&& status_request(job_id, wait)->Status_wait == wait
        }),
{
}

/// What a failed job says of itself is what is reported.
pub proof fn a_failed_job_is_reported_in_its_own_words(status: JsonView, message: Seq<char>, otherwise: Seq<char>)
    requires
        status.get("error_message"@) == Some(JsonView::Text(message)),
    ensures
        trimmed(message).len() > 0 ==> status_error(status, otherwise) == message,
        trimmed(message).len() == 0 ==> status_error(status, otherwise) == otherwise,
{
}

/// Where files are kept is what the upload says, and else what the job said when it was created.
pub proof fn the_upload_says_where_files_are_kept(upload: JsonView, created: JsonView, kind: Seq<char>)
    ensures
        upload.get("storage_container_type"@) == Some(JsonView::Text(kind)) ==> container_type(
            upload,
            created,
        ) == Some(kind),
        upload.get("storage_container_type"@) is None && created.get("storage_container_type"@)
            == Some(JsonView::Text(kind)) ==> container_type(upload, created) == Some(kind),
{
}

/// A job whose every output was fetched is finished exactly where one of them says something.
pub proof fn a_job_is_finished_where_something_was_said(
    job_id: Seq<char>,
    downloads: JsonView,
    names: Seq<Seq<char>>,
    failed: Seq<Seq<char>>,
    partial: bool,
    outputs: Seq<TranscriptionView>,
    total: Time,
)
    ensures
        download_next(
            job_id,
            downloads,
            names,
            failed,
            partial,
            names.len() as int,
            outputs,
            total,
        ).next is Finished <==> exists|i: int|
            0 <= i < outputs.len() && ((#[trigger] outputs[i]).text.len() > 0
                || outputs[i].segments.len() > 0),
{
    if all_blank(outputs) {
        assert forall|i: int| 0 <= i < outputs.len() implies (#[trigger] outputs[i]).text.len() == 0
            && outputs[i].segments.len() == 0 by {
            assert(is_blank_output(outputs[i]));
        }
    } else {
        let i = choose|i: int| 0 <= i < outputs.len() && !is_blank_output(#[trigger] outputs[i]);
        assert(outputs[i].text.len() > 0 || outputs[i].segments.len() > 0);
    }
}

} // verus!
