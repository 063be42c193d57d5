//! Meeting analysis: what a chat model is asked, and what is kept of its answer.
//!
//! The prompt forbids inventing owners, and every field is validated again after parsing
//! rather than trusted. A model that returns a plausible owner for an unassigned task is the
//! failure that matters here: it turns a suggestion into an apparent commitment.
use vstd::prelude::*;
use crate::chat::{
    ChatRequest, chat_error, chat_failure, chat_messages, content_of, is_success, messages,
    reply_content, succeeded, the_question_is_asked_by_the_user,
};
use crate::config::{Config, DEFAULT_POLISH_MODEL, Provider, setting_or};
use crate::json::{
    Json, JsonView, entry_of, json_list, json_read, json_single, new_entries, object, parse_json, put,
    single, text_value,
};
use crate::text::{
    has, lowercase_of, nothing_to_trim, opt_text, same, stands_in_itself, starts_with, stays_in_front, strip_prefix,
    strip_suffix, texts, texts_of_push, to_lowercase, trim, trimmed,
    what_was_put_on_comes_off, without_prefix, without_suffix,
};

verus! {

broadcast use texts_of_push;

/// How firmly a task was actually assigned in the meeting.
#[derive(Debug, Clone, Copy, PartialEq, Eq, Structural)]
pub enum Confidence {
    /// Stated outright, with an owner.
    Explicit,
    /// Implied, or an owner inferred from context but never assigned.
    Suggested,
    /// A task with nobody attached.
    Unassigned,
}

impl Confidence {
    pub open spec fn name(self) -> Seq<char> {
        match self {
            Confidence::Explicit => "explicit"@,
            Confidence::Suggested => "suggested"@,
            Confidence::Unassigned => "unassigned"@,
        }
    }

    /// What a name means once it is trimmed and in lower case. Anything unrecognised falls
    /// to the weakest claim rather than the strongest.
    pub open spec fn named(name: Seq<char>) -> Confidence {
        if name == "explicit"@ {
            Confidence::Explicit
        } else if name == "suggested"@ {
            Confidence::Suggested
        } else {
            Confidence::Unassigned
        }
    }

    /// What the field of a reply means. One that is not there means nobody is attached.
    pub open spec fn read(value: Option<Seq<char>>) -> Confidence {
        match value {
            Some(v) => Confidence::named(lowercase_of(trimmed(v))),
            None => Confidence::Unassigned,
        }
    }

    pub fn as_str(&self) -> (r: &'static str)
        ensures
            r@ == self.name(),
    {
        match self {
            Confidence::Explicit => "explicit",
            Confidence::Suggested => "suggested",
            Confidence::Unassigned => "unassigned",
        }
    }

    /// The confidence of a name that is already trimmed and in lower case.
    pub fn of_plain_name(plain: &str) -> (r: Confidence)
        ensures
            r == Confidence::named(plain@),
    {
        if same(plain, "explicit") {
            Confidence::Explicit
        } else if same(plain, "suggested") {
            Confidence::Suggested
        } else {
            Confidence::Unassigned
        }
    }

    pub fn parse(value: Option<&String>) -> (r: Confidence)
        ensures
            r == Confidence::read(
                match value {
                    Some(v) => Some(v@),
                    None => None,
                },
            ),
    {
        match value {
            Some(v) => Confidence::of_plain_name(to_lowercase(trim(v.as_str()).as_str()).as_str()),
            None => Confidence::Unassigned,
        }
    }
}

/// A confidence is found again by the name it is written with.
pub proof fn confidence_names_read_back(c: Confidence)
    ensures
        Confidence::named(c.name()) == c,
{
    reveal_strlit("explicit");
    reveal_strlit("suggested");
    reveal_strlit("unassigned");
    assert("explicit"@.len() == 8);
    assert("suggested"@.len() == 9);
    assert("unassigned"@.len() == 10);
}

#[derive(Debug, Clone)]
pub struct ActionItem {
    pub task: String,
    /// Only ever set when the transcript assigned it outright.
    pub owner: Option<String>,
    pub due_date: Option<String>,
    pub confidence: Confidence,
}

#[verifier::ext_equal]
pub struct ActionItemView {
    pub task: Seq<char>,
    pub owner: Option<Seq<char>>,
    pub due_date: Option<Seq<char>>,
    pub confidence: Confidence,
}

impl View for ActionItem {
    type V = ActionItemView;

    open spec fn view(&self) -> ActionItemView {
        ActionItemView {
            task: self.task@,
            owner: opt_text(self.owner),
            due_date: opt_text(self.due_date),
            confidence: self.confidence,
        }
    }
}

pub open spec fn action_list(items: Seq<ActionItem>) -> Seq<ActionItemView> {
    Seq::new(items.len(), |i: int| items[i]@)
}

pub broadcast proof fn action_list_of_push(list: Seq<ActionItem>, a: ActionItem)
    ensures
        #[trigger] action_list(list.push(a)) == action_list(list).push(a@),
{
    assert(action_list(list.push(a)) =~= action_list(list).push(a@));
}

#[derive(Debug, Clone)]
pub struct Analysis {
    pub title: String,
    pub summary: String,
    pub decisions: Vec<String>,
    pub action_items: Vec<ActionItem>,
    pub blockers: Vec<String>,
    pub open_questions: Vec<String>,
    /// What the model thought was spoken. Not a provider detection.
    pub language: String,
}

#[verifier::ext_equal]
pub struct AnalysisView {
    pub title: Seq<char>,
    pub summary: Seq<char>,
    pub decisions: Seq<Seq<char>>,
    pub action_items: Seq<ActionItemView>,
    pub blockers: Seq<Seq<char>>,
    pub open_questions: Seq<Seq<char>>,
    pub language: Seq<char>,
}

impl View for Analysis {
    type V = AnalysisView;

    open spec fn view(&self) -> AnalysisView {
        AnalysisView {
            title: self.title@,
            summary: self.summary@,
            decisions: texts(self.decisions@),
            action_items: action_list(self.action_items@),
            blockers: texts(self.blockers@),
            open_questions: texts(self.open_questions@),
            language: self.language@,
        }
    }
}

// ------------------------------------------------------------------------- asking

pub const SYSTEM_PROMPT: &'static str = "You extract structured meeting notes from multilingual Gujarati, Hindi, English, Hinglish and code-mixed transcripts. Return valid JSON only. Never invent facts, decisions, people, deadlines or responsibilities. Only set actionItems[].owner when the transcript explicitly assigns that task to that person. If context merely suggests someone, omit owner and set confidence to \"suggested\". If nobody is attached, omit owner and set confidence to \"unassigned\". Speaker labels like SPEAKER_00 are not names: never present them as people, and never guess who they are. Write title and summary in English.";

pub const SHAPE: &'static str = "{\"title\":\"string\",\"summary\":\"string\",\"decisions\":[\"string\"],\"actionItems\":[{\"task\":\"string\",\"owner\":\"optional string\",\"dueDate\":\"optional string\",\"confidence\":\"explicit|suggested|unassigned\"}],\"blockers\":[\"string\"],\"openQuestions\":[\"string\"],\"language\":\"string\"}";

pub open spec fn analysis_question(transcript: Seq<char>) -> Seq<char> {
    "Transcript:\n"@ + transcript + "\n\nReturn exactly this JSON shape:\n"@ + SHAPE@
}

pub open spec fn analysis_body(model: Seq<char>, transcript: Seq<char>) -> JsonView {
    JsonView::Object(
        seq![
            ("model"@, JsonView::Text(model)),
            // Low but not zero: summarising needs to paraphrase, not invent.
            ("temperature"@, JsonView::Number("0.1"@)),
            ("response_format"@, json_single("type"@, JsonView::Text("json_object"@))),
            ("messages"@, chat_messages(SYSTEM_PROMPT@, analysis_question(transcript))),
        ],
    )
}

/// The request that summarises a meeting, or why there is none: no words, or no key.
pub fn analysis_request(transcript: &str, config: &Config) -> (r: Result<ChatRequest, String>)
    ensures
        match r {
            Ok(request) => {
                &&& trimmed(transcript@).len() > 0
                &&& config.has_key(Provider::Groq)
                &&& config.key(Provider::Groq) == Some(request.key@)
                &&& request.body@ == analysis_body(
                    setting_or(config.polish_model, DEFAULT_POLISH_MODEL@),
                    transcript@,
                )
            },
            Err(e) => if trimmed(transcript@).len() == 0 {
                e@ == "There is no transcript to summarise."@
            } else {
                !config.has_key(Provider::Groq) && e@
                    == "Meeting summaries need a Groq API key. Run: nbmeet setup"@
            },
        },
{
    if trim(transcript).as_str().is_empty() {
        return Err("There is no transcript to summarise.".to_owned());
    }
    let key = match config.usable_key(Provider::Groq) {
        Some(key) => key,
        None => {
            return Err("Meeting summaries need a Groq API key. Run: nbmeet setup".to_owned());
        },
    };
    let user = "Transcript:\n".to_owned().concat(transcript).concat(
        "\n\nReturn exactly this JSON shape:\n",
    ).concat(SHAPE);
    let mut entries = new_entries();
    put(&mut entries, "model", text_value(config.polish_model_or_default()));
    put(&mut entries, "temperature", Json::Number("0.1".to_owned()));
    put(&mut entries, "response_format", single("type", text_value("json_object")));
    put(&mut entries, "messages", messages(SYSTEM_PROMPT, user.as_str()));
    let body = object(entries);
    assert(body@->Object_0 =~= analysis_body(
        setting_or(config.polish_model, DEFAULT_POLISH_MODEL@),
        transcript@,
    )->Object_0);
    Ok(ChatRequest { key, body })
}

/// The analysis in a reply, or the error it is reported with.
pub fn analysis_reply(status: u16, payload: &Json) -> (r: Result<Analysis, String>)
    ensures
        match r {
            Ok(analysis) => is_success(status) && json_read(unfenced(reply_content(payload@)))
                is Some && analysis@ == analysis_of(
                json_read(unfenced(reply_content(payload@)))->0,
            ),
            Err(e) => if is_success(status) {
                json_read(unfenced(reply_content(payload@))) is None && e@
                    == "Meeting analysis returned invalid JSON."@
            } else {
                e@ == chat_failure(payload@, status, "Meeting analysis"@)
            },
        },
{
    if !succeeded(status) {
        return Err(chat_error(payload, status, "Meeting analysis"));
    }
    parse_analysis(content_of(payload).as_str())
}

// ------------------------------------------------------------------------ reading

/// A reply without the code fence it may be wrapped in.
pub open spec fn unfenced(content: Seq<char>) -> Seq<char> {
    let t = trimmed(content);
    let opened = if "```json"@.is_prefix_of(t) {
        without_prefix(t, "```json"@)
    } else if "```JSON"@.is_prefix_of(t) {
        without_prefix(t, "```JSON"@)
    } else {
        without_prefix(t, "```"@)
    };
    trimmed(without_suffix(opened, "```"@))
}

pub fn strip_code_fence(content: &str) -> (r: String)
    ensures
        r@ == unfenced(content@),
{
    let t = trim(content);
    let opened = if starts_with(t.as_str(), "```json") {
        strip_prefix(t.as_str(), "```json")
    } else if starts_with(t.as_str(), "```JSON") {
        strip_prefix(t.as_str(), "```JSON")
    } else {
        strip_prefix(t.as_str(), "```")
    };
    trim(strip_suffix(opened.as_str(), "```").as_str())
}

/// The trimmed text of a member, where any is left.
pub open spec fn kept_text(j: JsonView, name: Seq<char>) -> Option<Seq<char>> {
    match j.text_at(name) {
        Some(t) => if trimmed(t).len() > 0 {
            Some(trimmed(t))
        } else {
            None
        },
        None => None,
    }
}

/// The trimmed texts among the items, where any is left.
pub open spec fn kept_texts(items: Seq<JsonView>) -> Seq<Seq<char>>
    decreases items.len(),
{
    if items.len() == 0 {
        Seq::<Seq<char>>::empty()
    } else {
        let before = kept_texts(items.drop_last());
        match items.last().as_text() {
            Some(t) => if trimmed(t).len() > 0 {
                before.push(trimmed(t))
            } else {
                before
            },
            None => before,
        }
    }
}

pub open spec fn texts_at(j: JsonView, name: Seq<char>) -> Seq<Seq<char>> {
    match j.array_at(name) {
        Some(items) => kept_texts(items),
        None => Seq::<Seq<char>>::empty(),
    }
}

/// The owner and the confidence that a claim comes to. An owner only stands when the task
/// was explicitly assigned, and a task is only explicit when it has an owner.
pub open spec fn settled(owner: Option<Seq<char>>, claimed: Confidence) -> (
    Option<Seq<char>>,
    Confidence,
) {
    match (owner, claimed) {
        (Some(owner), Confidence::Explicit) => (Some(owner), Confidence::Explicit),
        (Some(_), _) => (None, Confidence::Suggested),
        (None, Confidence::Explicit) => (None, Confidence::Suggested),
        (None, other) => (None, other),
    }
}

/// The action item in an entry. `None` for one without a task.
pub open spec fn action_item(item: JsonView) -> Option<ActionItemView> {
    match kept_text(item, "task"@) {
        Some(task) => {
            let (owner, confidence) = settled(
                kept_text(item, "owner"@),
                Confidence::read(item.text_at("confidence"@)),
            );
            Some(
                ActionItemView {
                    task,
                    owner,
                    due_date: kept_text(item, "dueDate"@),
                    confidence,
                },
            )
        },
        None => None,
    }
}

pub open spec fn action_items_of(items: Seq<JsonView>) -> Seq<ActionItemView>
    decreases items.len(),
{
    if items.len() == 0 {
        Seq::<ActionItemView>::empty()
    } else {
        let before = action_items_of(items.drop_last());
        match action_item(items.last()) {
            Some(item) => before.push(item),
            None => before,
        }
    }
}

/// The analysis that a document holds, every field validated.
pub open spec fn analysis_of(j: JsonView) -> AnalysisView {
    AnalysisView {
        title: match kept_text(j, "title"@) {
            Some(t) => t,
            None => "Untitled meeting"@,
        },
        summary: match kept_text(j, "summary"@) {
            Some(t) => t,
            None => Seq::<char>::empty(),
        },
        decisions: texts_at(j, "decisions"@),
        action_items: match j.array_at("actionItems"@) {
            Some(items) => action_items_of(items),
            None => Seq::<ActionItemView>::empty(),
        },
        blockers: texts_at(j, "blockers"@),
        open_questions: texts_at(j, "openQuestions"@),
        language: match kept_text(j, "language"@) {
            Some(t) => t,
            None => "mixed"@,
        },
    }
}

fn read_text(j: &Json, name: &str) -> (r: Option<String>)
    ensures
        opt_text(r) == kept_text(j@, name@),
{
    match j.text_at(name) {
        Some(t) => {
            let t = trim(t.as_str());
            if t.as_str().is_empty() {
                None
            } else {
                Some(t)
            }
        },
        None => None,
    }
}

fn read_texts(j: &Json, name: &str) -> (r: Vec<String>)
    ensures
        texts(r@) == texts_at(j@, name@),
{
    let mut kept: Vec<String> = Vec::new();
    assert(texts(kept@) =~= Seq::<Seq<char>>::empty());
    let items = match j.array_at(name) {
        Some(items) => items,
        None => {
            return kept;
        },
    };
    let ghost all = json_list(items@);
    let mut i: usize = 0;
    while i < items.len()
        invariant
            i <= items.len(),
            all == json_list(items@),
            texts(kept@) == kept_texts(all.take(i as int)),
        decreases items.len() - i,
    {
        assert(all.take(i + 1).drop_last() == all.take(i as int));
        assert(all.take(i + 1).last() == items@[i as int]@);
        if let Some(t) = items[i].as_text() {
            let t = trim(t.as_str());
            if !t.as_str().is_empty() {
                kept.push(t);
            }
        }
        i = i + 1;
    }
    assert(all.take(i as int) == all);
    kept
}

fn read_action_item(item: &Json) -> (r: Option<ActionItem>)
    ensures
        match r {
            Some(a) => action_item(item@) == Some(a@),
            None => action_item(item@) is None,
        },
{
    let task = match read_text(item, "task") {
        Some(task) => task,
        None => {
            return None;
        },
    };
    let claimed = Confidence::parse(item.text_at("confidence"));
    let due_date = read_text(item, "dueDate");
    let (owner, confidence) = match (read_text(item, "owner"), claimed) {
        (Some(owner), Confidence::Explicit) => (Some(owner), Confidence::Explicit),
        (Some(_), _) => (None, Confidence::Suggested),
        (None, Confidence::Explicit) => (None, Confidence::Suggested),
        (None, other) => (None, other),
    };
    Some(ActionItem { task, owner, due_date, confidence })
}

fn read_action_items(j: &Json) -> (r: Vec<ActionItem>)
    ensures
        action_list(r@) == (match j@.array_at("actionItems"@) {
            Some(items) => action_items_of(items),
            None => Seq::<ActionItemView>::empty(),
        }),
{
    broadcast use action_list_of_push;

    let mut kept: Vec<ActionItem> = Vec::new();
    assert(action_list(kept@) =~= Seq::<ActionItemView>::empty());
    let items = match j.array_at("actionItems") {
        Some(items) => items,
        None => {
            return kept;
        },
    };
    let ghost all = json_list(items@);
    let mut i: usize = 0;
    while i < items.len()
        invariant
            i <= items.len(),
            all == json_list(items@),
            action_list(kept@) == action_items_of(all.take(i as int)),
        decreases items.len() - i,
    {
        assert(all.take(i + 1).drop_last() == all.take(i as int));
        assert(all.take(i + 1).last() == items@[i as int]@);
        if let Some(item) = read_action_item(&items[i]) {
            kept.push(item);
        }
        i = i + 1;
    }
    assert(all.take(i as int) == all);
    kept
}

/// The analysis that a document holds, every field validated.
pub fn read_analysis(parsed: &Json) -> (r: Analysis)
    ensures
        r@ == analysis_of(parsed@),
{
    Analysis {
        title: match read_text(parsed, "title") {
            Some(t) => t,
            None => "Untitled meeting".to_owned(),
        },
        summary: match read_text(parsed, "summary") {
            Some(t) => t,
            None => String::new(),
        },
        decisions: read_texts(parsed, "decisions"),
        action_items: read_action_items(parsed),
        blockers: read_texts(parsed, "blockers"),
        open_questions: read_texts(parsed, "openQuestions"),
        language: match read_text(parsed, "language") {
            Some(t) => t,
            None => "mixed".to_owned(),
        },
    }
}

/// Turns the model's reply into an `Analysis`, validating every field.
///
/// A reply is still occasionally wrapped in a code fence, and nothing stops a model
/// returning a number where a string belongs.
pub fn parse_analysis(content: &str) -> (r: Result<Analysis, String>)
    ensures
        match r {
            Ok(analysis) => json_read(unfenced(content@)) is Some && analysis@ == analysis_of(
                json_read(unfenced(content@))->0,
            ),
            Err(e) => json_read(unfenced(content@)) is None && e@
                == "Meeting analysis returned invalid JSON."@,
        },
{
    match parse_json(strip_code_fence(content).as_str()) {
        Some(parsed) => Ok(read_analysis(&parsed)),
        None => Err("Meeting analysis returned invalid JSON.".to_owned()),
    }
}

// --------------------------------------------------------------------------- laws

/// Whatever a model replies, an owner is only ever kept for a task that was assigned
/// outright, and a task without an owner is never called explicit.
pub proof fn an_owner_stands_only_for_an_explicit_task(j: JsonView, i: int)
    requires
        0 <= i < analysis_of(j).action_items.len(),
    ensures
        analysis_of(j).action_items[i].owner is Some <==> analysis_of(j).action_items[i].confidence
            == Confidence::Explicit,
{
    items_are_settled(j.array_at("actionItems"@)->0, i);
}

proof fn items_are_settled(items: Seq<JsonView>, i: int)
    requires
        0 <= i < action_items_of(items).len(),
    ensures
        action_items_of(items)[i].owner is Some <==> action_items_of(items)[i].confidence
            == Confidence::Explicit,
    decreases items.len(),
{
    let before = action_items_of(items.drop_last());
    if i < before.len() {
        items_are_settled(items.drop_last(), i);
        assert(action_items_of(items)[i] == before[i]);
    }
}

/// The action items of two runs of entries are those of the first and then those of the second.
proof fn action_items_of_both(a: Seq<JsonView>, b: Seq<JsonView>)
    ensures
        action_items_of(a + b) == action_items_of(a) + action_items_of(b),
    decreases b.len(),
{
    if b.len() == 0 {
        assert(a + b == a);
        assert(action_items_of(a) + action_items_of(b) == action_items_of(a));
    } else {
        assert((a + b).drop_last() == a + b.drop_last());
        assert((a + b).last() == b.last());
        action_items_of_both(a, b.drop_last());
    }
}

/// Whether an entry names something to do: its task is a string that is not blank.
pub open spec fn names_a_task(entry: JsonView) -> bool {
    entry.get("task"@) matches Some(JsonView::Text(t)) && trimmed(t).len() > 0
}

/// Every entry that names a task becomes exactly one action item, in the place that the entries
/// before it give it, and with its own task. Any other entry leaves no trace.
pub proof fn every_task_becomes_one_action_item(j: JsonView, entries: Seq<JsonView>, i: int)
    requires
        j.get("actionItems"@) == Some(JsonView::Array(entries)),
        0 <= i < entries.len(),
    ensures
        ({
            let before = action_items_of(entries.take(i));
            let after = action_items_of(entries.skip(i + 1));
            let all = analysis_of(j).action_items;
            let here = all.subrange(before.len() as int, all.len() - after.len());
            &&& all.len() == before.len() + here.len() + after.len()
            &&& all == before + here + after
            &&& here.len() == (if names_a_task(entries[i]) {
                1int
            } else {
                0
            })
            &&& names_a_task(entries[i]) ==> here[0].task == trimmed(
                entries[i].get("task"@)->0->Text_0,
            )
        }),
{
    reveal_with_fuel(action_items_of, 2);
    let one = seq![entries[i]];
    assert(entries == entries.take(i) + one + entries.skip(i + 1));
    action_items_of_both(entries.take(i) + one, entries.skip(i + 1));
    action_items_of_both(entries.take(i), one);
    assert(one.drop_last() == Seq::<JsonView>::empty());
    assert(one.last() == entries[i]);
    let before = action_items_of(entries.take(i));
    let after = action_items_of(entries.skip(i + 1));
    let all = analysis_of(j).action_items;
    assert(all.subrange(before.len() as int, all.len() - after.len()) =~= action_items_of(one));
}

/// Where every entry names a task, the analysis has as many action items as there are entries,
/// and each has the task of the entry in its place.
pub proof fn no_task_is_lost(j: JsonView, entries: Seq<JsonView>)
    requires
        j.get("actionItems"@) == Some(JsonView::Array(entries)),
        forall|i: int| 0 <= i < entries.len() ==> names_a_task(#[trigger] entries[i]),
    ensures
        analysis_of(j).action_items.len() == entries.len(),
        forall|i: int|
            0 <= i < entries.len() ==> (#[trigger] analysis_of(j).action_items[i]).task == trimmed(
                entries[i].get("task"@)->0->Text_0,
            ),
{
    all_tasks_are_kept(entries);
}

proof fn all_tasks_are_kept(entries: Seq<JsonView>)
    requires
        forall|i: int| 0 <= i < entries.len() ==> names_a_task(#[trigger] entries[i]),
    ensures
        action_items_of(entries).len() == entries.len(),
        forall|i: int|
            0 <= i < entries.len() ==> (#[trigger] action_items_of(entries)[i]).task == trimmed(
                entries[i].get("task"@)->0->Text_0,
            ),
    decreases entries.len(),
{
    if entries.len() > 0 {
        let front = entries.drop_last();
        assert forall|i: int| 0 <= i < front.len() implies names_a_task(#[trigger] front[i]) by {
            assert(front[i] == entries[i]);
        }
        all_tasks_are_kept(front);
        assert(names_a_task(entries[entries.len() - 1]));
        assert forall|i: int| 0 <= i < entries.len() implies (#[trigger] action_items_of(
            entries,
        )[i]).task == trimmed(entries[i].get("task"@)->0->Text_0) by {
            if i < front.len() {
                assert(action_items_of(entries)[i] == action_items_of(front)[i]);
                assert(front[i] == entries[i]);
            }
        }
    }
}

/// A named person who was given the task outright is its owner; nobody else ever is. A due date
/// that is written down stays with the task.
pub proof fn an_owner_is_the_one_named_outright(
    entry: JsonView,
    task: Seq<char>,
    owner: Seq<char>,
    due: Seq<char>,
    confidence: Seq<char>,
)
    requires
        entry.get("task"@) == Some(JsonView::Text(task)),
        entry.get("owner"@) == Some(JsonView::Text(owner)),
        entry.get("dueDate"@) == Some(JsonView::Text(due)),
        entry.get("confidence"@) == Some(JsonView::Text(confidence)),
        trimmed(task).len() > 0,
        trimmed(owner).len() > 0,
        trimmed(due).len() > 0,
    ensures
        action_item(entry) is Some,
        action_item(entry)->0.task == trimmed(task),
        action_item(entry)->0.due_date == Some(trimmed(due)),
        action_item(entry)->0.owner == Some(trimmed(owner)) <==> lowercase_of(trimmed(confidence))
            == "explicit"@,
        action_item(entry)->0.owner is None <==> lowercase_of(trimmed(confidence)) != "explicit"@,
{
    reveal_strlit("explicit");
    reveal_strlit("suggested");
}

/// What is kept of two runs of texts is what is kept of the first and then of the second.
proof fn kept_texts_of_both(a: Seq<JsonView>, b: Seq<JsonView>)
    ensures
        kept_texts(a + b) == kept_texts(a) + kept_texts(b),
    decreases b.len(),
{
    if b.len() == 0 {
        assert(a + b == a);
        assert(kept_texts(a) + kept_texts(b) == kept_texts(a));
    } else {
        assert((a + b).drop_last() == a + b.drop_last());
        assert((a + b).last() == b.last());
        kept_texts_of_both(a, b.drop_last());
    }
}

/// Whether a value is a text that is not blank.
pub open spec fn says_something(value: JsonView) -> bool {
    value matches JsonView::Text(t) && trimmed(t).len() > 0
}

/// Every text of a list that is not blank is kept, trimmed, in its place among the others.
proof fn a_text_is_kept_in_its_place(items: Seq<JsonView>, i: int)
    requires
        0 <= i < items.len(),
    ensures
        ({
            let before = kept_texts(items.take(i));
            let after = kept_texts(items.skip(i + 1));
            &&& says_something(items[i]) ==> kept_texts(items) == before + seq![trimmed(items[i]->Text_0)] + after
            &&& !says_something(items[i]) ==> kept_texts(items) == before + after
        }),
{
    reveal_with_fuel(kept_texts, 2);
    let one = seq![items[i]];
    assert(items == items.take(i) + one + items.skip(i + 1));
    kept_texts_of_both(items.take(i) + one, items.skip(i + 1));
    kept_texts_of_both(items.take(i), one);
    assert(one.drop_last() == Seq::<JsonView>::empty());
    assert(one.last() == items[i]);
}

/// A reply's decisions, blockers and open questions each come from the list of that name, every
/// text of it that is not blank, trimmed and in its place.
pub proof fn lists_keep_their_texts(
    j: JsonView,
    decisions: Seq<JsonView>,
    blockers: Seq<JsonView>,
    questions: Seq<JsonView>,
    i: int,
)
    requires
        j.get("decisions"@) == Some(JsonView::Array(decisions)),
        j.get("blockers"@) == Some(JsonView::Array(blockers)),
        j.get("openQuestions"@) == Some(JsonView::Array(questions)),
    ensures
        0 <= i < decisions.len() && says_something(decisions[i])
            ==> analysis_of(j).decisions == kept_texts(decisions.take(i)) + seq![
            trimmed(decisions[i]->Text_0),
        ] + kept_texts(decisions.skip(i + 1)),
        0 <= i < blockers.len() && says_something(blockers[i])
            ==> analysis_of(j).blockers == kept_texts(blockers.take(i)) + seq![
            trimmed(blockers[i]->Text_0),
        ] + kept_texts(blockers.skip(i + 1)),
        0 <= i < questions.len() && says_something(questions[i])
            ==> analysis_of(j).open_questions == kept_texts(questions.take(i)) + seq![
            trimmed(questions[i]->Text_0),
        ] + kept_texts(questions.skip(i + 1)),
{
    if 0 <= i < decisions.len() {
        a_text_is_kept_in_its_place(decisions, i);
    }
    if 0 <= i < blockers.len() {
        a_text_is_kept_in_its_place(blockers, i);
    }
    if 0 <= i < questions.len() {
        a_text_is_kept_in_its_place(questions, i);
    }
}

/// Title, summary and language are those that the reply gives, trimmed, wherever it gives some.
pub proof fn title_summary_and_language_are_those_given(
    j: JsonView,
    title: Seq<char>,
    summary: Seq<char>,
    language: Seq<char>,
)
    requires
        j.get("title"@) == Some(JsonView::Text(title)),
        j.get("summary"@) == Some(JsonView::Text(summary)),
        j.get("language"@) == Some(JsonView::Text(language)),
    ensures
        trimmed(title).len() > 0 ==> analysis_of(j).title == trimmed(title),
        analysis_of(j).summary == trimmed(summary),
        trimmed(language).len() > 0 ==> analysis_of(j).language == trimmed(language),
        analysis_of(j).title.len() > 0,
        analysis_of(j).language.len() > 0,
{
    reveal_strlit("Untitled meeting");
    reveal_strlit("mixed");
    assert(trimmed(summary).len() == 0 ==> trimmed(summary) == Seq::<char>::empty());
}

/// The question that is asked about a meeting holds its transcript, and asks the chosen model for
/// JSON alone.
#[verifier::spinoff_prover]
pub proof fn the_transcript_is_what_is_analysed(model: Seq<char>, transcript: Seq<char>)
    ensures
        ({
            let body = analysis_body(model, transcript);
            let asked = body.get("messages"@)->0->Array_0;
            let question = asked[1].get("content"@)->0->Text_0;
            &&& body.get("model"@) == Some(JsonView::Text(model))
            &&& body.get("messages"@) is Some
            &&& body.get("messages"@)->0 is Array
            &&& asked.len() == 2
            &&& asked[0].get("content"@) == Some(JsonView::Text(SYSTEM_PROMPT@))
            &&& asked[1].get("role"@) == Some(JsonView::Text("user"@))
            &&& asked[1].get("content"@) == Some(JsonView::Text(question))
            &&& has(question, "Transcript:\n"@ + transcript)
            &&& SHAPE@.is_suffix_of(question)
        }),
{
    reveal_strlit("model");
    reveal_strlit("temperature");
    reveal_strlit("response_format");
    reveal_strlit("messages");
    assert("model"@.len() == 5 && "temperature"@.len() == 11 && "response_format"@.len() == 15
        && "messages"@.len() == 8);
    let question = analysis_question(transcript);
    let all = seq![
        ("model"@, JsonView::Text(model)),
        ("temperature"@, JsonView::Number("0.1"@)),
        ("response_format"@, json_single("type"@, JsonView::Text("json_object"@))),
        ("messages"@, chat_messages(SYSTEM_PROMPT@, question)),
    ];
    reveal_with_fuel(entry_of, 5);
    assert(all.drop_first() =~= seq![all[1], all[2], all[3]]);
    assert(all.drop_first().drop_first() =~= seq![all[2], all[3]]);
    assert(all.drop_first().drop_first().drop_first() =~= seq![all[3]]);
    the_question_is_asked_by_the_user(SYSTEM_PROMPT@, question);
    let lead = "Transcript:\n"@ + transcript;
    let shape = "\n\nReturn exactly this JSON shape:\n"@;
    stands_in_itself(lead);
    stays_in_front(lead, shape, lead);
    stays_in_front(lead + shape, SHAPE@, lead);
    let n = SHAPE@.len() as int;
    assert(question.subrange(question.len() - n, question.len() as int) =~= SHAPE@);
}

/// A reply in a code fence is read as what stands in the fence, and a bare document as it is.
pub proof fn a_fence_is_taken_off(body: Seq<char>)
    ensures
        unfenced("```json"@ + body + "```"@) == trimmed(body),
        body.len() > 0 && body[0] == '{' && body.last() == '}' ==> unfenced(body) == body,
{
    reveal_strlit("```json");
    reveal_strlit("```JSON");
    reveal_strlit("```");
    let fenced = "```json"@ + body + "```"@;
    assert(fenced[0] == '`' && fenced.last() == '`');
    nothing_to_trim(fenced);
    let rest = body + "```"@;
    assert(fenced =~= "```json"@ + rest);
    what_was_put_on_comes_off(rest, "```json"@);
    assert(("```json"@ + rest).subrange(0, 7) =~= "```json"@);
    assert("```json"@.is_prefix_of(fenced));
    what_was_put_on_comes_off(body, "```"@);
    if body.len() > 0 && body[0] == '{' && body.last() == '}' {
        nothing_to_trim(body);
        if "```json"@.is_prefix_of(body) {
            assert(body.subrange(0, 7)[0] == '`');
        }
        if "```JSON"@.is_prefix_of(body) {
            assert(body.subrange(0, 7)[0] == '`');
        }
        if "```"@.is_prefix_of(body) {
            assert(body.subrange(0, 3)[0] == '`');
        }
        if "```"@.is_suffix_of(body) {
            assert(body.subrange(body.len() - 3, body.len() as int)[2] == '`');
        }
    }
}

} // verus!
