//! Chat completions: the request that is sent, and what a reply holds.
use vstd::prelude::*;
use crate::job::{nested_text, read_nested_text};
use crate::json::{
    Json, JsonView, array, entry_list, entry_of, json_list, new_entries, object, opt_json, put, text_value,
};
use crate::number::{decimal, to_decimal};

verus! {

pub const CHAT_URL: &'static str = "https://api.groq.com/openai/v1/chat/completions";

/// What is sent to a chat model, and the key it is sent with.
#[derive(Debug)]
pub struct ChatRequest {
    pub key: String,
    pub body: Json,
}

pub open spec fn chat_message(role: Seq<char>, content: Seq<char>) -> JsonView {
    JsonView::Object(
        seq![("role"@, JsonView::Text(role)), ("content"@, JsonView::Text(content))],
    )
}

/// The messages of a request: the system's and the user's.
pub open spec fn chat_messages(system: Seq<char>, user: Seq<char>) -> JsonView {
    JsonView::Array(seq![chat_message("system"@, system), chat_message("user"@, user)])
}

pub fn message(role: &str, content: &str) -> (r: Json)
    ensures
        r@ == chat_message(role@, content@),
{
    let mut entries = new_entries();
    put(&mut entries, "role", text_value(role));
    put(&mut entries, "content", text_value(content));
    assert(entry_list(entries@) =~= seq![
        ("role"@, JsonView::Text(role@)),
        ("content"@, JsonView::Text(content@)),
    ]);
    object(entries)
}

pub fn messages(system: &str, user: &str) -> (r: Json)
    ensures
        r@ == chat_messages(system@, user@),
{
    let mut items: Vec<Json> = Vec::new();
    items.push(message("system", system));
    items.push(message("user", user));
    assert(json_list(items@) =~= seq![
        chat_message("system"@, system@),
        chat_message("user"@, user@),
    ]);
    array(items)
}

/// Whether an HTTP status reports success.
pub open spec fn is_success(status: u16) -> bool {
    200 <= status <= 299
}

pub fn succeeded(status: u16) -> (r: bool)
    ensures
        r == is_success(status),
{
    200 <= status && status <= 299
}

/// The first item of an array, or the member `0` of an object.
pub open spec fn first_item(j: JsonView) -> Option<JsonView> {
    match j {
        JsonView::Array(items) => if items.len() > 0 {
            Some(items[0])
        } else {
            None
        },
        _ => j.get("0"@),
    }
}

/// The words of the first choice of a reply. Empty where there are none.
pub open spec fn reply_content(payload: JsonView) -> Seq<char> {
    match payload.get("choices"@) {
        Some(choices) => match first_item(choices) {
            Some(choice) => match nested_text(choice, "message"@, "content"@) {
                Some(content) => content,
                None => Seq::<char>::empty(),
            },
            None => Seq::<char>::empty(),
        },
        None => Seq::<char>::empty(),
    }
}

fn read_first_item(j: &Json) -> (r: Option<&Json>)
    ensures
        opt_json(r) == first_item(j@),
{
    match j {
        Json::Array(items) => if items.len() > 0 {
            assert(j@->Array_0[0] == items@[0]@);
            Some(&items[0])
        } else {
            None
        },
        _ => j.get("0"),
    }
}

pub fn content_of(payload: &Json) -> (r: String)
    ensures
        r@ == reply_content(payload@),
{
    match payload.get("choices") {
        Some(choices) => match read_first_item(choices) {
            Some(choice) => match read_nested_text(choice, "message", "content") {
                Some(content) => content.clone(),
                None => String::new(),
            },
            None => String::new(),
        },
        None => String::new(),
    }
}

/// The error a refused request is reported with: the reply's own words, or `what` with the
/// status.
pub open spec fn chat_failure(payload: JsonView, status: u16, what: Seq<char>) -> Seq<char> {
    match nested_text(payload, "error"@, "message"@) {
        Some(m) => m,
        None => what + " failed: HTTP "@ + decimal(status as nat),
    }
}

pub fn chat_error(payload: &Json, status: u16, what: &str) -> (r: String)
    ensures
        r@ == chat_failure(payload@, status, what@),
{
    match read_nested_text(payload, "error", "message") {
        Some(m) => m.clone(),
        None => what.to_owned().concat(" failed: HTTP ").concat(
            to_decimal(status as u64).as_str(),
        ),
    }
}

// --------------------------------------------------------------------------- laws

/// A conversation is the instructions and then the question, each under its own role.
pub proof fn the_question_is_asked_by_the_user(system: Seq<char>, user: Seq<char>)
    ensures
        ({
            let asked = chat_messages(system, user)->Array_0;
            &&& chat_messages(system, user) is Array
            &&& asked.len() == 2
            &&& asked[0].get("role"@) == Some(JsonView::Text("system"@))
            &&& asked[0].get("content"@) == Some(JsonView::Text(system))
            &&& asked[1].get("role"@) == Some(JsonView::Text("user"@))
            &&& asked[1].get("content"@) == Some(JsonView::Text(user))
        }),
{
    a_message_has_role_and_content("system"@, system);
    a_message_has_role_and_content("user"@, user);
}

proof fn a_message_has_role_and_content(role: Seq<char>, content: Seq<char>)
    ensures
        chat_message(role, content).get("role"@) == Some(JsonView::Text(role)),
        chat_message(role, content).get("content"@) == Some(JsonView::Text(content)),
{
    reveal_strlit("role");
    reveal_strlit("content");
    assert("role"@.len() == 4 && "content"@.len() == 7);
    reveal_with_fuel(entry_of, 3);
    let both = seq![("role"@, JsonView::Text(role)), ("content"@, JsonView::Text(content))];
    assert(both.drop_first() =~= seq![both[1]]);
}

/// The answer is what the first choice says.
pub proof fn the_first_choice_is_the_answer(
    payload: JsonView,
    choices: Seq<JsonView>,
    message: JsonView,
    content: Seq<char>,
)
    requires
        payload.get("choices"@) == Some(JsonView::Array(choices)),
        choices.len() > 0,
        choices[0].get("message"@) == Some(message),
        message.get("content"@) == Some(JsonView::Text(content)),
    ensures
        reply_content(payload) == content,
{
}

/// A request succeeded exactly where its status is in the two hundreds.
pub proof fn success_is_in_the_two_hundreds(status: u16)
    ensures
        is_success(status) <==> status / 100 == 2,
{
}

/// What the provider says of a failure is what is reported, and else the status.
pub proof fn a_chat_failure_is_told_as_it_is(
    payload: JsonView,
    error: JsonView,
    message: Seq<char>,
    status: u16,
    what: Seq<char>,
)
    ensures
        payload.get("error"@) == Some(error) && error.get("message"@) == Some(
            JsonView::Text(message),
        ) ==> chat_failure(payload, status, what) == message,
        payload.get("error"@) is None ==> what.is_prefix_of(chat_failure(payload, status, what))
            && decimal(status as nat).is_suffix_of(chat_failure(payload, status, what)),
{
    let text = what + " failed: HTTP "@ + decimal(status as nat);
    assert(text.take(what.len() as int) =~= what);
    let n = decimal(status as nat).len() as int;
    assert(text.subrange(text.len() - n, text.len() as int) =~= decimal(status as nat));
}

} // verus!
