//! The members of an object, read as values of a kind.
//!
//! A reader answers `None` where a member is not of its kind. A member that may be missing
//! may also be written as nothing.
use vstd::prelude::*;
use crate::json::{Json, JsonView, json_list, json_texts, opt_nat64, text_json, text_value};
use crate::number::{decimal, parse_unsigned, parsed, to_decimal};
use crate::text::{opt_text, texts};
use crate::time::{Time, parse_seconds, seconds_text, seconds_written, write_seconds_text};

verus! {

/// Whether a member is missing or written as nothing.
pub open spec fn is_absent(j: JsonView, name: Seq<char>) -> bool {
    j.get(name) is None || j.get(name) == Some(JsonView::Null)
}

/// What tells short names apart.
#[verifier::opaque]
pub open spec fn mark(name: Seq<char>) -> (nat, char, char, char) {
    (
        name.len(),
        name[0],
        name[1],
        if name.len() >= 3 {
            name[name.len() - 3]
        } else {
            name[0]
        },
    )
}

// ---------------------------------------------------------------------------- texts

pub open spec fn opt_text_in(j: JsonView, name: Seq<char>) -> Option<Option<Seq<char>>> {
    if is_absent(j, name) {
        Some(None)
    } else {
        match j.text_at(name) {
            Some(t) => Some(Some(t)),
            None => None,
        }
    }
}

pub fn read_text(j: &Json, name: &str) -> (r: Option<String>)
    ensures
        opt_text(r) == j@.text_at(name@),
{
    match j.text_at(name) {
        Some(t) => Some(t.clone()),
        None => None,
    }
}

pub fn read_opt_text(j: &Json, name: &str) -> (r: Option<Option<String>>)
    ensures
        match r {
            Some(value) => opt_text_in(j@, name@) == Some(opt_text(value)),
            None => opt_text_in(j@, name@) is None,
        },
{
    match j.get(name) {
        None => Some(None),
        Some(Json::Null) => Some(None),
        Some(Json::Text(t)) => Some(Some(t.clone())),
        Some(_) => None,
    }
}

/// The items of a list of texts.
pub open spec fn all_texts_in(items: Seq<JsonView>) -> Option<Seq<Seq<char>>> {
    if forall|i: int| 0 <= i < items.len() ==> (#[trigger] items[i]).as_text() is Some {
        Some(Seq::new(items.len(), |i: int| items[i].as_text()->0))
    } else {
        None
    }
}

/// A list of texts, which is empty where it is missing.
pub open spec fn texts_in(j: JsonView, name: Seq<char>) -> Option<Seq<Seq<char>>> {
    match j.get(name) {
        None => Some(Seq::empty()),
        Some(JsonView::Array(items)) => all_texts_in(items),
        _ => None,
    }
}

pub fn read_texts(j: &Json, name: &str) -> (r: Option<Vec<String>>)
    ensures
        match r {
            Some(list) => texts_in(j@, name@) == Some(texts(list@)),
            None => texts_in(j@, name@) is None,
        },
{
    let value = match j.get(name) {
        None => {
            let empty: Vec<String> = Vec::new();
            assert(texts(empty@) =~= Seq::empty());
            return Some(empty);
        },
        Some(value) => value,
    };
    let items = match value.as_array() {
        Some(items) => items,
        None => {
            return None;
        },
    };
    let ghost all = json_list(items@);
    let mut list: Vec<String> = Vec::new();
    let mut i: usize = 0;
    while i < items.len()
        invariant
            i <= items.len(),
            all == json_list(items@),
            j@.get(name@) == Some(JsonView::Array(all)),
            list.len() == i,
            forall|k: int| 0 <= k < i ==> (#[trigger] all[k]).as_text() == Some(list@[k]@),
        decreases items.len() - i,
    {
        match items[i].as_text() {
            Some(t) => {
                list.push(t.clone());
            },
            None => {
                assert(all[i as int].as_text() is None);
                return None;
            },
        }
        i = i + 1;
    }
    assert(all_texts_in(all)->0 =~= texts(list@));
    Some(list)
}

/// A list of texts reads back as it was written.
pub proof fn texts_read_back(list: Seq<Seq<char>>)
    ensures
        all_texts_in(json_texts(list)->Array_0) == Some(list),
{
    assert(all_texts_in(json_texts(list)->Array_0)->0 =~= list);
}

// -------------------------------------------------------------------------- numbers

/// The whole number of a member, where it is no more than `max`.
pub open spec fn number_in(j: JsonView, name: Seq<char>, max: nat) -> Option<nat> {
    match j.get(name) {
        Some(JsonView::Number(n)) => parsed(n, max),
        _ => None,
    }
}

pub open spec fn opt_number_in(j: JsonView, name: Seq<char>, max: nat) -> Option<Option<nat>> {
    if is_absent(j, name) {
        Some(None)
    } else {
        match number_in(j, name, max) {
            Some(n) => Some(Some(n)),
            None => None,
        }
    }
}

pub fn read_number(j: &Json, name: &str, max: u64) -> (r: Option<u64>)
    ensures
        opt_nat64(r) == number_in(j@, name@, max as nat),
        r is Some ==> r->0 <= max,
{
    match j.get(name) {
        Some(Json::Number(n)) => parse_unsigned(n.as_str(), max),
        _ => None,
    }
}

pub fn read_opt_number(j: &Json, name: &str, max: u64) -> (r: Option<Option<u64>>)
    ensures
        match r {
            Some(value) => opt_number_in(j@, name@, max as nat) == Some(opt_nat64(value)) && (value
                is Some ==> value->0 <= max),
            None => opt_number_in(j@, name@, max as nat) is None,
        },
{
    match j.get(name) {
        None => Some(None),
        Some(Json::Null) => Some(None),
        Some(_) => match read_number(j, name, max) {
            Some(n) => Some(Some(n)),
            None => None,
        },
    }
}

/// A number as it is written.
pub open spec fn number_text_in(j: JsonView, name: Seq<char>) -> Option<Seq<char>> {
    match j.get(name) {
        Some(JsonView::Number(n)) => Some(n),
        _ => None,
    }
}

pub fn read_number_text(j: &Json, name: &str) -> (r: Option<String>)
    ensures
        opt_text(r) == number_text_in(j@, name@),
{
    match j.get(name) {
        Some(Json::Number(n)) => Some(n.clone()),
        _ => None,
    }
}

// ---------------------------------------------------------------------------- flags

pub open spec fn flag_in(j: JsonView, name: Seq<char>) -> Option<bool> {
    match j.get(name) {
        Some(JsonView::Bool(b)) => Some(b),
        _ => None,
    }
}

pub open spec fn opt_flag_in(j: JsonView, name: Seq<char>) -> Option<Option<bool>> {
    if is_absent(j, name) {
        Some(None)
    } else {
        match flag_in(j, name) {
            Some(b) => Some(Some(b)),
            None => None,
        }
    }
}

/// A flag that is off where it is missing.
pub open spec fn flag_or_off_in(j: JsonView, name: Seq<char>) -> Option<bool> {
    if j.get(name) is None {
        Some(false)
    } else {
        flag_in(j, name)
    }
}

pub fn read_flag(j: &Json, name: &str) -> (r: Option<bool>)
    ensures
        r == flag_in(j@, name@),
{
    match j.get(name) {
        Some(Json::Bool(b)) => Some(*b),
        _ => None,
    }
}

pub fn read_opt_flag(j: &Json, name: &str) -> (r: Option<Option<bool>>)
    ensures
        r == opt_flag_in(j@, name@),
{
    match j.get(name) {
        None => Some(None),
        Some(Json::Null) => Some(None),
        Some(Json::Bool(b)) => Some(Some(*b)),
        Some(_) => None,
    }
}

pub fn read_flag_or_off(j: &Json, name: &str) -> (r: Option<bool>)
    ensures
        r == flag_or_off_in(j@, name@),
{
    match j.get(name) {
        None => Some(false),
        Some(_) => read_flag(j, name),
    }
}

// -------------------------------------------------------------------------- seconds

/// The time of a member that writes it in seconds.
pub open spec fn seconds_in(j: JsonView, name: Seq<char>) -> Option<Time> {
    match j.get(name) {
        Some(JsonView::Number(n)) => Some(seconds_written(n) as Time),
        _ => None,
    }
}

pub open spec fn opt_seconds_in(j: JsonView, name: Seq<char>) -> Option<Option<Time>> {
    if is_absent(j, name) {
        Some(None)
    } else {
        match seconds_in(j, name) {
            Some(t) => Some(Some(t)),
            None => None,
        }
    }
}

pub fn read_seconds(j: &Json, name: &str) -> (r: Option<Time>)
    ensures
        r == seconds_in(j@, name@),
{
    match j.get(name) {
        Some(Json::Number(n)) => Some(parse_seconds(n.as_str())),
        _ => None,
    }
}

pub fn read_opt_seconds(j: &Json, name: &str) -> (r: Option<Option<Time>>)
    ensures
        r == opt_seconds_in(j@, name@),
{
    match j.get(name) {
        None => Some(None),
        Some(Json::Null) => Some(None),
        Some(_) => match read_seconds(j, name) {
            Some(t) => Some(Some(t)),
            None => None,
        },
    }
}

pub open spec fn seconds_json(t: int) -> JsonView {
    JsonView::Number(seconds_text(t))
}

pub open spec fn opt_seconds_json(t: Option<Time>) -> Option<JsonView> {
    match t {
        Some(t) => Some(seconds_json(t as int)),
        None => None,
    }
}

/// A value, or nothing.
pub open spec fn or_null(value: Option<JsonView>) -> JsonView {
    match value {
        Some(v) => v,
        None => JsonView::Null,
    }
}

pub fn write_seconds(t: Time) -> (r: Json)
    ensures
        r@ == seconds_json(t as int),
{
    Json::Number(write_seconds_text(t))
}

pub fn opt_seconds(t: Option<Time>) -> (r: Option<Json>)
    ensures
        opt_json_value(r) == opt_seconds_json(t),
{
    match t {
        Some(t) => Some(write_seconds(t)),
        None => None,
    }
}

pub fn opt_text_value(value: &Option<String>) -> (r: Option<Json>)
    ensures
        opt_json_value(r) == text_json(*value),
{
    match value {
        Some(t) => Some(text_value(t.as_str())),
        None => None,
    }
}

/// What an optional document stands for.
pub open spec fn opt_json_value(value: Option<Json>) -> Option<JsonView> {
    match value {
        Some(j) => Some(j@),
        None => None,
    }
}

pub fn value_or_null(value: Option<Json>) -> (r: Json)
    ensures
        r@ == or_null(opt_json_value(value)),
{
    match value {
        Some(j) => j,
        None => Json::Null,
    }
}

pub fn write_count(n: usize) -> (r: Json)
    ensures
        r@ == JsonView::Number(decimal(n as nat)),
{
    Json::Number(to_decimal(n as u64))
}

} // verus!
