//! JSON documents as plain values.
//!
//! `serde_json` reads and writes them. It is built to keep numbers as they are written
//! (`arbitrary_precision`) and members in their order (`preserve_order`).
use vstd::prelude::*;
use crate::number::{
    decimal, decimal_has_no_zero_in_front, decimal_is_number, is_number, parse_signed,
    parsed_signed, to_decimal,
};
use crate::text::{chars_of, same, texts};
use crate::time::{PLACES, places_are_digits, places_of, seconds_text, without_last_digits};

verus! {

/// A JSON document. A number is kept as the text that writes it, and an object as the list
/// of its entries.
#[derive(Debug)]
pub enum Json {
    Null,
    Bool(bool),
    Number(String),
    Text(String),
    Array(Vec<Json>),
    Object(Vec<(String, Json)>),
}

/// What a `Json` stands for.
#[verifier::ext_equal]
pub enum JsonView {
    Null,
    Bool(bool),
    Number(Seq<char>),
    Text(Seq<char>),
    Array(Seq<JsonView>),
    Object(Seq<(Seq<char>, JsonView)>),
}

pub open spec fn json_view(j: Json) -> JsonView
    decreases j,
{
    match j {
        Json::Null => JsonView::Null,
        Json::Bool(b) => JsonView::Bool(b),
        Json::Number(n) => JsonView::Number(n@),
        Json::Text(t) => JsonView::Text(t@),
        Json::Array(items) => JsonView::Array(
            Seq::new(
                items@.len(),
                |i: int|
                    if 0 <= i < items@.len() {
                        json_view(items@[i])
                    } else {
                        JsonView::Null
                    },
            ),
        ),
        Json::Object(entries) => JsonView::Object(
            Seq::new(
                entries@.len(),
                |i: int|
                    if 0 <= i < entries@.len() {
                        (entries@[i].0@, json_view(entries@[i].1))
                    } else {
                        (Seq::<char>::empty(), JsonView::Null)
                    },
            ),
        ),
    }
}

impl View for Json {
    type V = JsonView;

    open spec fn view(&self) -> JsonView {
        json_view(*self)
    }
}

/// What an optional document stands for.
pub open spec fn opt_json(o: Option<&Json>) -> Option<JsonView> {
    match o {
        Some(j) => Some(j@),
        None => None,
    }
}

/// What a list of documents stands for.
pub open spec fn json_list(items: Seq<Json>) -> Seq<JsonView> {
    Seq::new(items.len(), |i: int| items[i]@)
}

impl JsonView {
    /// The member `name` of an object: the first entry of that name.
    pub open spec fn get(self, name: Seq<char>) -> Option<JsonView> {
        match self {
            JsonView::Object(entries) => entry_of(entries, name),
            _ => None,
        }
    }

    /// The text of a string.
    pub open spec fn as_text(self) -> Option<Seq<char>> {
        match self {
            JsonView::Text(t) => Some(t),
            _ => None,
        }
    }

    /// The items of an array.
    pub open spec fn as_array(self) -> Option<Seq<JsonView>> {
        match self {
            JsonView::Array(items) => Some(items),
            _ => None,
        }
    }

    /// The entries of an object.
    pub open spec fn as_object(self) -> Option<Seq<(Seq<char>, JsonView)>> {
        match self {
            JsonView::Object(entries) => Some(entries),
            _ => None,
        }
    }

    /// The text of the member `name`, where it is a string.
    pub open spec fn text_at(self, name: Seq<char>) -> Option<Seq<char>> {
        match self.get(name) {
            Some(value) => value.as_text(),
            None => None,
        }
    }

    /// The items of the member `name`, where it is an array.
    pub open spec fn array_at(self, name: Seq<char>) -> Option<Seq<JsonView>> {
        match self.get(name) {
            Some(value) => value.as_array(),
            None => None,
        }
    }
}

pub open spec fn entry_of(entries: Seq<(Seq<char>, JsonView)>, name: Seq<char>) -> Option<JsonView>
    decreases entries.len(),
{
    if entries.len() == 0 {
        None
    } else if entries[0].0 == name {
        Some(entries[0].1)
    } else {
        entry_of(entries.drop_first(), name)
    }
}

impl Json {
    /// `Value::get` with a name.
    pub fn get(&self, name: &str) -> (r: Option<&Json>)
        ensures
            opt_json(r) == self@.get(name@),
    {
        match self {
            Json::Object(entries) => {
                let ghost all = self@->Object_0;
                let mut i: usize = 0;
                assert(all.skip(0) == all);
                while i < entries.len()
                    invariant
                        i <= entries.len(),
                        self is Object,
                        entries == self->Object_0,
                        all == self@->Object_0,
                        all.len() == entries.len(),
                        self@.get(name@) == entry_of(all.skip(i as int), name@),
                    decreases entries.len() - i,
                {
                    assert(all.skip(i as int)[0] == (entries@[i as int].0@, entries@[i as int].1@));
                    if same(entries[i].0.as_str(), name) {
                        return Some(&entries[i].1);
                    }
                    assert(all.skip(i as int).drop_first() == all.skip(i + 1));
                    i = i + 1;
                }
                None
            },
            _ => None,
        }
    }

    /// `Value::as_str`.
    pub fn as_text(&self) -> (r: Option<&String>)
        ensures
            match r {
                Some(t) => self@.as_text() == Some(t@),
                None => self@.as_text() is None,
            },
    {
        match self {
            Json::Text(t) => Some(t),
            _ => None,
        }
    }

    /// `Value::as_array`.
    pub fn as_array(&self) -> (r: Option<&Vec<Json>>)
        ensures
            match r {
                Some(items) => self@.as_array() == Some(json_list(items@)),
                None => self@.as_array() is None,
            },
    {
        match self {
            Json::Array(items) => {
                assert(json_list(items@) =~= self@->Array_0);
                Some(items)
            },
            _ => None,
        }
    }

    /// `get` and then `as_str`.
    pub fn text_at(&self, name: &str) -> (r: Option<&String>)
        ensures
            match r {
                Some(t) => self@.text_at(name@) == Some(t@),
                None => self@.text_at(name@) is None,
            },
    {
        match self.get(name) {
            Some(value) => value.as_text(),
            None => None,
        }
    }

    /// `get` and then `as_array`.
    pub fn array_at(&self, name: &str) -> (r: Option<&Vec<Json>>)
        ensures
            match r {
                Some(items) => self@.array_at(name@) == Some(json_list(items@)),
                None => self@.array_at(name@) is None,
            },
    {
        match self.get(name) {
            Some(value) => value.as_array(),
            None => None,
        }
    }
}

// ----------------------------------------------------------------------- building

/// What a list of entries stands for.
pub open spec fn entry_list(entries: Seq<(String, Json)>) -> Seq<(Seq<char>, JsonView)> {
    Seq::new(entries.len(), |i: int| (entries[i].0@, entries[i].1@))
}

/// An object of one entry.
pub open spec fn json_single(name: Seq<char>, value: JsonView) -> JsonView {
    JsonView::Object(seq![(name, value)])
}

/// A list of strings.
pub open spec fn json_texts(list: Seq<Seq<char>>) -> JsonView {
    JsonView::Array(list.map_values(|t: Seq<char>| JsonView::Text(t)))
}

/// Adds an entry at the end.
pub fn put(entries: &mut Vec<(String, Json)>, name: &str, value: Json)
    ensures
        entry_list(final(entries)@) == entry_list(old(entries)@).push((name@, value@)),
{
    let ghost before = entry_list(entries@);
    let ghost added = (name@, value@);
    entries.push((name.to_owned(), value));
    assert(entry_list(entries@) =~= before.push(added));
}

pub fn new_entries() -> (r: Vec<(String, Json)>)
    ensures
        entry_list(r@) == Seq::<(Seq<char>, JsonView)>::empty(),
{
    let r: Vec<(String, Json)> = Vec::new();
    assert(entry_list(r@) =~= Seq::<(Seq<char>, JsonView)>::empty());
    r
}

pub fn object(entries: Vec<(String, Json)>) -> (r: Json)
    ensures
        r@ == JsonView::Object(entry_list(entries@)),
{
    let r = Json::Object(entries);
    assert(r@->Object_0 =~= entry_list(entries@));
    r
}

pub fn text_value(t: &str) -> (r: Json)
    ensures
        r@ == JsonView::Text(t@),
{
    Json::Text(t.to_owned())
}

/// An object of one entry.
pub fn single(name: &str, value: Json) -> (r: Json)
    ensures
        r@ == json_single(name@, value@),
{
    let mut entries = new_entries();
    let ghost added = value@;
    put(&mut entries, name, value);
    assert(entry_list(entries@) =~= seq![(name@, added)]);
    object(entries)
}

pub fn array(items: Vec<Json>) -> (r: Json)
    ensures
        r@ == JsonView::Array(json_list(items@)),
{
    let r = Json::Array(items);
    assert(r@->Array_0 =~= json_list(items@));
    r
}

pub fn text_array(list: &Vec<String>) -> (r: Json)
    ensures
        r@ == json_texts(texts(list@)),
{
    let mut items: Vec<Json> = Vec::new();
    let mut i: usize = 0;
    while i < list.len()
        invariant
            i <= list.len(),
            items.len() == i,
            forall|j: int| 0 <= j < i ==> (#[trigger] items@[j])@ == JsonView::Text(list@[j]@),
        decreases list.len() - i,
    {
        items.push(text_value(list[i].as_str()));
        i = i + 1;
    }
    let r = array(items);
    assert(r@->Array_0 =~= json_texts(texts(list@))->Array_0);
    r
}

// --------------------------------------------------------------- optional entries

/// An entry, where it has a value.
pub open spec fn entry(name: Seq<char>, value: Option<JsonView>) -> Seq<(Seq<char>, JsonView)> {
    match value {
        Some(v) => seq![(name, v)],
        None => Seq::<(Seq<char>, JsonView)>::empty(),
    }
}

/// A text, where there is one.
pub open spec fn text_json(value: Option<String>) -> Option<JsonView> {
    match value {
        Some(t) => Some(JsonView::Text(t@)),
        None => None,
    }
}

/// Adds an entry at the end, where it has a value.
pub fn put_value(entries: &mut Vec<(String, Json)>, name: &str, value: Option<Json>)
    ensures
        entry_list(final(entries)@) == entry_list(old(entries)@) + entry(
            name@,
            match value {
                Some(j) => Some(j@),
                None => None,
            },
        ),
{
    let ghost before = entry_list(entries@);
    match value {
        Some(j) => {
            let ghost added = j@;
            put(entries, name, j);
            assert(entry_list(entries@) =~= before + seq![(name@, added)]);
        },
        None => {
            assert(before =~= before + Seq::<(Seq<char>, JsonView)>::empty());
        },
    }
}

/// Adds the entry of a text at the end, where there is one.
pub fn put_text(entries: &mut Vec<(String, Json)>, name: &str, value: &Option<String>)
    ensures
        entry_list(final(entries)@) == entry_list(old(entries)@) + entry(name@, text_json(*value)),
{
    put_value(
        entries,
        name,
        match value {
            Some(t) => Some(text_value(t.as_str())),
            None => None,
        },
    );
}

/// What stands under a name in two lists, one after the other.
pub proof fn entry_of_both(
    a: Seq<(Seq<char>, JsonView)>,
    b: Seq<(Seq<char>, JsonView)>,
    name: Seq<char>,
)
    ensures
        entry_of(a + b, name) == (if entry_of(a, name) is Some {
            entry_of(a, name)
        } else {
            entry_of(b, name)
        }),
    decreases a.len(),
{
    if a.len() == 0 {
        assert(a + b =~= b);
    } else {
        assert((a + b).drop_first() =~= a.drop_first() + b);
        assert((a + b)[0] == a[0]);
        entry_of_both(a.drop_first(), b, name);
    }
}

/// What stands under a name in a list of one entry at most.
pub proof fn entry_of_one(entry_name: Seq<char>, value: Option<JsonView>, name: Seq<char>)
    ensures
        entry_of(entry(entry_name, value), name) == (if entry_name == name {
            value
        } else {
            None
        }),
{
    let e = entry(entry_name, value);
    if e.len() > 0 {
        assert(e.drop_first() =~= Seq::<(Seq<char>, JsonView)>::empty());
        assert(entry_of(e.drop_first(), name) is None);
    }
}

/// Nothing stands under a name that no entry has.
pub proof fn entry_of_none(entries: Seq<(Seq<char>, JsonView)>, name: Seq<char>)
    requires
        forall|i: int| 0 <= i < entries.len() ==> (#[trigger] entries[i]).0 != name,
    ensures
        entry_of(entries, name) is None,
    decreases entries.len(),
{
    if entries.len() > 0 {
        assert(entries[0].0 != name);
        assert forall|i: int| 0 <= i < entries.drop_first().len() implies (
        #[trigger] entries.drop_first()[i]).0 != name by {
            assert(entries.drop_first()[i] == entries[i + 1]);
        }
        entry_of_none(entries.drop_first(), name);
    }
}

/// A flag, where there is one.
pub open spec fn flag_json(value: Option<bool>) -> Option<JsonView> {
    match value {
        Some(b) => Some(JsonView::Bool(b)),
        None => None,
    }
}

/// A whole number, where there is one.
pub open spec fn number_json(value: Option<nat>) -> Option<JsonView> {
    match value {
        Some(n) => Some(JsonView::Number(decimal(n))),
        None => None,
    }
}

/// What an optional number stands for.
pub open spec fn opt_nat8(value: Option<u8>) -> Option<nat> {
    match value {
        Some(n) => Some(n as nat),
        None => None,
    }
}

/// What an optional number stands for.
pub open spec fn opt_nat64(value: Option<u64>) -> Option<nat> {
    match value {
        Some(n) => Some(n as nat),
        None => None,
    }
}

/// Adds the entry of a flag at the end, where there is one.
pub fn put_flag(entries: &mut Vec<(String, Json)>, name: &str, value: Option<bool>)
    ensures
        entry_list(final(entries)@) == entry_list(old(entries)@) + entry(name@, flag_json(value)),
{
    put_value(
        entries,
        name,
        match value {
            Some(b) => Some(Json::Bool(b)),
            None => None,
        },
    );
}

/// Adds the entry of a number at the end, where there is one.
pub fn put_number(entries: &mut Vec<(String, Json)>, name: &str, value: Option<u64>)
    ensures
        entry_list(final(entries)@) == entry_list(old(entries)@) + entry(
            name@,
            number_json(opt_nat64(value)),
        ),
{
    put_value(
        entries,
        name,
        match value {
            Some(n) => Some(Json::Number(to_decimal(n))),
            None => None,
        },
    );
}

// ------------------------------------------------------------------------- fields

/// The entries of those fields that have a value.
pub open spec fn fields(list: Seq<(Seq<char>, Option<JsonView>)>) -> Seq<(Seq<char>, JsonView)>
    decreases list.len(),
{
    if list.len() == 0 {
        Seq::empty()
    } else {
        fields(list.drop_last()) + entry(list.last().0, list.last().1)
    }
}

/// Whether no two fields share a name.
pub open spec fn distinct_fields(list: Seq<(Seq<char>, Option<JsonView>)>) -> bool {
    forall|i: int, j: int|
        0 <= i < j < list.len() ==> (#[trigger] list[i]).0 != (#[trigger] list[j]).0
}

pub broadcast proof fn fields_of_push(
    list: Seq<(Seq<char>, Option<JsonView>)>,
    field: (Seq<char>, Option<JsonView>),
)
    ensures
        #[trigger] fields(list.push(field)) == fields(list) + entry(field.0, field.1),
{
    assert(list.push(field).drop_last() =~= list);
}

proof fn field_not_listed(list: Seq<(Seq<char>, Option<JsonView>)>, name: Seq<char>)
    requires
        forall|i: int| 0 <= i < list.len() ==> (#[trigger] list[i]).0 != name,
    ensures
        entry_of(fields(list), name) is None,
    decreases list.len(),
{
    if list.len() > 0 {
        let before = list.drop_last();
        assert forall|i: int| 0 <= i < before.len() implies (#[trigger] before[i]).0 != name by {
            assert(before[i] == list[i]);
        }
        field_not_listed(before, name);
        entry_of_one(list.last().0, list.last().1, name);
        entry_of_both(fields(before), entry(list.last().0, list.last().1), name);
    }
}

/// What stands under the name of a field is its value.
pub proof fn field_listed(list: Seq<(Seq<char>, Option<JsonView>)>, i: int)
    requires
        0 <= i < list.len(),
        distinct_fields(list),
    ensures
        entry_of(fields(list), list[i].0) == list[i].1,
    decreases list.len(),
{
    let before = list.drop_last();
    let last = list.last();
    let name = list[i].0;
    assert forall|j: int, k: int| 0 <= j < k < before.len() implies (#[trigger] before[j]).0 != (
    #[trigger] before[k]).0 by {
        assert(before[j] == list[j] && before[k] == list[k]);
    }
    if i < before.len() {
        assert(before[i] == list[i]);
        field_listed(before, i);
        assert(list[list.len() - 1].0 != list[i].0);
    } else {
        assert forall|j: int| 0 <= j < before.len() implies (#[trigger] before[j]).0 != name by {
            assert(before[j] == list[j]);
        }
        field_not_listed(before, name);
    }
    entry_of_one(last.0, last.1, name);
    entry_of_both(fields(before), entry(last.0, last.1), name);
}

/// A copy of a document.
pub fn copy_json(j: &Json) -> (r: Json)
    ensures
        r@ == j@,
    decreases j,
{
    match j {
        Json::Null => Json::Null,
        Json::Bool(b) => Json::Bool(*b),
        Json::Number(n) => Json::Number(n.clone()),
        Json::Text(t) => Json::Text(t.clone()),
        Json::Array(items) => {
            let ghost views = j@->Array_0;
            let mut copy: Vec<Json> = Vec::new();
            let mut i: usize = 0;
            while i < items.len()
                invariant
                    i <= items.len(),
                    j is Array,
                    *items == j->Array_0,
                    views == j@->Array_0,
                    copy.len() == i,
                    forall|k: int| 0 <= k < i ==> (#[trigger] copy@[k])@ == views[k],
                decreases items.len() - i,
            {
                assert(decreases_to!(j => items@[i as int]));
                copy.push(copy_json(&items[i]));
                i = i + 1;
            }
            let r = array(copy);
            assert(r@->Array_0 =~= views);
            r
        },
        Json::Object(entries) => {
            let ghost views = j@->Object_0;
            let mut copy: Vec<(String, Json)> = Vec::new();
            let mut i: usize = 0;
            while i < entries.len()
                invariant
                    i <= entries.len(),
                    j is Object,
                    *entries == j->Object_0,
                    views == j@->Object_0,
                    copy.len() == i,
                    forall|k: int|
                        0 <= k < i ==> (#[trigger] copy@[k]).0@ == views[k].0 && copy@[k].1@
                            == views[k].1,
                decreases entries.len() - i,
            {
                assert(decreases_to!(j => entries@[i as int].1));
                let value = copy_json(&entries[i].1);
                copy.push((entries[i].0.clone(), value));
                i = i + 1;
            }
            let r = object(copy);
            assert(r@->Object_0 =~= views);
            r
        },
    }
}

// ------------------------------------------------------------------------ reading

#[verifier::external_type_specification]
#[verifier::external_body]
pub struct ExValue(serde_json::Value);

#[verifier::external_type_specification]
#[verifier::external_body]
pub struct ExError(serde_json::Error);

/// What a `serde_json::Value` holds.
pub uninterp spec fn value_view(value: serde_json::Value) -> JsonView;

/// What `serde_json::from_str` reads out of a text, where it is JSON.
pub uninterp spec fn json_read(text: Seq<char>) -> Option<JsonView>;

/// `serde_json::from_str` into a `Value`. The outcome depends on the text alone. Whatever is
/// read is plain: numbers keep their text, but for the mark and the sign of an exponent; of
/// members of one name the last is kept; and what is nested too deep is not read.
#[verifier::external_body]
fn from_str(text: &str) -> (r: Result<serde_json::Value, serde_json::Error>)
    ensures
        match r {
            Ok(value) => json_read(text@) == Some(value_view(value)) && is_plain(
                value_view(value),
                READABLE_DEPTH as nat,
            ),
            Err(_) => json_read(text@) is None,
        },
{
    serde_json::from_str(text)
}

/// Changes a `serde_json::Value` into a `Json`, variant by variant.
#[verifier::external_body]
fn converted(value: serde_json::Value) -> (r: Json)
    ensures
        r@ == value_view(value),
{
    match value {
        serde_json::Value::Null => Json::Null,
        serde_json::Value::Bool(b) => Json::Bool(b),
        serde_json::Value::Number(n) => Json::Number(n.to_string()),
        serde_json::Value::String(t) => Json::Text(t),
        serde_json::Value::Array(items) => Json::Array(items.into_iter().map(converted).collect()),
        serde_json::Value::Object(entries) => Json::Object(
            entries.into_iter().map(|(name, value)| (name, converted(value))).collect(),
        ),
    }
}

/// Reads a JSON text. `None` where it is not JSON. What is read is plain, so that it can be
/// written and read again as it is.
pub fn parse_json(text: &str) -> (r: Option<Json>)
    ensures
        match r {
            Some(j) => json_read(text@) == Some(j@) && is_plain(j@, READABLE_DEPTH as nat),
            None => json_read(text@) is None,
        },
{
    match from_str(text) {
        Ok(value) => Some(converted(value)),
        Err(_) => None,
    }
}

/// The integer that the text of a JSON number writes: `None` for one with a fraction or an
/// exponent, or outside `i64`.
pub open spec fn json_integer(n: Seq<char>) -> Option<int> {
    if n.len() > 0 && n[0] == '+' {
        None
    } else {
        parsed_signed(n)
    }
}

/// `Number::as_i64`.
pub fn read_integer(n: &str) -> (r: Option<i64>)
    ensures
        match r {
            Some(value) => json_integer(n@) == Some(value as int),
            None => json_integer(n@) is None,
        },
{
    let v = chars_of(n);
    if v.len() > 0 && v[0] == '+' {
        None
    } else {
        parse_signed(n)
    }
}

// -------------------------------------------------------------------- text of a file

/// Whether no two entries share a name.
pub open spec fn distinct_names(entries: Seq<(Seq<char>, JsonView)>) -> bool {
    forall|i: int, k: int|
        0 <= i < k < entries.len() ==> (#[trigger] entries[i]).0 != (#[trigger] entries[k]).0
}

/// A number: a minus sign where it is negative, whole digits, and, where there are any, the
/// digits of the fraction and the power of ten.
pub open spec fn numeral(
    minus: bool,
    whole: Seq<char>,
    fraction: Seq<char>,
    power: Seq<char>,
) -> Seq<char> {
    (if minus {
        seq!['-']
    } else {
        Seq::<char>::empty()
    }) + whole + (if fraction.len() > 0 {
        seq!['.'] + fraction
    } else {
        Seq::<char>::empty()
    }) + (if power.len() > 0 {
        seq!['e'] + power
    } else {
        Seq::<char>::empty()
    })
}

/// Whether a text is a power of ten with its sign.
pub open spec fn is_power(s: Seq<char>) -> bool {
    s.len() > 0 && (s[0] == '+' || s[0] == '-') && is_number(s.drop_first())
}

/// Whether a text is a JSON number, with a small mark and a sign before an exponent. Whole
/// digits have no zero in front.
pub open spec fn is_numeral(n: Seq<char>) -> bool {
    exists|minus: bool, whole: Seq<char>, fraction: Seq<char>, power: Seq<char>|
        {
            &&& n == #[trigger] numeral(minus, whole, fraction, power)
            &&& is_number(whole)
            &&& whole.len() > 1 ==> whole[0] != '0'
            &&& fraction.len() > 0 ==> is_number(fraction)
            &&& power.len() > 0 ==> is_power(power)
        }
}

/// The name under which `serde_json` passes numbers on. An object that starts with it is not
/// read as one.
pub const NUMBER_NAME: &'static str = "$serde_json::private::Number";

/// Whether the first entry has an ordinary name.
pub open spec fn starts_ordinary(entries: Seq<(Seq<char>, JsonView)>) -> bool {
    entries.len() > 0 ==> entries[0].0 != NUMBER_NAME@
}

/// Whether the numbers of a document are well written, no object has a name twice or starts
/// with the name kept for numbers, and at most `depth` lists and objects stand inside one
/// another.
pub open spec fn is_plain(j: JsonView, depth: nat) -> bool
    decreases j,
{
    match j {
        JsonView::Number(n) => is_numeral(n),
        JsonView::Array(items) => depth > 0 && forall|i: int|
            0 <= i < items.len() ==> is_plain(#[trigger] items[i], (depth - 1) as nat),
        JsonView::Object(entries) => depth > 0 && distinct_names(entries) && starts_ordinary(
            entries,
        ) && forall|i: int|
            0 <= i < entries.len() ==> is_plain((#[trigger] entries[i]).1, (depth - 1) as nat),
        _ => true,
    }
}

/// A member of a plain object is plain.
pub proof fn member_is_plain(j: JsonView, name: Seq<char>, depth: nat)
    requires
        is_plain(j, depth),
        j.get(name) is Some,
    ensures
        depth > 0,
        is_plain(j.get(name)->0, (depth - 1) as nat),
{
    entry_is_listed(j->Object_0, name);
}

proof fn entry_is_listed(entries: Seq<(Seq<char>, JsonView)>, name: Seq<char>)
    requires
        entry_of(entries, name) is Some,
    ensures
        exists|i: int| 0 <= i < entries.len() && (#[trigger] entries[i]).1 == entry_of(
            entries,
            name,
        )->0,
    decreases entries.len(),
{
    if entries[0].0 != name {
        let rest = entries.drop_first();
        entry_is_listed(rest, name);
        let i = choose|i: int| 0 <= i < rest.len() && (#[trigger] rest[i]).1 == entry_of(
            rest,
            name,
        )->0;
        assert(entries[i + 1] == rest[i]);
    }
}

/// A whole number in decimal is well written.
pub proof fn decimal_is_numeral(n: nat)
    ensures
        is_numeral(decimal(n)),
{
    let empty = Seq::<char>::empty();
    decimal_is_number(n);
    decimal_has_no_zero_in_front(n);
    assert(numeral(false, decimal(n), empty, empty) =~= decimal(n));
}

/// Seconds are well written.
pub proof fn seconds_are_numeral(t: int)
    ensures
        is_numeral(seconds_text(t)),
{
    let size: nat = if t < 0 {
        (-t) as nat
    } else {
        t as nat
    };
    let empty = Seq::<char>::empty();
    let seconds = without_last_digits(size, PLACES as nat);
    let whole = decimal(seconds);
    let fraction = places_of(size);
    decimal_is_number(seconds);
    decimal_has_no_zero_in_front(seconds);
    places_are_digits(size);
    reveal_strlit(".");
    reveal_strlit("-");
    assert("."@ =~= seq!['.']);
    assert("-"@ =~= seq!['-']);
    assert(numeral(t < 0, whole, fraction, empty) =~= seconds_text(t));
}

/// How deep a document may be nested for `serde_json` to read it.
pub const READABLE_DEPTH: u64 = 127;

/// What a `serde_json::Value` holds that was made out of a document.
pub uninterp spec fn json_stored(j: JsonView) -> JsonView;

/// What `serde_json::to_string_pretty` makes of a value.
pub uninterp spec fn json_pretty(j: JsonView) -> Seq<char>;

/// Changes a `Json` into a `serde_json::Value`, variant by variant; a number is read by
/// `serde_json::from_str`. The value depends on the document alone. A plain document is kept
/// as it is, with its numbers as they are written and its entries in their order.
#[verifier::external_body]
fn to_value(j: &Json) -> (r: serde_json::Value)
    ensures
        value_view(r) == json_stored(j@),
        is_plain(j@, READABLE_DEPTH as nat) ==> value_view(r) == j@,
{
    match j {
        Json::Null => serde_json::Value::Null,
        Json::Bool(b) => serde_json::Value::Bool(*b),
        Json::Number(n) => serde_json::from_str(n).unwrap_or_default(),
        Json::Text(t) => serde_json::Value::String(t.clone()),
        Json::Array(items) => serde_json::Value::Array(items.iter().map(to_value).collect()),
        Json::Object(entries) => serde_json::Value::Object(
            entries.iter().map(|(name, value)| (name.clone(), to_value(value))).collect(),
        ),
    }
}

/// `serde_json::to_string_pretty` of a value, which cannot fail. The text depends on the
/// value alone. `serde_json::from_str` gives a plain value back.
#[verifier::external_body]
fn to_string_pretty(value: &serde_json::Value) -> (r: String)
    ensures
        r@ == json_pretty(value_view(*value)),
        is_plain(value_view(*value), READABLE_DEPTH as nat) ==> json_read(r@) == Some(
            value_view(*value),
        ),
{
    serde_json::to_string_pretty(value).unwrap_or_default()
}

/// The text of a document in a file. A plain document is read back as it is.
pub fn pretty_json(j: &Json) -> (r: String)
    ensures
        r@ == json_pretty(json_stored(j@)),
        is_plain(j@, READABLE_DEPTH as nat) ==> json_read(r@) == Some(j@),
{
    to_string_pretty(&to_value(j))
}

/// Whether no field has the name that is kept for numbers.
pub open spec fn has_ordinary_fields(list: Seq<(Seq<char>, Option<JsonView>)>) -> bool {
    forall|i: int| 0 <= i < list.len() ==> (#[trigger] list[i]).0 != NUMBER_NAME@
}

/// Whether every field that has a value has a plain one.
pub open spec fn has_plain_fields(
    list: Seq<(Seq<char>, Option<JsonView>)>,
    depth: nat,
) -> bool {
    forall|i: int|
        0 <= i < list.len() ==> ((#[trigger] list[i]).1 is Some ==> is_plain(list[i].1->0, depth))
}

/// The entries of plain fields are plain, and no two of them share a name.
pub proof fn fields_are_plain(list: Seq<(Seq<char>, Option<JsonView>)>, depth: nat)
    requires
        distinct_fields(list),
        has_ordinary_fields(list),
        has_plain_fields(list, depth),
    ensures
        is_plain(JsonView::Object(fields(list)), depth + 1),
        distinct_names(fields(list)),
        starts_ordinary(fields(list)),
        forall|i: int| 0 <= i < fields(list).len() ==> is_plain((#[trigger] fields(list)[i]).1, depth),
        forall|i: int|
            0 <= i < fields(list).len() ==> exists|k: int|
                0 <= k < list.len() && (#[trigger] fields(list)[i]).0 == (#[trigger] list[k]).0,
    decreases list.len(),
{
    if list.len() > 0 {
        let before = list.drop_last();
        let last = list.last();
        assert forall|j: int, k: int| 0 <= j < k < before.len() implies (#[trigger] before[j]).0
            != (#[trigger] before[k]).0 by {
            assert(before[j] == list[j] && before[k] == list[k]);
        }
        assert forall|i: int| 0 <= i < before.len() implies ((#[trigger] before[i]).1 is Some
            ==> is_plain(before[i].1->0, depth)) by {
            assert(before[i] == list[i]);
        }
        assert forall|i: int| 0 <= i < before.len() implies (#[trigger] before[i]).0
            != NUMBER_NAME@ by {
            assert(before[i] == list[i]);
        }
        fields_are_plain(before, depth);
        let all = fields(list);
        let n = fields(before).len();
        assert forall|i: int| 0 <= i < all.len() implies exists|k: int|
            0 <= k < list.len() && (#[trigger] all[i]).0 == (#[trigger] list[k]).0 by {
            if i < n {
                assert(all[i] == fields(before)[i]);
                let k = choose|k: int|
                    0 <= k < before.len() && fields(before)[i].0 == (#[trigger] before[k]).0;
                assert(before[k] == list[k]);
            } else {
                assert(all[i].0 == list[list.len() - 1].0);
            }
        }
        assert forall|i: int| 0 <= i < all.len() implies is_plain((#[trigger] all[i]).1, depth) by {
            if i < n {
                assert(all[i] == fields(before)[i]);
            } else {
                assert(list[list.len() - 1] == last);
            }
        }
        assert forall|i: int, k: int| 0 <= i < k < all.len() implies (#[trigger] all[i]).0 != (
        #[trigger] all[k]).0 by {
            assert(all[i] == fields(before)[i]);
            if k < n {
                assert(all[k] == fields(before)[k]);
            } else {
                let m = choose|m: int|
                    0 <= m < before.len() && fields(before)[i].0 == (#[trigger] before[m]).0;
                assert(before[m] == list[m]);
                assert(list[m].0 != list[list.len() - 1].0);
            }
        }
        if all.len() > 0 {
            let k = choose|k: int|
                0 <= k < list.len() && all[0].0 == (#[trigger] list[k]).0;
            assert(list[k].0 != NUMBER_NAME@);
        }
    }
}

// ------------------------------------------------------------------------ writing

/// What `serde_json::to_string` makes of a value.
pub uninterp spec fn json_compact(j: JsonView) -> Seq<char>;

/// `serde_json::to_string` of a value, which cannot fail. The text depends on the value
/// alone. `serde_json::from_str` gives a plain value back.
#[verifier::external_body]
fn to_string(value: &serde_json::Value) -> (r: String)
    ensures
        r@ == json_compact(value_view(*value)),
        is_plain(value_view(*value), READABLE_DEPTH as nat) ==> json_read(r@) == Some(
            value_view(*value),
        ),
{
    serde_json::to_string(value).unwrap_or_default()
}

/// The compact JSON text of a document.
pub open spec fn json_written(j: JsonView) -> Seq<char> {
    json_compact(json_stored(j))
}

/// The compact JSON text of a document. A plain document is read back as it is.
pub fn write_json(j: &Json) -> (r: String)
    ensures
        r@ == json_written(j@),
        is_plain(j@, READABLE_DEPTH as nat) ==> json_read(r@) == Some(j@),
{
    to_string(&to_value(j))
}

/// A member is found by its name: the first one of that name.
pub proof fn the_first_of_its_name_is_found(entries: Seq<(Seq<char>, JsonView)>, i: int)
    requires
        0 <= i < entries.len(),
        forall|k: int| 0 <= k < i ==> (#[trigger] entries[k]).0 != entries[i].0,
    ensures
        entry_of(entries, entries[i].0) == Some(entries[i].1),
        JsonView::Object(entries).get(entries[i].0) == Some(entries[i].1),
    decreases entries.len(),
{
    if i > 0 {
        assert(entries[0].0 != entries[i].0);
        let rest = entries.drop_first();
        assert(rest[i - 1] == entries[i]);
        assert forall|k: int| 0 <= k < i - 1 implies (#[trigger] rest[k]).0 != rest[i - 1].0 by {
            assert(rest[k] == entries[k + 1]);
        }
        the_first_of_its_name_is_found(rest, i - 1);
    }
}

/// Where names differ, every member is found by its own.
pub proof fn every_member_is_found(entries: Seq<(Seq<char>, JsonView)>, i: int)
    requires
        0 <= i < entries.len(),
        distinct_names(entries),
    ensures
        entry_of(entries, entries[i].0) == Some(entries[i].1),
{
    assert forall|k: int| 0 <= k < i implies (#[trigger] entries[k]).0 != entries[i].0 by {}
    the_first_of_its_name_is_found(entries, i);
}

} // verus!
