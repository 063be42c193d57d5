//! The history of transcripts: newest first, and never more than it may hold.
use vstd::prelude::*;
use crate::json::{
    Json, JsonView, NUMBER_NAME, READABLE_DEPTH, array, distinct_names, entry, entry_of, entry_of_both,
    entry_of_one, is_plain, json_list, json_pretty, json_read, json_stored, new_entries, object,
    opt_json, parse_json, pretty_json, put, put_text, text_value,
};
use crate::moment::{MILLIS_FORM, is_moment, timestamp};
use crate::text::{copy_opt, is_digit, opt_text, same};

verus! {

/// How many transcripts are kept.
pub const HISTORY_LIMIT: usize = 500;

#[derive(Debug)]
pub struct Transcript {
    pub id: String,
    pub text: String,
    pub created_at: String,
    pub source: Option<String>,
}

#[verifier::ext_equal]
pub struct TranscriptView {
    pub id: Seq<char>,
    pub text: Seq<char>,
    pub created_at: Seq<char>,
    pub source: Option<Seq<char>>,
}

impl View for Transcript {
    type V = TranscriptView;

    open spec fn view(&self) -> TranscriptView {
        TranscriptView {
            id: self.id@,
            text: self.text@,
            created_at: self.created_at@,
            source: opt_text(self.source),
        }
    }
}

pub open spec fn history_view(history: Seq<Transcript>) -> Seq<TranscriptView> {
    Seq::new(history.len(), |i: int| history[i]@)
}

/// Whether a text is a random UUID in its usual form: groups of hexadecimal digits with
/// hyphens between them, and the version four.
pub open spec fn is_uuid(id: Seq<char>) -> bool {
    &&& id.len() == 36
    &&& forall|i: int|
        0 <= i < 36 ==> if i == 8 || i == 13 || i == 18 || i == 23 {
            #[trigger] id[i] == '-'
        } else {
            is_digit(id[i]) || 'a' <= id[i] <= 'f'
        }
    &&& id[14] == '4'
}

/// `uuid::Uuid::new_v4`, in its usual form, whichever id is drawn.
#[verifier::external_body]
fn new_id() -> (r: String)
    ensures
        is_uuid(r@),
{
    uuid::Uuid::new_v4().to_string()
}

/// The history with one more transcript in front, cut to what it may hold.
pub open spec fn recorded(history: Seq<TranscriptView>, item: TranscriptView) -> Seq<
    TranscriptView,
> {
    let all = seq![item] + history;
    if all.len() > HISTORY_LIMIT {
        all.take(HISTORY_LIMIT as int)
    } else {
        all
    }
}

/// The history without the transcripts of an id.
pub open spec fn without_id(history: Seq<TranscriptView>, id: Seq<char>) -> Seq<TranscriptView>
    decreases history.len(),
{
    if history.len() == 0 {
        history
    } else {
        let before = without_id(history.drop_last(), id);
        if history.last().id == id {
            before
        } else {
            before.push(history.last())
        }
    }
}

pub open spec fn has_id(history: Seq<TranscriptView>, id: Seq<char>) -> bool {
    exists|i: int| 0 <= i < history.len() && (#[trigger] history[i]).id == id
}

/// Puts a transcript in front of the history.
pub fn record(history: Vec<Transcript>, item: Transcript) -> (r: Vec<Transcript>)
    ensures
        history_view(r@) == recorded(history_view(history@), item@),
{
    let ghost before = history_view(history@);
    let ghost added = item@;
    let mut r = history;
    let mut front: Vec<Transcript> = Vec::new();
    front.push(item);
    front.append(&mut r);
    assert(history_view(front@) =~= seq![added] + before);
    if front.len() > HISTORY_LIMIT {
        front.truncate(HISTORY_LIMIT);
        assert(history_view(front@) =~= (seq![added] + before).take(HISTORY_LIMIT as int));
    }
    front
}

/// Makes a transcript of a text, now, under a new id.
pub fn new_transcript(text: &str, source: &str) -> (r: Transcript)
    ensures
        r.text@ == text@,
        opt_text(r.source) == Some(source@),
        is_uuid(r.id@),
        is_moment(r.created_at@, MILLIS_FORM@),
{
    Transcript {
        id: new_id(),
        text: text.to_owned(),
        created_at: timestamp(),
        source: Some(source.to_owned()),
    }
}

/// A copy of a transcript.
fn copy_transcript(item: &Transcript) -> (r: Transcript)
    ensures
        r@ == item@,
{
    Transcript {
        id: item.id.clone(),
        text: item.text.clone(),
        created_at: item.created_at.clone(),
        source: copy_opt(&item.source),
    }
}

/// Saves a text: the history with a new transcript in front, and that transcript.
pub fn save_transcript(history: Vec<Transcript>, text: &str, source: &str) -> (r: (
    Vec<Transcript>,
    Transcript,
))
    ensures
        history_view(r.0@) == recorded(history_view(history@), r.1@),
        r.1@.text == text@,
        r.1@.source == Some(source@),
        is_uuid(r.1@.id),
        is_moment(r.1@.created_at, MILLIS_FORM@),
{
    let item = new_transcript(text, source);
    let kept = copy_transcript(&item);
    (record(history, item), kept)
}

/// Removes a transcript. `None` means it was already gone, and nothing changes.
pub fn delete_transcript(history: Vec<Transcript>, id: &str) -> (r: Option<Vec<Transcript>>)
    ensures
        match r {
            Some(rest) => has_id(history_view(history@), id@) && history_view(rest@) == without_id(
                history_view(history@),
                id@,
            ),
            None => !has_id(history_view(history@), id@),
        },
{
    let ghost all = history_view(history@);
    let mut rest: Vec<Transcript> = Vec::new();
    let mut found: bool = false;
    let mut i: usize = 0;
    assert(history_view(rest@) =~= without_id(all.take(0), id@));
    while i < history.len()
        invariant
            i <= history.len(),
            all == history_view(history@),
            history_view(rest@) == without_id(all.take(i as int), id@),
            found == has_id(all.take(i as int), id@),
        decreases history.len() - i,
    {
        assert(all.take(i + 1).drop_last() == all.take(i as int));
        assert(all.take(i + 1).last() == history@[i as int]@);
        assert(has_id(all.take(i + 1), id@) == (has_id(all.take(i as int), id@)
            || history@[i as int].id@ == id@)) by {
            if history@[i as int].id@ == id@ {
                assert(all.take(i + 1)[i as int].id == id@);
            }
            if has_id(all.take(i as int), id@) {
                let k = choose|k: int|
                    0 <= k < all.take(i as int).len() && (#[trigger] all.take(i as int)[k]).id
                        == id@;
                assert(all.take(i + 1)[k].id == id@);
            }
            if has_id(all.take(i + 1), id@) {
                let k = choose|k: int|
                    0 <= k < all.take(i + 1).len() && (#[trigger] all.take(i + 1)[k]).id == id@;
                if k < i {
                    assert(all.take(i as int)[k].id == id@);
                }
            }
        }
        if same(history[i].id.as_str(), id) {
            found = true;
        } else {
            let ghost before = history_view(rest@);
            rest.push(copy_transcript(&history[i]));
            assert(history_view(rest@) =~= before.push(history@[i as int]@));
        }
        i = i + 1;
    }
    assert(all.take(i as int) == all);
    if found {
        Some(rest)
    } else {
        None
    }
}

// ----------------------------------------------------------------------- the file

/// A transcript as it is written.
pub open spec fn transcript_json(t: TranscriptView) -> JsonView {
    JsonView::Object(
        Seq::empty().push(("id"@, JsonView::Text(t.id))).push(("text"@, JsonView::Text(t.text))).push(
            ("createdAt"@, JsonView::Text(t.created_at)),
        ) + entry(
            "source"@,
            match t.source {
                Some(source) => Some(JsonView::Text(source)),
                None => None,
            },
        ),
    )
}

pub open spec fn history_json(history: Seq<TranscriptView>) -> JsonView {
    JsonView::Array(Seq::new(history.len(), |i: int| transcript_json(history[i])))
}

/// The source of a transcript as it is read. `None` where it is no text.
pub open spec fn source_in(value: Option<JsonView>) -> Option<Option<Seq<char>>> {
    match value {
        None => Some(None),
        Some(JsonView::Null) => Some(None),
        Some(JsonView::Text(source)) => Some(Some(source)),
        _ => None,
    }
}

/// A transcript as it is read: an object by its names, or a list in their order.
pub open spec fn transcript_in(j: JsonView) -> Option<TranscriptView> {
    let (id, text, created_at, source) = match j {
        JsonView::Array(items) => if 3 <= items.len() <= 4 {
            (
                items[0].as_text(),
                items[1].as_text(),
                items[2].as_text(),
                source_in(
                    if items.len() == 4 {
                        Some(items[3])
                    } else {
                        None
                    },
                ),
            )
        } else {
            (None, None, None, None)
        },
        _ => (
            j.text_at("id"@),
            j.text_at("text"@),
            j.text_at("createdAt"@),
            source_in(j.get("source"@)),
        ),
    };
    match (id, text, created_at, source) {
        (Some(id), Some(text), Some(created_at), Some(source)) => Some(
            TranscriptView { id, text, created_at, source },
        ),
        _ => None,
    }
}

/// The transcripts of a file. `None` where it holds anything else.
pub open spec fn history_in(j: JsonView) -> Option<Seq<TranscriptView>> {
    match j {
        JsonView::Array(items) => if forall|i: int|
            0 <= i < items.len() ==> transcript_in(#[trigger] items[i]) is Some {
            Some(Seq::new(items.len(), |i: int| transcript_in(items[i])->0))
        } else {
            None
        },
        _ => None,
    }
}

fn write_transcript(t: &Transcript) -> (r: Json)
    ensures
        r@ == transcript_json(t@),
{
    let mut entries = new_entries();
    put(&mut entries, "id", text_value(t.id.as_str()));
    put(&mut entries, "text", text_value(t.text.as_str()));
    put(&mut entries, "createdAt", text_value(t.created_at.as_str()));
    put_text(&mut entries, "source", &t.source);
    object(entries)
}

/// The history as the document it is saved as.
pub fn write_history(history: &Vec<Transcript>) -> (r: Json)
    ensures
        r@ == history_json(history_view(history@)),
{
    let mut items: Vec<Json> = Vec::new();
    let mut i: usize = 0;
    while i < history.len()
        invariant
            i <= history.len(),
            items.len() == i,
            forall|k: int| 0 <= k < i ==> (#[trigger] items@[k])@ == transcript_json(history@[k]@),
        decreases history.len() - i,
    {
        items.push(write_transcript(&history[i]));
        i = i + 1;
    }
    let r = array(items);
    assert(r@->Array_0 =~= history_json(history_view(history@))->Array_0);
    r
}

fn read_source(value: Option<&Json>) -> (r: Option<Option<String>>)
    ensures
        match r {
            Some(source) => source_in(opt_json(value)) == Some(opt_text(source)),
            None => source_in(opt_json(value)) is None,
        },
{
    match value {
        None => Some(None),
        Some(Json::Null) => Some(None),
        Some(Json::Text(source)) => Some(Some(source.clone())),
        Some(_) => None,
    }
}

fn read_transcript(j: &Json) -> (r: Option<Transcript>)
    ensures
        match r {
            Some(t) => transcript_in(j@) == Some(t@),
            None => transcript_in(j@) is None,
        },
{
    let (id, text, created_at, source) = match j {
        Json::Array(items) => {
            assert(j@->Array_0 =~= json_list(items@));
            if items.len() < 3 || items.len() > 4 {
                return None;
            }
            let last: Option<&Json> = if items.len() == 4 {
                Some(&items[3])
            } else {
                None
            };
            (items[0].as_text(), items[1].as_text(), items[2].as_text(), read_source(last))
        },
        _ => (
            j.text_at("id"),
            j.text_at("text"),
            j.text_at("createdAt"),
            read_source(j.get("source")),
        ),
    };
    match (id, text, created_at, source) {
        (Some(id), Some(text), Some(created_at), Some(source)) => Some(
            Transcript {
                id: id.clone(),
                text: text.clone(),
                created_at: created_at.clone(),
                source,
            },
        ),
        _ => None,
    }
}

/// The transcripts of a document. `None` where it holds anything else.
pub fn read_history(j: &Json) -> (r: Option<Vec<Transcript>>)
    ensures
        match r {
            Some(history) => history_in(j@) == Some(history_view(history@)),
            None => history_in(j@) is None,
        },
{
    match j {
        Json::Array(items) => {
            let ghost all = j@->Array_0;
            let mut history: Vec<Transcript> = Vec::new();
            let mut i: usize = 0;
            while i < items.len()
                invariant
                    i <= items.len(),
                    *j is Array,
                    *items == j->Array_0,
                    all == j@->Array_0,
                    all.len() == items.len(),
                    history.len() == i,
                    forall|k: int|
                        0 <= k < i ==> transcript_in(#[trigger] all[k]) == Some(history@[k]@),
                decreases items.len() - i,
            {
                match read_transcript(&items[i]) {
                    Some(t) => {
                        history.push(t);
                    },
                    None => {
                        assert(transcript_in(all[i as int]) is None);
                        return None;
                    },
                }
                i = i + 1;
            }
            assert(history_in(j@)->0 =~= history_view(history@));
            Some(history)
        },
        _ => None,
    }
}

/// The history in the text of a file. A file that cannot be read is an empty one.
pub open spec fn loaded_history(text: Seq<char>) -> Seq<TranscriptView> {
    match json_read(text) {
        Some(j) => match history_in(j) {
            Some(history) => history,
            None => Seq::<TranscriptView>::empty(),
        },
        None => Seq::<TranscriptView>::empty(),
    }
}

pub fn load_history(text: &str) -> (r: Vec<Transcript>)
    ensures
        history_view(r@) == loaded_history(text@),
{
    let loaded = match parse_json(text) {
        Some(j) => read_history(&j),
        None => None,
    };
    match loaded {
        Some(history) => history,
        None => {
            let empty: Vec<Transcript> = Vec::new();
            assert(history_view(empty@) =~= Seq::<TranscriptView>::empty());
            empty
        },
    }
}

// --------------------------------------------------------------------------- laws

proof fn transcript_survives(t: TranscriptView)
    ensures
        transcript_in(transcript_json(t)) == Some(t),
{
    reveal_strlit("id");
    reveal_strlit("text");
    reveal_strlit("createdAt");
    reveal_strlit("source");
    assert("id"@.len() != "text"@.len());
    assert("id"@.len() != "createdAt"@.len());
    assert("id"@.len() != "source"@.len());
    assert("text"@.len() != "createdAt"@.len());
    assert("text"@.len() != "source"@.len());
    assert("createdAt"@.len() != "source"@.len());
    let e0 = Seq::<(Seq<char>, JsonView)>::empty();
    let source = match t.source {
        Some(source) => Some(JsonView::Text(source)),
        None => None,
    };
    let es = entry("source"@, source);
    let i = seq![("id"@, JsonView::Text(t.id))];
    let x = seq![("text"@, JsonView::Text(t.text))];
    let c = seq![("createdAt"@, JsonView::Text(t.created_at))];
    assert(i =~= entry("id"@, Some(JsonView::Text(t.id))));
    assert(x =~= entry("text"@, Some(JsonView::Text(t.text))));
    assert(c =~= entry("createdAt"@, Some(JsonView::Text(t.created_at))));
    let all = i + x + c + es;
    assert(transcript_json(t)->Object_0 =~= all);
    assert forall|name: Seq<char>| #[trigger]
        entry_of(all, name) == (if name == "id"@ {
            Some(JsonView::Text(t.id))
        } else if name == "text"@ {
            Some(JsonView::Text(t.text))
        } else if name == "createdAt"@ {
            Some(JsonView::Text(t.created_at))
        } else if name == "source"@ {
            source
        } else {
            None
        }) by {
        entry_of_one("id"@, Some(JsonView::Text(t.id)), name);
        entry_of_one("text"@, Some(JsonView::Text(t.text)), name);
        entry_of_one("createdAt"@, Some(JsonView::Text(t.created_at)), name);
        entry_of_one("source"@, source, name);
        entry_of_both(i, x, name);
        entry_of_both(i + x, c, name);
        entry_of_both(i + x + c, es, name);
    }
    let j = transcript_json(t);
    assert(j.get("id"@) == entry_of(all, "id"@));
    assert(j.get("text"@) == entry_of(all, "text"@));
    assert(j.get("createdAt"@) == entry_of(all, "createdAt"@));
    assert(j.get("source"@) == entry_of(all, "source"@));
}

/// What is read back of a history that was written is that history.
pub proof fn history_survives_being_saved(history: Seq<TranscriptView>)
    ensures
        history_in(history_json(history)) == Some(history),
{
    let items = history_json(history)->Array_0;
    assert forall|i: int| 0 <= i < items.len() implies transcript_in(#[trigger] items[i]) == Some(
        history[i],
    ) by {
        transcript_survives(history[i]);
    }
    assert(history_in(history_json(history))->0 =~= history);
}

/// A history is a plain document: whatever it holds, its text is read back.
proof fn history_is_plain(history: Seq<TranscriptView>)
    ensures
        is_plain(history_json(history), READABLE_DEPTH as nat),
{
    let items = history_json(history)->Array_0;
    assert forall|i: int| 0 <= i < items.len() implies is_plain(
        #[trigger] items[i],
        (READABLE_DEPTH - 1) as nat,
    ) by {
        let t = history[i];
        assert(items[i] == transcript_json(t));
        reveal_strlit("id");
        reveal_strlit("text");
        reveal_strlit("createdAt");
        reveal_strlit("source");
        assert("id"@.len() != "text"@.len());
        assert("id"@.len() != "createdAt"@.len());
        assert("id"@.len() != "source"@.len());
        assert("text"@.len() != "createdAt"@.len());
        assert("text"@.len() != "source"@.len());
        assert("createdAt"@.len() != "source"@.len());
        reveal_strlit("$serde_json::private::Number");
        assert("id"@.len() != NUMBER_NAME@.len());
        let entries = transcript_json(t)->Object_0;
        assert(entries[0] == ("id"@, JsonView::Text(t.id)));
        assert(entries[1] == ("text"@, JsonView::Text(t.text)));
        assert(entries[2] == ("createdAt"@, JsonView::Text(t.created_at)));
        assert(t.source is Some ==> entries.len() == 4 && entries[3] == (
            "source"@,
            JsonView::Text(t.source->0),
        ));
        assert(t.source is None ==> entries.len() == 3);
        assert forall|k: int| 0 <= k < entries.len() implies is_plain(
            (#[trigger] entries[k]).1,
            (READABLE_DEPTH - 2) as nat,
        ) by {
            assert(k == 0 || k == 1 || k == 2 || k == 3);
        }
        assert(distinct_names(entries));
    }
}

/// The text that a history is saved as. What is loaded out of it is that history, whatever
/// it holds.
pub fn history_text(history: &Vec<Transcript>) -> (r: String)
    ensures
        r@ == json_pretty(json_stored(history_json(history_view(history@)))),
        loaded_history(r@) == history_view(history@),
{
    proof {
        history_is_plain(history_view(history@));
        history_survives_being_saved(history_view(history@));
    }
    pretty_json(&write_history(history))
}

/// The history never grows beyond its limit, whatever it held before.
pub proof fn history_stays_bounded(history: Seq<TranscriptView>, item: TranscriptView)
    ensures
        recorded(history, item).len() <= HISTORY_LIMIT,
{
}

/// The newest transcript stands first, and the others keep their order behind it.
pub proof fn the_newest_comes_first(history: Seq<TranscriptView>, item: TranscriptView, i: int)
    requires
        0 <= i < recorded(history, item).len(),
    ensures
        recorded(history, item)[i] == if i == 0 {
            item
        } else {
            history[i - 1]
        },
{
}

/// Deleting removes exactly the transcripts of that id: none of them is left, and every
/// other one still is.
pub proof fn deleting_removes_that_id_alone(
    history: Seq<TranscriptView>,
    id: Seq<char>,
    item: TranscriptView,
)
    ensures
        without_id(history, id).contains(item) <==> history.contains(item) && item.id != id,
    decreases history.len(),
{
    if history.len() > 0 {
        let shorter = history.drop_last();
        deleting_removes_that_id_alone(shorter, id, item);
        let before = without_id(shorter, id);
        assert(history == shorter.push(history.last()));
        assert(history.contains(item) == (shorter.contains(item) || history.last() == item)) by {
            if shorter.contains(item) {
                let k = choose|k: int| 0 <= k < shorter.len() && shorter[k] == item;
                assert(history[k] == item);
            }
            if history.last() == item {
                assert(history[history.len() - 1] == item);
            }
        }
        if history.last().id != id {
            let after = before.push(history.last());
            assert(after.contains(item) == (before.contains(item) || history.last() == item)) by {
                if before.contains(item) {
                    let k = choose|k: int| 0 <= k < before.len() && before[k] == item;
                    assert(after[k] == item);
                }
                if history.last() == item {
                    assert(after[after.len() - 1] == item);
                }
            }
        }
    }
}

/// Deleting keeps all the others, in their order.
pub proof fn deleting_keeps_the_order(history: Seq<TranscriptView>, id: Seq<char>)
    ensures
        without_id(history, id) == history.filter(|t: TranscriptView| t.id != id),
    decreases history.len(),
{
    reveal(Seq::filter);
    if history.len() > 0 {
        deleting_keeps_the_order(history.drop_last(), id);
    }
}

/// Nothing is dropped before the limit is reached, and then the oldest alone.
pub proof fn only_the_oldest_is_dropped(history: Seq<TranscriptView>, item: TranscriptView)
    requires
        history.len() <= 500,
    ensures
        recorded(history, item).len() == (if history.len() < 500 {
            history.len() + 1
        } else {
            500
        }),
        recorded(history, item)[0] == item,
        recorded(history, item).skip(1) == (if history.len() < 500 {
            history
        } else {
            history.drop_last()
        }),
{
    assert(recorded(history, item).skip(1) =~= (if history.len() < 500 {
        history
    } else {
        history.drop_last()
    }));
}

/// A saved transcript holds each of its fields under that field's name, and no source where it
/// has none.
pub proof fn a_saved_transcript_names_its_fields(t: TranscriptView)
    ensures
        transcript_json(t).get("id"@) == Some(JsonView::Text(t.id)),
        transcript_json(t).get("text"@) == Some(JsonView::Text(t.text)),
        transcript_json(t).get("createdAt"@) == Some(JsonView::Text(t.created_at)),
        transcript_json(t).get("source"@) == (match t.source {
            Some(source) => Some(JsonView::Text(source)),
            None => None,
        }),
{
    reveal_strlit("id");
    reveal_strlit("text");
    reveal_strlit("createdAt");
    reveal_strlit("source");
    assert("id"@.len() == 2 && "text"@.len() == 4 && "createdAt"@.len() == 9 && "source"@.len()
        == 6);
    let source = match t.source {
        Some(source) => Some(JsonView::Text(source)),
        None => None,
    };
    let head = Seq::empty().push(("id"@, JsonView::Text(t.id))).push(
        ("text"@, JsonView::Text(t.text)),
    ).push(("createdAt"@, JsonView::Text(t.created_at)));
    let tail = entry("source"@, source);
    assert(head.drop_first().drop_first().drop_first() =~= Seq::<(Seq<char>, JsonView)>::empty());
    reveal_with_fuel(entry_of, 4);
    entry_of_one("source"@, source, "source"@);
    entry_of_both(head, tail, "id"@);
    entry_of_both(head, tail, "text"@);
    entry_of_both(head, tail, "createdAt"@);
    entry_of_both(head, tail, "source"@);
}

} // verus!
