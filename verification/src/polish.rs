//! Text rewriting through chat completions: auto-polish before paste, the selected-text
//! polish shortcut, and the focused-input spell fix.
use vstd::prelude::*;
use crate::chat::{
    ChatRequest, chat_error, chat_failure, chat_messages, content_of, is_success, messages,
    reply_content, succeeded, the_question_is_asked_by_the_user,
};
use crate::config::{Config, DEFAULT_POLISH_MODEL, Provider, setting_or};
use crate::json::{Json, JsonView, entry_of, new_entries, object, put, text_value};
use crate::text::{
    chars_of, is_space, is_whitespace, opt_text, same, string_of, trim, trim_back, trim_back_by,
    trim_back_is_take, trim_both, trim_both_by, trim_front, trim_front_is_skip, trimmed,
};

verus! {

#[derive(Debug, Clone, Copy, PartialEq, Eq, Structural)]
pub enum RewriteMode {
    Clean,
    Spell,
    Polish,
    Professional,
    Shorter,
    Friendly,
}

impl RewriteMode {
    pub open spec fn named(name: Seq<char>) -> Option<RewriteMode> {
        if name == "clean"@ {
            Some(RewriteMode::Clean)
        } else if name == "spell"@ {
            Some(RewriteMode::Spell)
        } else if name == "polish"@ {
            Some(RewriteMode::Polish)
        } else if name == "professional"@ {
            Some(RewriteMode::Professional)
        } else if name == "shorter"@ {
            Some(RewriteMode::Shorter)
        } else if name == "friendly"@ {
            Some(RewriteMode::Friendly)
        } else {
            None
        }
    }

    pub fn from_name(name: &str) -> (r: Option<RewriteMode>)
        ensures
            r == RewriteMode::named(name@),
    {
        if same(name, "clean") {
            Some(RewriteMode::Clean)
        } else if same(name, "spell") {
            Some(RewriteMode::Spell)
        } else if same(name, "polish") {
            Some(RewriteMode::Polish)
        } else if same(name, "professional") {
            Some(RewriteMode::Professional)
        } else if same(name, "shorter") {
            Some(RewriteMode::Shorter)
        } else if same(name, "friendly") {
            Some(RewriteMode::Friendly)
        } else {
            None
        }
    }

    pub open spec fn asks(self) -> Seq<char> {
        match self {
            RewriteMode::Clean => "Clean up dictation artifacts, punctuation, grammar, and structure. Preserve the speaker's meaning."@,
            RewriteMode::Spell => "Correct spelling mistakes, capitalization, and obvious punctuation only. Do not rewrite, summarize, translate, change wording, or alter the tone."@,
            RewriteMode::Polish => "Polish this written text. Fix grammar, punctuation, spelling, clarity, and sentence flow while preserving the original voice, tone, and meaning. Do not make it more formal unless needed."@,
            RewriteMode::Professional => "Rewrite the text to sound clear, polished, and professional. Preserve the meaning."@,
            RewriteMode::Shorter => "Make the text shorter and punchier. Preserve the core meaning."@,
            RewriteMode::Friendly => "Rewrite the text to sound warm, friendly, and natural. Preserve the meaning."@,
        }
    }

    /// What the model is asked to do. The spell instruction is deliberately narrow: it
    /// replaces the user's whole input field, so it must not reword anything.
    pub fn instruction(&self) -> (r: &'static str)
        ensures
            r@ == self.asks(),
    {
        match self {
            RewriteMode::Clean => "Clean up dictation artifacts, punctuation, grammar, and structure. Preserve the speaker's meaning.",
            RewriteMode::Spell => "Correct spelling mistakes, capitalization, and obvious punctuation only. Do not rewrite, summarize, translate, change wording, or alter the tone.",
            RewriteMode::Polish => "Polish this written text. Fix grammar, punctuation, spelling, clarity, and sentence flow while preserving the original voice, tone, and meaning. Do not make it more formal unless needed.",
            RewriteMode::Professional => "Rewrite the text to sound clear, polished, and professional. Preserve the meaning.",
            RewriteMode::Shorter => "Make the text shorter and punchier. Preserve the core meaning.",
            RewriteMode::Friendly => "Rewrite the text to sound warm, friendly, and natural. Preserve the meaning.",
        }
    }
}

// ------------------------------------------------------------------------ tidying

/// The punctuation that takes no space before it.
pub open spec fn is_mark(c: char) -> bool {
    c == ',' || c == '.' || c == ':' || c == ';' || c == '!' || c == '?'
}

/// What is trimmed off the ends of dictation.
pub open spec fn is_edge(c: char) -> bool {
    is_space(c) || is_mark(c) || c == '-'
}

/// `s` with its runs of white space made one space, and none left before punctuation.
pub open spec fn spaced(s: Seq<char>) -> Seq<char>
    decreases s.len(),
{
    if s.len() == 0 {
        s
    } else {
        let before = spaced(s.drop_last());
        let c = s.last();
        if is_mark(c) {
            trim_back(before, |x: char| is_space(x)).push(c)
        } else if is_space(c) {
            if before.len() > 0 && before.last() == ' ' {
                before
            } else {
                before.push(' ')
            }
        } else {
            before.push(c)
        }
    }
}

/// Dictation, tidied: single spaces, none before punctuation, no stray punctuation at the
/// ends.
pub open spec fn tidied(s: Seq<char>) -> Seq<char> {
    trim_both(spaced(s), |c: char| is_edge(c))
}

fn mark(c: char) -> (r: bool)
    ensures
        r == is_mark(c),
{
    c == ',' || c == '.' || c == ':' || c == ';' || c == '!' || c == '?'
}

fn edge(c: char) -> (r: bool)
    ensures
        r == is_edge(c),
{
    is_whitespace(c) || mark(c) || c == '-'
}

/// Tidies dictation output before it is pasted or sent for rewriting: drops spaces before
/// punctuation, collapses runs of white space, trims stray edge punctuation.
pub fn normalize_transcript_text(text: &str) -> (r: String)
    ensures
        r@ == tidied(text@),
{
    let v = chars_of(text);
    let mut out: Vec<char> = Vec::new();
    let mut i: usize = 0;
    while i < v.len()
        invariant
            i <= v.len(),
            v@ == text@,
            out@ == spaced(v@.take(i as int)),
        decreases v.len() - i,
    {
        let c = v[i];
        assert(v@.take(i + 1).drop_last() == v@.take(i as int));
        assert(v@.take(i + 1).last() == c);
        if mark(c) {
            let end = trim_back_by(&out, is_whitespace, Ghost(|x: char| is_space(x)));
            out.truncate(end);
            out.push(c);
        } else if is_whitespace(c) {
            if !(out.len() > 0 && out[out.len() - 1] == ' ') {
                out.push(' ');
            }
        } else {
            out.push(c);
        }
        i = i + 1;
    }
    assert(v@.take(i as int) == v@);
    let r = trim_both_by(&out, edge, Ghost(|c: char| is_edge(c)));
    string_of(&r)
}

// ---------------------------------------------------------------------- rewriting

pub open spec fn rewrite_system() -> Seq<char> {
    "You are a dictation cleanup engine. Return only the rewritten text, with no explanation."@
}

pub open spec fn rewrite_body(model: Seq<char>, input: Seq<char>, mode: RewriteMode) -> JsonView {
    JsonView::Object(
        seq![
            ("model"@, JsonView::Text(model)),
            ("temperature"@, JsonView::Number("0.2"@)),
            (
                "messages"@,
                chat_messages(rewrite_system(), mode.asks() + "\n\nText:\n"@ + input),
            ),
        ],
    )
}

/// The request that rewrites a text, or why there is none: nothing to rewrite, or no key.
pub fn rewrite_request(text: &str, config: &Config, mode: RewriteMode) -> (r: Result<
    ChatRequest,
    String,
>)
    ensures
        match r {
            Ok(request) => {
                &&& tidied(text@).len() > 0
                &&& config.has_key(Provider::Groq)
                &&& config.key(Provider::Groq) == Some(request.key@)
                &&& request.body@ == rewrite_body(
                    setting_or(config.polish_model, DEFAULT_POLISH_MODEL@),
                    tidied(text@),
                    mode,
                )
            },
            Err(e) => if tidied(text@).len() == 0 {
                e@ == "Nothing to rewrite yet."@
            } else {
                !config.has_key(Provider::Groq) && e@
                    == "Rewriting needs a Groq API key. Run: wisper polish on"@
            },
        },
{
    let input = normalize_transcript_text(text);
    if input.as_str().is_empty() {
        return Err("Nothing to rewrite yet.".to_owned());
    }
    let key = match config.usable_key(Provider::Groq) {
        Some(key) => key,
        None => {
            return Err("Rewriting needs a Groq API key. Run: wisper polish on".to_owned());
        },
    };
    let user = mode.instruction().to_owned().concat("\n\nText:\n").concat(input.as_str());
    let mut entries = new_entries();
    put(&mut entries, "model", text_value(config.polish_model_or_default()));
    put(&mut entries, "temperature", Json::Number("0.2".to_owned()));
    put(
        &mut entries,
        "messages",
        messages(
            "You are a dictation cleanup engine. Return only the rewritten text, with no explanation.",
            user.as_str(),
        ),
    );
    let body = object(entries);
    assert(body@->Object_0 =~= rewrite_body(
        setting_or(config.polish_model, DEFAULT_POLISH_MODEL@),
        tidied(text@),
        mode,
    )->Object_0);
    Ok(ChatRequest { key, body })
}

/// What a reply to a rewrite request gives.
pub fn rewrite_reply(status: u16, payload: &Json) -> (r: Result<String, String>)
    ensures
        match r {
            Ok(text) => is_success(status) && text@ == trimmed(reply_content(payload@)) && text@.len()
                > 0,
            Err(e) => if is_success(status) {
                trimmed(reply_content(payload@)).len() == 0 && e@
                    == "Groq returned an empty rewrite."@
            } else {
                e@ == chat_failure(payload@, status, "Groq rewrite"@)
            },
        },
{
    if !succeeded(status) {
        return Err(chat_error(payload, status, "Groq rewrite"));
    }
    let rewritten = trim(content_of(payload).as_str());
    if rewritten.as_str().is_empty() {
        return Err("Groq returned an empty rewrite.".to_owned());
    }
    Ok(rewritten)
}

/// Whether dictation is sent for rewriting before it is pasted.
pub fn polishes_dictation(config: &Config) -> (r: bool)
    ensures
        r == (config.auto_polish == Some(true)),
{
    config.auto_polish == Some(true)
}

/// What is pasted: the polished text, or the tidied transcript where polishing was off,
/// failed, or came back blank. A polish failure never costs the user their dictation.
pub open spec fn pasted(text: Seq<char>, polished: Option<Seq<char>>) -> Seq<char> {
    match polished {
        Some(p) => if trimmed(p).len() > 0 {
            p
        } else {
            tidied(text)
        },
        None => tidied(text),
    }
}

pub fn dictation_text(text: &str, polished: Option<String>) -> (r: String)
    ensures
        r@ == pasted(text@, opt_text(polished)),
{
    if let Some(p) = polished {
        if !trim(p.as_str()).as_str().is_empty() {
            return p;
        }
    }
    normalize_transcript_text(text)
}

// --------------------------------------------------------------------------- laws

/// Whether every white space in `s` is a single space, and none stands before punctuation.
pub open spec fn is_spaced(s: Seq<char>) -> bool {
    &&& forall|i: int| 0 <= i < s.len() && is_space(#[trigger] s[i]) ==> s[i] == ' '
    &&& forall|i: int|
        0 <= i < s.len() - 1 && #[trigger] s[i] == ' ' ==> s[i + 1] != ' ' && !is_mark(s[i + 1])
}

proof fn spacing_is_spaced(s: Seq<char>)
    ensures
        is_spaced(spaced(s)),
    decreases s.len(),
{
    if s.len() > 0 {
        spacing_is_spaced(s.drop_last());
        let before = spaced(s.drop_last());
        let p = |x: char| is_space(x);
        trim_back_is_take(before, p);
        let cut = trim_back(before, p);
        let all = spaced(s);
        assert forall|i: int| 0 <= i < all.len() && is_space(#[trigger] all[i]) implies all[i]
            == ' ' by {
            if i < before.len() {
                if i < all.len() - 1 || all == before {
                    assert(all[i] == before[i]);
                }
            }
        }
        assert forall|i: int| 0 <= i < all.len() - 1 && #[trigger] all[i] == ' ' implies all[i + 1]
            != ' ' && !is_mark(all[i + 1]) by {
            assert(all[i] == before[i]);
            if i + 1 < all.len() - 1 {
                assert(all[i + 1] == before[i + 1]);
            } else if is_mark(s.last()) {
                assert(cut.last() == cut[i]);
                assert(!is_space(cut[i]));
            }
        }
    }
}

proof fn spacing_keeps_spaced(s: Seq<char>)
    requires
        is_spaced(s),
    ensures
        spaced(s) == s,
    decreases s.len(),
{
    if s.len() > 0 {
        let before = s.drop_last();
        assert(is_spaced(before)) by {
            assert forall|i: int| 0 <= i < before.len() - 1 && #[trigger] before[i]
                == ' ' implies before[i + 1] != ' ' && !is_mark(before[i + 1]) by {
                assert(s[i] == before[i]);
            }
            assert forall|i: int| 0 <= i < before.len() && is_space(
                #[trigger] before[i],
            ) implies before[i] == ' ' by {
                assert(s[i] == before[i]);
            }
        }
        spacing_keeps_spaced(before);
        let c = s.last();
        if is_mark(c) {
            if before.len() > 0 && is_space(before.last()) {
                assert(s[s.len() - 2] == before.last());
                assert(s[s.len() - 2] == ' ');
                assert(s[s.len() - 2 + 1] == c);
            }
        } else if is_space(c) {
            assert(s[s.len() - 1] == ' ');
            if before.len() > 0 && before.last() == ' ' {
                assert(s[s.len() - 2] == ' ');
                assert(s[s.len() - 2 + 1] == c);
            }
        }
        assert(s == before.push(c));
    }
}

proof fn part_of_spaced_is_spaced(s: Seq<char>, from: int, to: int)
    requires
        is_spaced(s),
        0 <= from <= to <= s.len(),
    ensures
        is_spaced(s.subrange(from, to)),
{
    let part = s.subrange(from, to);
    assert forall|i: int| 0 <= i < part.len() && is_space(#[trigger] part[i]) implies part[i]
        == ' ' by {
        assert(s[from + i] == part[i]);
    }
    assert forall|i: int| 0 <= i < part.len() - 1 && #[trigger] part[i] == ' ' implies part[i + 1]
        != ' ' && !is_mark(part[i + 1]) by {
        assert(s[from + i] == part[i]);
        assert(s[from + i + 1] == part[i + 1]);
    }
}

/// Tidied text has single spaces, none before punctuation, and neither white space nor
/// punctuation at its ends.
pub proof fn tidied_text_is_tidy(s: Seq<char>)
    ensures
        is_spaced(tidied(s)),
        tidied(s).len() > 0 ==> !is_edge(tidied(s)[0]) && !is_edge(tidied(s).last()),
{
    let p = |c: char| is_edge(c);
    let all = spaced(s);
    spacing_is_spaced(s);
    trim_front_is_skip(all, p);
    let front = trim_front(all, p);
    trim_back_is_take(front, p);
    let n = tidied(s).len() as int;
    let k = all.len() - front.len();
    assert(tidied(s) == all.subrange(k, k + n)) by {
        assert(front.take(n) =~= all.subrange(k, k + n));
    }
    part_of_spaced_is_spaced(all, k, k + n);
    if n > 0 {
        assert(tidied(s)[0] == front[0]);
    }
}

/// Tidying twice changes nothing more.
pub proof fn tidying_twice_is_tidying_once(s: Seq<char>)
    ensures
        tidied(tidied(s)) == tidied(s),
{
    tidied_text_is_tidy(s);
    spacing_keeps_spaced(tidied(s));
}

/// The characters of `s` that are not white space, each with whether white space stands
/// directly before it.
pub open spec fn marked(s: Seq<char>) -> Seq<(char, bool)>
    decreases s.len(),
{
    if s.len() == 0 {
        Seq::<(char, bool)>::empty()
    } else {
        let before = marked(s.drop_last());
        if is_space(s.last()) {
            before
        } else {
            before.push((s.last(), s.len() >= 2 && is_space(s[s.len() - 2])))
        }
    }
}

/// What is dropped at the ends of dictation, besides white space.
pub open spec fn is_stray(c: char) -> bool {
    is_mark(c) || c == '-'
}

/// Whether `kept` is `all` from `from` on without the stray characters at its ends, with a
/// gap wherever there was one, but none at the start and none before punctuation.
pub open spec fn is_tidying(kept: Seq<(char, bool)>, all: Seq<(char, bool)>, from: int) -> bool {
    &&& 0 <= from && from + kept.len() <= all.len()
    &&& forall|k: int| 0 <= k < from ==> is_stray((#[trigger] all[k]).0)
    &&& forall|k: int| from + kept.len() <= k < all.len() ==> is_stray((#[trigger] all[k]).0)
    &&& kept.len() > 0 ==> !is_stray(kept[0].0) && !is_stray(kept.last().0)
    &&& forall|k: int|
        0 <= k < kept.len() ==> #[trigger] kept[k] == (
            all[from + k].0,
            k > 0 && all[from + k].1 && !is_mark(all[from + k].0),
        )
}

proof fn trailing_space_is_not_marked(s: Seq<char>)
    ensures
        marked(trim_back(s, |x: char| is_space(x))) == marked(s),
    decreases s.len(),
{
    if s.len() > 0 && is_space(s.last()) {
        trailing_space_is_not_marked(s.drop_last());
    }
}

proof fn marked_of_spaced(s: Seq<char>)
    ensures
        spaced(s).len() > 0 && is_space(spaced(s).last()) <==> s.len() > 0 && is_space(s.last()),
        marked(spaced(s)).len() == marked(s).len(),
        forall|k: int|
            0 <= k < marked(s).len() ==> #[trigger] marked(spaced(s))[k] == (
                marked(s)[k].0,
                marked(s)[k].1 && !is_mark(marked(s)[k].0),
            ),
    decreases s.len(),
{
    if s.len() > 0 {
        let t = s.drop_last();
        marked_of_spaced(t);
        let before = spaced(t);
        let p = |x: char| is_space(x);
        let c = s.last();
        if is_mark(c) {
            trailing_space_is_not_marked(before);
            trim_back_is_take(before, p);
            let cut = trim_back(before, p);
            assert(cut.push(c).drop_last() == cut);
            if cut.len() > 0 {
                assert(cut.push(c)[cut.len() - 1] == cut.last());
            }
        } else if is_space(c) {
            assert(before.push(' ').drop_last() == before);
        } else {
            assert(before.push(c).drop_last() == before);
            if before.len() > 0 {
                assert(before.push(c)[before.len() - 1] == before.last());
            }
            if t.len() > 0 {
                assert(s[s.len() - 2] == t.last());
            }
        }
    }
}

proof fn marked_of_both(a: Seq<char>, b: Seq<char>)
    ensures
        marked(a + b).len() == marked(a).len() + marked(b).len(),
        forall|k: int| 0 <= k < marked(a).len() ==> #[trigger] marked(a + b)[k] == marked(a)[k],
        forall|k: int|
            0 <= k < marked(b).len() ==> (#[trigger] marked(b)[k]).0 == marked(a + b)[marked(a).len()
                + k].0 && (k > 0 ==> marked(b)[k] == marked(a + b)[marked(a).len() + k]),
        b.len() > 0 && !is_space(b[0]) ==> marked(b).len() > 0 && marked(b)[0] == (b[0], false),
    decreases b.len(),
{
    if b.len() == 0 {
        assert(a + b == a);
    } else {
        let t = b.drop_last();
        assert((a + b).drop_last() == a + t);
        marked_of_both(a, t);
        if t.len() > 0 {
            assert(t[0] == b[0]);
            assert((a + b)[(a + b).len() - 2] == b[b.len() - 2]);
        } else {
            assert(marked(t).len() == 0);
        }
    }
}

proof fn marked_edges_are_stray(s: Seq<char>)
    requires
        forall|i: int| 0 <= i < s.len() ==> is_edge(#[trigger] s[i]),
    ensures
        forall|k: int| 0 <= k < marked(s).len() ==> is_stray((#[trigger] marked(s)[k]).0),
    decreases s.len(),
{
    if s.len() > 0 {
        assert forall|i: int| 0 <= i < s.drop_last().len() implies is_edge(
            #[trigger] s.drop_last()[i],
        ) by {
            assert(s[i] == s.drop_last()[i]);
        }
        marked_edges_are_stray(s.drop_last());
        assert(is_edge(s[s.len() - 1]));
        let before = marked(s.drop_last());
        assert forall|k: int| 0 <= k < marked(s).len() implies is_stray(
            (#[trigger] marked(s)[k]).0,
        ) by {
            if k < before.len() {
                assert(marked(s)[k] == before[k]);
            }
        }
    }
}

proof fn trimmed_front_is_edge(s: Seq<char>, p: spec_fn(char) -> bool)
    ensures
        forall|i: int|
            0 <= i < s.len() - trim_front(s, p).len() ==> p(#[trigger] s[i]),
    decreases s.len(),
{
    if s.len() > 0 && p(s[0]) {
        let t = s.drop_first();
        trimmed_front_is_edge(t, p);
        assert forall|i: int| 0 <= i < s.len() - trim_front(s, p).len() implies p(
            #[trigger] s[i],
        ) by {
            if i > 0 {
                assert(t[i - 1] == s[i]);
            }
        }
    }
}

proof fn trimmed_back_is_edge(s: Seq<char>, p: spec_fn(char) -> bool)
    ensures
        forall|i: int| trim_back(s, p).len() <= i < s.len() ==> p(#[trigger] s[i]),
    decreases s.len(),
{
    if s.len() > 0 && p(s.last()) {
        let t = s.drop_last();
        trimmed_back_is_edge(t, p);
        assert forall|i: int| trim_back(s, p).len() <= i < s.len() implies p(#[trigger] s[i]) by {
            if i < t.len() {
                assert(t[i] == s[i]);
            }
        }
    }
}

proof fn marked_of_three(head: Seq<char>, kept: Seq<char>, tail: Seq<char>)
    ensures
        ({
            let all = marked(head + kept + tail);
            let h = marked(head).len() as int;
            let w = marked(kept).len() as int;
            &&& all.len() == h + w + marked(tail).len()
            &&& forall|j: int| 0 <= j < h ==> #[trigger] all[j] == marked(head)[j]
            &&& forall|j: int|
                0 <= j < w ==> (#[trigger] marked(kept)[j]).0 == all[h + j].0 && (j > 0
                    ==> marked(kept)[j] == all[h + j])
            &&& forall|j: int|
                0 <= j < marked(tail).len() ==> (#[trigger] marked(tail)[j]).0 == all[h + w + j].0
        }),
{
    let rest = kept + tail;
    assert(head + kept + tail == head + rest);
    marked_of_both(head, rest);
    marked_of_both(kept, tail);
    let all = marked(head + rest);
    let h = marked(head).len() as int;
    let w = marked(kept).len() as int;
    assert forall|j: int| 0 <= j < w implies (#[trigger] marked(kept)[j]).0 == all[h + j].0 && (j
        > 0 ==> marked(kept)[j] == all[h + j]) by {
        assert(marked(rest)[j] == marked(kept)[j]);
    }
    assert forall|j: int| 0 <= j < marked(tail).len() implies (#[trigger] marked(tail)[j]).0
        == all[h + w + j].0 by {
        assert(marked(rest)[w + j].0 == all[h + (w + j)].0);
    }
}

/// What trimming the edges off `x` leaves, and what it takes away.
proof fn trimming_of_edges(x: Seq<char>) -> (parts: (Seq<char>, Seq<char>, Seq<char>))
    ensures
        x == parts.0 + parts.1 + parts.2,
        parts.1 == trim_both(x, |c: char| is_edge(c)),
        forall|i: int| 0 <= i < parts.0.len() ==> is_edge(#[trigger] parts.0[i]),
        forall|i: int| 0 <= i < parts.2.len() ==> is_edge(#[trigger] parts.2[i]),
        parts.1.len() > 0 ==> !is_edge(parts.1[0]) && !is_edge(parts.1.last()),
{
    let p = |c: char| is_edge(c);
    let front = trim_front(x, p);
    let kept = trim_back(front, p);
    trim_front_is_skip(x, p);
    trim_back_is_take(front, p);
    trimmed_front_is_edge(x, p);
    trimmed_back_is_edge(front, p);
    let head = x.take(x.len() - front.len());
    let tail = front.skip(kept.len() as int);
    assert(x =~= head + kept + tail) by {
        assert(front =~= kept + tail);
        assert(x =~= head + front);
        assert(head + (kept + tail) =~= head + kept + tail);
    }
    assert forall|i: int| 0 <= i < tail.len() implies is_edge(#[trigger] tail[i]) by {
        assert(tail[i] == front[kept.len() + i]);
    }
    if kept.len() > 0 {
        assert(kept[0] == front[0]);
    }
    (head, kept, tail)
}

/// The first and the last of the marked characters are those of a text that neither starts
/// nor ends with white space.
proof fn marked_ends(s: Seq<char>)
    requires
        s.len() > 0,
        !is_space(s[0]),
        !is_space(s.last()),
    ensures
        marked(s).len() > 0,
        marked(s)[0] == (s[0], false),
        marked(s).last().0 == s.last(),
{
    marked_of_both(Seq::<char>::empty(), s);
}

/// Tidying keeps every character but the stray ones at the ends and the white space: a gap
/// stays where white space stood, unless it is at the start or before punctuation.
pub proof fn tidying_keeps_every_word(s: Seq<char>)
    ensures
        exists|from: int| #[trigger] is_tidying(marked(tidied(s)), marked(s), from),
{
    let (head, kept, tail) = trimming_of_edges(spaced(s));
    marked_of_spaced(s);
    marked_of_three(head, kept, tail);
    marked_edges_are_stray(head);
    marked_edges_are_stray(tail);
    let from = marked(head).len() as int;
    let given = marked(s);
    let all = marked(spaced(s));
    let w = marked(kept);
    if kept.len() > 0 {
        marked_ends(kept);
    }
    assert forall|j: int| 0 <= j < from implies is_stray((#[trigger] given[j]).0) by {
        assert(all[j] == marked(head)[j]);
    }
    assert forall|j: int| from + w.len() <= j < given.len() implies is_stray(
        (#[trigger] given[j]).0,
    ) by {
        assert(all[j].0 == given[j].0);
        let i = j - from - w.len();
        assert(marked(tail)[i].0 == all[from + w.len() + i].0);
    }
    assert forall|j: int| 0 <= j < w.len() implies #[trigger] w[j] == (
        given[from + j].0,
        j > 0 && given[from + j].1 && !is_mark(given[from + j].0),
    ) by {
        assert(all[from + j].0 == w[j].0);
    }
    assert(kept == tidied(s));
    assert(is_tidying(w, given, from));
}

/// Dictation that holds any word survives, whatever polishing did: what is pasted is blank
/// only where the tidied transcript is empty.
pub proof fn polishing_never_loses_dictation(text: Seq<char>, polished: Option<Seq<char>>)
    requires
        tidied(text).len() > 0,
    ensures
        pasted(text, polished).len() > 0,
{
    if let Some(p) = polished {
        let f = |c: char| is_space(c);
        trim_front_is_skip(p, f);
        trim_back_is_take(trim_front(p, f), f);
    }
}

/// What is asked for is the mode's own rewriting of the text that was given, by the model that was
/// chosen.
#[verifier::spinoff_prover]
pub proof fn the_text_is_what_is_rewritten(model: Seq<char>, input: Seq<char>, mode: RewriteMode)
    ensures
        ({
            let body = rewrite_body(model, input, mode);
            let asked = body.get("messages"@)->0->Array_0;
            let question = asked[1].get("content"@)->0->Text_0;
            &&& body.get("model"@) == Some(JsonView::Text(model))
            &&& body.get("messages"@) is Some
            &&& body.get("messages"@)->0 is Array
            &&& asked.len() == 2
            &&& asked[1].get("role"@) == Some(JsonView::Text("user"@))
            &&& asked[1].get("content"@) == Some(JsonView::Text(question))
            &&& input.is_suffix_of(question)
            &&& mode.asks().is_prefix_of(question)
        }),
{
    reveal_strlit("model");
    reveal_strlit("temperature");
    reveal_strlit("messages");
    assert("model"@.len() == 5 && "temperature"@.len() == 11 && "messages"@.len() == 8);
    let question = mode.asks() + "\n\nText:\n"@ + input;
    let all = seq![
        ("model"@, JsonView::Text(model)),
        ("temperature"@, JsonView::Number("0.2"@)),
        ("messages"@, chat_messages(rewrite_system(), question)),
    ];
    reveal_with_fuel(entry_of, 4);
    assert(all.drop_first() =~= seq![all[1], all[2]]);
    assert(all.drop_first().drop_first() =~= seq![all[2]]);
    the_question_is_asked_by_the_user(rewrite_system(), question);
    assert(question.subrange(question.len() - input.len(), question.len() as int) =~= input);
    assert(question.take(mode.asks().len() as int) =~= mode.asks());
}

/// What is pasted is the polished text wherever there is some, and else the dictation, tidied.
pub proof fn polished_text_is_pasted_as_it_is(text: Seq<char>, polished: Seq<char>)
    ensures
        trimmed(polished).len() > 0 ==> pasted(text, Some(polished)) == polished,
        trimmed(polished).len() == 0 ==> pasted(text, Some(polished)) == pasted(text, None),
        exists|from: int| #[trigger]
            is_tidying(marked(pasted(text, None)), marked(text), from),
{
    tidying_keeps_every_word(text);
    let from = choose|from: int| #[trigger] is_tidying(marked(tidied(text)), marked(text), from);
    assert(is_tidying(marked(pasted(text, None)), marked(text), from));
}

/// Each way of rewriting has a name, and no name stands for two.
pub proof fn each_rewriting_has_its_name(name: Seq<char>)
    ensures
        RewriteMode::named(name) == Some(RewriteMode::Clean) <==> name == "clean"@,
        RewriteMode::named(name) == Some(RewriteMode::Spell) <==> name == "spell"@,
        RewriteMode::named(name) == Some(RewriteMode::Polish) <==> name == "polish"@,
        RewriteMode::named(name) == Some(RewriteMode::Professional) <==> name == "professional"@,
        RewriteMode::named(name) == Some(RewriteMode::Shorter) <==> name == "shorter"@,
        RewriteMode::named(name) == Some(RewriteMode::Friendly) <==> name == "friendly"@,
{
    reveal_strlit("clean");
    reveal_strlit("spell");
    reveal_strlit("polish");
    reveal_strlit("professional");
    reveal_strlit("shorter");
    reveal_strlit("friendly");
    assert("clean"@.len() == 5 && "spell"@.len() == 5 && "polish"@.len() == 6
        && "professional"@.len() == 12 && "shorter"@.len() == 7 && "friendly"@.len() == 8);
    assert("clean"@[0] != "spell"@[0]);
}

} // verus!
