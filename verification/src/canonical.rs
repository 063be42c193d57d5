//! What the canonical form of a shortcut is made of: the names of its keys, in order, and
//! none of the spellings that a modifier can also be written with.
use vstd::prelude::*;
use vstd::utf8::is_ascii_chars;
use crate::order::{
    sorted, sorted_is_in_order, sorting_forgets_order, sorting_keeps_members, text_le,
};
use crate::shortcut::{
    combo, first_key, is_complete, is_modifier, key_name, key_names, modifiers_named, normal_form,
};
use crate::text::{
    agree_at, capitals_stay, clear_of, equal_to, has, has_space, is_space, join, join_keeps,
    joining_makes_none, lacks, non_empty, non_empty_are_members, none_is_empty, nothing_to_replace,
    part_of_a_part, pieces_are_parts, pieces_keep, replace_all, replace_keeps,
    replacing_makes_none, split_at, split_by, splitting_undoes_joining, stands_at, trim_back,
    trim_front, trimmed, trimmed_is_a_part, upper_case_is_made_of_capitals, upper_of,
    uppercase_of, without_prefix, words,
};

verus! {

/// The names that `CommandOrControl` can stand for.
pub open spec fn is_control(control: Seq<char>) -> bool {
    control == "META"@ || control == "CTRL"@
}

/// Whether a text holds none of the spellings that a modifier's one name replaces. The
/// compound spellings hold one of these.
pub open spec fn has_no_spelling(s: Seq<char>) -> bool {
    &&& lacks(s, "CONTROL"@)
    &&& lacks(s, "COMMAND"@)
    &&& lacks(s, "CMD"@)
    &&& lacks(s, "WIN"@)
    &&& lacks(s, "OPTION"@)
}

/// Whether a character is its own upper case, and not the sign that stands between keys.
pub open spec fn is_name_sign(c: char) -> bool {
    upper_of(c) == seq![c] && c != '+'
}

/// Whether a character becomes, in upper case, nothing but characters that a name is written
/// with.
pub open spec fn has_capitals(c: char) -> bool {
    forall|j: int| 0 <= j < upper_of(c).len() ==> is_name_sign(#[trigger] upper_of(c)[j])
}

/// Whether every character of a shortcut does so, but for the sign that stands between keys.
pub open spec fn is_regular(shortcut: Seq<char>) -> bool {
    forall|i: int|
        0 <= i < shortcut.len() && shortcut[i] != '+' ==> has_capitals(#[trigger] shortcut[i])
}

/// Whether upper case brings no sign into a shortcut that stands between keys.
pub open spec fn brings_no_plus(shortcut: Seq<char>) -> bool {
    forall|i: int|
        0 <= i < shortcut.len() && shortcut[i] != '+' ==> !upper_of(
            #[trigger] shortcut[i],
        ).contains('+')
}

/// A shortcut in ASCII is regular, and what is regular brings in no sign between keys.
pub proof fn ascii_is_regular(shortcut: Seq<char>)
    ensures
        is_ascii_chars(shortcut) ==> is_regular(shortcut),
        is_regular(shortcut) ==> brings_no_plus(shortcut),
{
    if is_regular(shortcut) {
        assert forall|i: int| 0 <= i < shortcut.len() && shortcut[i] != '+' implies !upper_of(
            #[trigger] shortcut[i],
        ).contains('+') by {
            assert(has_capitals(shortcut[i]));
        }
    }
}

/// Whether a name holds something, no white space, and no other spelling of a modifier.
pub open spec fn is_bare_name(name: Seq<char>) -> bool {
    &&& name.len() > 0
    &&& forall|i: int| 0 <= i < name.len() ==> !is_space(#[trigger] name[i])
    &&& has_no_spelling(name)
}

/// Whether a name is as a key's one name is written: in upper case, without white space, and
/// with no other spelling of a modifier in it.
pub open spec fn is_plain_name(name: Seq<char>) -> bool {
    &&& forall|i: int| 0 <= i < name.len() ==> is_name_sign(#[trigger] name[i]) && !is_space(name[i])
    &&& has_no_spelling(name)
}

// ------------------------------------------------------------------------ spellings

/// The spellings: none of them can overlap a name that was put in place of another.
proof fn names_are_clear_of_spellings()
    ensures
        clear_of("CTRL"@, "CONTROL"@),
        clear_of("META"@, "CONTROL"@),
        clear_of("META"@, "COMMAND"@),
        clear_of("META"@, "CMD"@),
        clear_of("META"@, "WIN"@),
        clear_of("ALT"@, "CONTROL"@),
        clear_of("ALT"@, "COMMAND"@),
        clear_of("ALT"@, "CMD"@),
        clear_of("ALT"@, "WIN"@),
        clear_of("ALT"@, "OPTION"@),
{
    reveal_strlit("CTRL");
    reveal_strlit("META");
    reveal_strlit("ALT");
    reveal_strlit("CONTROL");
    reveal_strlit("COMMAND");
    reveal_strlit("CMD");
    reveal_strlit("WIN");
    reveal_strlit("OPTION");
    clear_by_cases("CTRL"@, "CONTROL"@);
    clear_by_cases("META"@, "CONTROL"@);
    clear_by_cases("META"@, "COMMAND"@);
    clear_by_cases("META"@, "CMD"@);
    clear_by_cases("META"@, "WIN"@);
    clear_by_cases("ALT"@, "CONTROL"@);
    clear_by_cases("ALT"@, "COMMAND"@);
    clear_by_cases("ALT"@, "CMD"@);
    clear_by_cases("ALT"@, "WIN"@);
    clear_by_cases("ALT"@, "OPTION"@);
}

/// Neither can they overlap what stands for white space inside a key's name.
proof fn space_is_clear_of_spellings()
    ensures
        clear_of("SPACE"@, "CONTROL"@),
        clear_of("SPACE"@, "COMMAND"@),
        clear_of("SPACE"@, "CMD"@),
        clear_of("SPACE"@, "WIN"@),
        clear_of("SPACE"@, "OPTION"@),
{
    reveal_strlit("SPACE");
    reveal_strlit("CONTROL");
    reveal_strlit("COMMAND");
    reveal_strlit("CMD");
    reveal_strlit("WIN");
    reveal_strlit("OPTION");
    clear_by_cases("SPACE"@, "CONTROL"@);
    clear_by_cases("SPACE"@, "COMMAND"@);
    clear_by_cases("SPACE"@, "CMD"@);
    clear_by_cases("SPACE"@, "WIN"@);
    clear_by_cases("SPACE"@, "OPTION"@);
}

/// Whether the characters that `q`, `d` characters behind the start of `to`, shares with it
/// differ at one of the first three of them.
spec fn clash(to: Seq<char>, q: Seq<char>, d: int) -> bool {
    let i = if d < 0 {
        -d
    } else {
        0
    };
    ||| i < q.len() && d + i < to.len() && q[i] != to[d + i]
    ||| i + 1 < q.len() && d + i + 1 < to.len() && q[i + 1] != to[d + i + 1]
    ||| i + 2 < q.len() && d + i + 2 < to.len() && q[i + 2] != to[d + i + 2]
}

/// Two short texts are clear of each other where they clash at every place.
proof fn clear_by_cases(to: Seq<char>, q: Seq<char>)
    requires
        0 < to.len() <= 5,
        0 < q.len() <= 7,
        q.len() > 6 ==> clash(to, q, -6),
        q.len() > 5 ==> clash(to, q, -5),
        q.len() > 4 ==> clash(to, q, -4),
        q.len() > 3 ==> clash(to, q, -3),
        q.len() > 2 ==> clash(to, q, -2),
        q.len() > 1 ==> clash(to, q, -1),
        clash(to, q, 0),
        to.len() > 1 ==> clash(to, q, 1),
        to.len() > 2 ==> clash(to, q, 2),
        to.len() > 3 ==> clash(to, q, 3),
        to.len() > 4 ==> clash(to, q, 4),
    ensures
        clear_of(to, q),
{
    assert forall|d: int| -q.len() < d < to.len() implies !#[trigger] agree_at(to, q, d) by {
        assert(d == -6 || d == -5 || d == -4 || d == -3 || d == -2 || d == -1 || d == 0 || d == 1
            || d == 2 || d == 3 || d == 4);
        assert(clash(to, q, d));
    }
}

/// Once the modifiers are named, no other spelling of one is left.
proof fn naming_leaves_no_spelling(s: Seq<char>, control: Seq<char>)
    ensures
        has_no_spelling(modifiers_named(s, control)),
{
    names_are_clear_of_spellings();
    reveal_strlit("CONTROL");
    reveal_strlit("COMMAND");
    reveal_strlit("CMD");
    reveal_strlit("WINDOWS");
    reveal_strlit("WINDOW");
    reveal_strlit("WIN");
    reveal_strlit("OPTION");
    let a = replace_all(s, "COMMANDORCONTROL"@, control);
    let b = replace_all(a, "COMMAND_OR_CONTROL"@, control);
    let c = replace_all(b, "CONTROL"@, "CTRL"@);
    replacing_makes_none(b, "CONTROL"@, "CTRL"@, "CONTROL"@);
    let d = replace_all(c, "COMMAND"@, "META"@);
    replacing_makes_none(c, "COMMAND"@, "META"@, "CONTROL"@);
    replacing_makes_none(c, "COMMAND"@, "META"@, "COMMAND"@);
    let e = replace_all(d, "CMD"@, "META"@);
    replacing_makes_none(d, "CMD"@, "META"@, "CONTROL"@);
    replacing_makes_none(d, "CMD"@, "META"@, "COMMAND"@);
    replacing_makes_none(d, "CMD"@, "META"@, "CMD"@);
    let f = replace_all(e, "WINDOWS"@, "META"@);
    replacing_makes_none(e, "WINDOWS"@, "META"@, "CONTROL"@);
    replacing_makes_none(e, "WINDOWS"@, "META"@, "COMMAND"@);
    replacing_makes_none(e, "WINDOWS"@, "META"@, "CMD"@);
    let g = replace_all(f, "WINDOW"@, "META"@);
    replacing_makes_none(f, "WINDOW"@, "META"@, "CONTROL"@);
    replacing_makes_none(f, "WINDOW"@, "META"@, "COMMAND"@);
    replacing_makes_none(f, "WINDOW"@, "META"@, "CMD"@);
    let h = replace_all(g, "WIN"@, "META"@);
    replacing_makes_none(g, "WIN"@, "META"@, "CONTROL"@);
    replacing_makes_none(g, "WIN"@, "META"@, "COMMAND"@);
    replacing_makes_none(g, "WIN"@, "META"@, "CMD"@);
    replacing_makes_none(g, "WIN"@, "META"@, "WIN"@);
    replacing_makes_none(h, "OPTION"@, "ALT"@, "CONTROL"@);
    replacing_makes_none(h, "OPTION"@, "ALT"@, "COMMAND"@);
    replacing_makes_none(h, "OPTION"@, "ALT"@, "CMD"@);
    replacing_makes_none(h, "OPTION"@, "ALT"@, "WIN"@);
    replacing_makes_none(h, "OPTION"@, "ALT"@, "OPTION"@);
}

/// A spelling that holds a shorter one does not stand where the shorter one does not.
proof fn lacks_the_longer(s: Seq<char>, long: Seq<char>, short: Seq<char>, at: int)
    requires
        lacks(s, short),
        stands_at(long, short, at),
    ensures
        lacks(s, long),
{
    assert forall|i: int| !stands_at(s, long, i) by {
        if stands_at(s, long, i) {
            assert(has(s, long));
            assert(has(long, short));
            part_of_a_part(s, long, short);
        }
    }
}

/// A text without other spellings is named already.
proof fn named_already(s: Seq<char>, control: Seq<char>)
    requires
        has_no_spelling(s),
    ensures
        modifiers_named(s, control) == s,
{
    reveal_strlit("COMMANDORCONTROL");
    reveal_strlit("COMMAND_OR_CONTROL");
    reveal_strlit("COMMAND");
    reveal_strlit("WINDOWS");
    reveal_strlit("WINDOW");
    reveal_strlit("WIN");
    assert("COMMANDORCONTROL"@.subrange(0, 7) =~= "COMMAND"@);
    assert("COMMAND_OR_CONTROL"@.subrange(0, 7) =~= "COMMAND"@);
    assert("WINDOWS"@.subrange(0, 3) =~= "WIN"@);
    assert("WINDOW"@.subrange(0, 3) =~= "WIN"@);
    lacks_the_longer(s, "COMMANDORCONTROL"@, "COMMAND"@, 0);
    lacks_the_longer(s, "COMMAND_OR_CONTROL"@, "COMMAND"@, 0);
    lacks_the_longer(s, "WINDOWS"@, "WIN"@, 0);
    lacks_the_longer(s, "WINDOW"@, "WIN"@, 0);
    nothing_to_replace(s, "COMMANDORCONTROL"@, control);
    nothing_to_replace(s, "COMMAND_OR_CONTROL"@, control);
    nothing_to_replace(s, "CONTROL"@, "CTRL"@);
    nothing_to_replace(s, "COMMAND"@, "META"@);
    nothing_to_replace(s, "CMD"@, "META"@);
    nothing_to_replace(s, "WINDOWS"@, "META"@);
    nothing_to_replace(s, "WINDOW"@, "META"@);
    nothing_to_replace(s, "WIN"@, "META"@);
    nothing_to_replace(s, "OPTION"@, "ALT"@);
}

/// Whether a property holds of the names that modifiers get, and of what stands for white
/// space.
spec fn holds_of_names(q: spec_fn(char) -> bool) -> bool {
    &&& forall|i: int| 0 <= i < "META"@.len() ==> q(#[trigger] "META"@[i])
    &&& forall|i: int| 0 <= i < "CTRL"@.len() ==> q(#[trigger] "CTRL"@[i])
    &&& forall|i: int| 0 <= i < "ALT"@.len() ==> q(#[trigger] "ALT"@[i])
    &&& forall|i: int| 0 <= i < "SPACE"@.len() ==> q(#[trigger] "SPACE"@[i])
}

proof fn naming_keeps(s: Seq<char>, control: Seq<char>, q: spec_fn(char) -> bool)
    requires
        is_control(control),
        holds_of_names(q),
        forall|i: int| 0 <= i < s.len() ==> q(#[trigger] s[i]),
    ensures
        forall|i: int|
            0 <= i < modifiers_named(s, control).len() ==> q(
                #[trigger] modifiers_named(s, control)[i],
            ),
{
    let a = replace_all(s, "COMMANDORCONTROL"@, control);
    replace_keeps(s, "COMMANDORCONTROL"@, control, q);
    let b = replace_all(a, "COMMAND_OR_CONTROL"@, control);
    replace_keeps(a, "COMMAND_OR_CONTROL"@, control, q);
    let c = replace_all(b, "CONTROL"@, "CTRL"@);
    replace_keeps(b, "CONTROL"@, "CTRL"@, q);
    let d = replace_all(c, "COMMAND"@, "META"@);
    replace_keeps(c, "COMMAND"@, "META"@, q);
    let e = replace_all(d, "CMD"@, "META"@);
    replace_keeps(d, "CMD"@, "META"@, q);
    let f = replace_all(e, "WINDOWS"@, "META"@);
    replace_keeps(e, "WINDOWS"@, "META"@, q);
    let g = replace_all(f, "WINDOW"@, "META"@);
    replace_keeps(f, "WINDOW"@, "META"@, q);
    let h = replace_all(g, "WIN"@, "META"@);
    replace_keeps(g, "WIN"@, "META"@, q);
    replace_keeps(h, "OPTION"@, "ALT"@, q);
}

// ---------------------------------------------------------------------------- names

/// The words of a text are parts of it without white space.
proof fn words_are_parts(s: Seq<char>, q: spec_fn(char) -> bool)
    requires
        forall|i: int| 0 <= i < s.len() ==> q(#[trigger] s[i]),
        has_no_spelling(s),
    ensures
        forall|k: int| 0 <= k < words(s).len() ==> has_no_spelling(#[trigger] words(s)[k]),
        forall|k: int, i: int|
            0 <= k < words(s).len() && 0 <= i < words(s)[k].len() ==> q(#[trigger] words(s)[k][i])
                && !is_space(words(s)[k][i]),
{
    let p = |c: char| is_space(c);
    let pieces = split_by(s, p);
    pieces_are_parts(s, p);
    pieces_keep(s, p, q);
    non_empty_are_members(pieces);
    assert forall|k: int, i: int|
        0 <= k < words(s).len() && 0 <= i < words(s)[k].len() implies q(#[trigger] words(s)[k][i])
        && !is_space(words(s)[k][i]) by {
        let word = words(s)[k];
        assert(pieces.contains(word));
        let j = choose|j: int| 0 <= j < pieces.len() && pieces[j] == word;
        assert(pieces[j][i] == word[i]);
    }
    assert forall|k: int| 0 <= k < words(s).len() implies has_no_spelling(#[trigger] words(s)[k]) by {
        let word = words(s)[k];
        assert(pieces.contains(word));
        let j = choose|j: int| 0 <= j < pieces.len() && pieces[j] == word;
        assert(has(s, pieces[j]));
        part_lacks(s, word, "CONTROL"@);
        part_lacks(s, word, "COMMAND"@);
        part_lacks(s, word, "CMD"@);
        part_lacks(s, word, "WIN"@);
        part_lacks(s, word, "OPTION"@);
    }
}

proof fn part_lacks(s: Seq<char>, part: Seq<char>, q: Seq<char>)
    requires
        has(s, part),
        lacks(s, q),
    ensures
        lacks(part, q),
{
    assert forall|i: int| !stands_at(part, q, i) by {
        if stands_at(part, q, i) {
            assert(has(part, q));
            part_of_a_part(s, part, q);
        }
    }
}

/// The one name of a key holds no white space and no other spelling of a modifier, and what
/// holds of the key in upper case holds of it.
proof fn a_key_name_keeps(key: Seq<char>, control: Seq<char>, q: spec_fn(char) -> bool)
    requires
        is_control(control),
        holds_of_names(q),
        forall|i: int|
            0 <= i < uppercase_of(trimmed(key)).len() ==> q(
                #[trigger] uppercase_of(trimmed(key))[i],
            ),
    ensures
        has_no_spelling(key_name(key, control)),
        forall|i: int|
            0 <= i < key_name(key, control).len() ==> q(#[trigger] key_name(key, control)[i])
                && !is_space(key_name(key, control)[i]),
{
    let upper = uppercase_of(trimmed(key));
    let left = without_prefix(upper, "LEFT "@);
    assert forall|i: int| 0 <= i < left.len() implies q(#[trigger] left[i]) by {
        assert(left[i] == upper[i + (upper.len() - left.len())]);
    }
    let bare = without_prefix(left, "RIGHT "@);
    assert forall|i: int| 0 <= i < bare.len() implies q(#[trigger] bare[i]) by {
        assert(bare[i] == left[i + (left.len() - bare.len())]);
    }
    let named = modifiers_named(bare, control);
    naming_keeps(bare, control, q);
    naming_leaves_no_spelling(bare, control);
    if has_space(named) {
        reveal_strlit("SPACE");
        words_are_parts(named, q);
        space_is_clear_of_spellings();
        let parts = words(named);
        join_keeps(parts, "SPACE"@, |c: char| q(c) && !is_space(c));
        joining_makes_none(parts, "SPACE"@, "CONTROL"@);
        joining_makes_none(parts, "SPACE"@, "COMMAND"@);
        joining_makes_none(parts, "SPACE"@, "CMD"@);
        joining_makes_none(parts, "SPACE"@, "WIN"@);
        joining_makes_none(parts, "SPACE"@, "OPTION"@);
    }
}

/// A plain name is its own name.
proof fn a_plain_name_is_its_own(name: Seq<char>, control: Seq<char>)
    requires
        is_plain_name(name),
    ensures
        key_name(name, control) == name,
{
    let p = |c: char| is_space(c);
    assert(trim_front(name, p) == name);
    assert(trim_back(name, p) == name);
    capitals_stay(name);
    reveal_strlit("LEFT ");
    reveal_strlit("RIGHT ");
    assert(!"LEFT "@.is_prefix_of(name)) by {
        if "LEFT "@.is_prefix_of(name) {
            assert(name.subrange(0, 5)[4] == ' ');
            assert(is_space(name[4]));
        }
    }
    assert(!"RIGHT "@.is_prefix_of(name)) by {
        if "RIGHT "@.is_prefix_of(name) {
            assert(name.subrange(0, 6)[5] == ' ');
            assert(is_space(name[5]));
        }
    }
    named_already(name, control);
}

/// The names of keys hold something, no white space and no other spelling of a modifier, and
/// what holds of all that the keys become in upper case holds of them.
proof fn key_names_keep(parts: Seq<Seq<char>>, control: Seq<char>, q: spec_fn(char) -> bool)
    requires
        is_control(control),
        holds_of_names(q),
        forall|k: int, i: int, j: int|
            0 <= k < parts.len() && 0 <= i < parts[k].len() && 0 <= j < upper_of(
                parts[k][i],
            ).len() ==> q(#[trigger] upper_of(parts[k][i])[j]),
    ensures
        forall|k: int|
            0 <= k < key_names(parts, control).len() ==> is_bare_name(
                #[trigger] key_names(parts, control)[k],
            ),
        forall|k: int, i: int|
            0 <= k < key_names(parts, control).len() && 0 <= i < key_names(parts, control)[k].len()
                ==> q(#[trigger] key_names(parts, control)[k][i]),
    decreases parts.len(),
{
    if parts.len() > 0 {
        let shorter = parts.drop_last();
        let before = key_names(shorter, control);
        let names = key_names(parts, control);
        assert forall|k: int, i: int, j: int|
            0 <= k < shorter.len() && 0 <= i < shorter[k].len() && 0 <= j < upper_of(
                shorter[k][i],
            ).len() implies q(#[trigger] upper_of(shorter[k][i])[j]) by {
            assert(upper_of(shorter[k][i])[j] == upper_of(parts[k][i])[j]);
        }
        key_names_keep(shorter, control, q);
        let key = parts.last();
        let bare = trimmed(key);
        trimmed_is_a_part(key);
        let (from, to) = choose|i: int, j: int|
            0 <= i <= j <= key.len() && trimmed(key) == #[trigger] key.subrange(i, j);
        assert forall|i: int, j: int|
            0 <= i < bare.len() && 0 <= j < upper_of(bare[i]).len() implies q(
            #[trigger] upper_of(bare[i])[j],
        ) by {
            assert(bare[i] == parts[parts.len() - 1][from + i]);
            assert(q(upper_of(parts[parts.len() - 1][from + i])[j]));
        }
        upper_case_is_made_of_capitals(bare, q);
        a_key_name_keeps(key, control, q);
        assert forall|k: int| 0 <= k < names.len() implies is_bare_name(#[trigger] names[k]) by {
            if k < before.len() {
                assert(names[k] == before[k]);
            }
        }
        assert forall|k: int, i: int|
            0 <= k < names.len() && 0 <= i < names[k].len() implies q(#[trigger] names[k][i]) by {
            if k < before.len() {
                assert(names[k][i] == before[k][i]);
            }
        }
    }
}

proof fn plain_names_are_kept(names: Seq<Seq<char>>, control: Seq<char>)
    requires
        forall|k: int|
            0 <= k < names.len() ==> is_plain_name(#[trigger] names[k]) && names[k].len() > 0,
    ensures
        key_names(names, control) == names,
    decreases names.len(),
{
    if names.len() > 0 {
        let before = names.drop_last();
        assert forall|k: int| 0 <= k < before.len() implies is_plain_name(#[trigger] before[k])
            && before[k].len() > 0 by {
            assert(before[k] == names[k]);
        }
        plain_names_are_kept(before, control);
        assert(is_plain_name(names[names.len() - 1]));
        a_plain_name_is_its_own(names.last(), control);
        assert(before.push(names.last()) =~= names);
    }
}

/// The names of a shortcut's keys, in order.
pub open spec fn names_of(shortcut: Seq<char>, control: Seq<char>) -> Seq<Seq<char>> {
    sorted(key_names(split_at(shortcut, '+'), control))
}

// ----------------------------------------------------------------------------- laws

/// What holds of all that a shortcut becomes in upper case holds of the names of its keys.
proof fn names_keep(shortcut: Seq<char>, control: Seq<char>, q: spec_fn(char) -> bool)
    requires
        is_control(control),
        holds_of_names(q),
        forall|i: int, j: int|
            0 <= i < shortcut.len() && shortcut[i] != '+' && 0 <= j < upper_of(shortcut[i]).len()
                ==> q(#[trigger] upper_of(shortcut[i])[j]),
    ensures
        forall|k: int|
            0 <= k < names_of(shortcut, control).len() ==> is_bare_name(
                #[trigger] names_of(shortcut, control)[k],
            ),
        forall|k: int, i: int|
            0 <= k < names_of(shortcut, control).len() && 0 <= i < names_of(
                shortcut,
                control,
            )[k].len() ==> q(#[trigger] names_of(shortcut, control)[k][i]),
{
    let parts = split_at(shortcut, '+');
    let raw = key_names(parts, control);
    let names = names_of(shortcut, control);
    let fits = |c: char|
        c == '+' || forall|j: int|
            0 <= j < upper_of(c).len() ==> q(#[trigger] upper_of(c)[j]);
    assert forall|i: int| 0 <= i < shortcut.len() implies fits(#[trigger] shortcut[i]) by {}
    pieces_keep(shortcut, equal_to('+'), fits);
    assert forall|k: int, i: int, j: int|
        0 <= k < parts.len() && 0 <= i < parts[k].len() && 0 <= j < upper_of(
            parts[k][i],
        ).len() implies q(#[trigger] upper_of(parts[k][i])[j]) by {
        assert(split_by(shortcut, equal_to('+'))[k][i] == parts[k][i]);
        assert(fits(parts[k][i]));
    }
    key_names_keep(parts, control, q);
    sorting_keeps_members(raw);
    assert forall|k: int| 0 <= k < names.len() implies raw.contains(#[trigger] names[k]) by {
        broadcast use vstd::seq_lib::group_to_multiset_ensures;

        assert(names.contains(names[k]));
        assert(names.to_multiset().count(names[k]) > 0);
    }
    assert forall|k: int| 0 <= k < names.len() implies is_bare_name(#[trigger] names[k]) by {
        assert(raw.contains(names[k]));
        let j = choose|j: int| 0 <= j < raw.len() && raw[j] == names[k];
        assert(is_bare_name(raw[j]));
    }
    assert forall|k: int, i: int|
        0 <= k < names.len() && 0 <= i < names[k].len() implies q(#[trigger] names[k][i]) by {
        assert(raw.contains(names[k]));
        let j = choose|j: int| 0 <= j < raw.len() && raw[j] == names[k];
        assert(q(raw[j][i]));
    }
}

/// The canonical form of a shortcut is made of names that are in order, hold something, no
/// white space and no other spelling of a modifier.
pub proof fn canonical_names_are_bare(shortcut: Seq<char>, control: Seq<char>)
    requires
        is_control(control),
    ensures
        normal_form(shortcut, control) == join(names_of(shortcut, control), "+"@),
        forall|k: int|
            0 <= k < names_of(shortcut, control).len() ==> is_bare_name(
                #[trigger] names_of(shortcut, control)[k],
            ),
        forall|i: int, j: int|
            0 <= i < j < names_of(shortcut, control).len() ==> text_le(
                #[trigger] names_of(shortcut, control)[i],
                #[trigger] names_of(shortcut, control)[j],
            ),
{
    names_keep(shortcut, control, |c: char| true);
    sorted_is_in_order(key_names(split_at(shortcut, '+'), control));
}

proof fn names_are_plain(shortcut: Seq<char>, control: Seq<char>)
    requires
        is_control(control),
        is_regular(shortcut),
    ensures
        forall|k: int|
            0 <= k < names_of(shortcut, control).len() ==> is_plain_name(
                #[trigger] names_of(shortcut, control)[k],
            ) && names_of(shortcut, control)[k].len() > 0,
{
    let names = names_of(shortcut, control);
    let q = |c: char| is_name_sign(c);
    reveal_strlit("META");
    reveal_strlit("CTRL");
    reveal_strlit("ALT");
    reveal_strlit("SPACE");
    assert forall|i: int, j: int|
        0 <= i < shortcut.len() && shortcut[i] != '+' && 0 <= j < upper_of(
            shortcut[i],
        ).len() implies q(#[trigger] upper_of(shortcut[i])[j]) by {
        assert(has_capitals(shortcut[i]));
    }
    names_keep(shortcut, control, q);
    assert forall|k: int| 0 <= k < names.len() implies is_plain_name(#[trigger] names[k])
        && names[k].len() > 0 by {
        assert(is_bare_name(names[k]));
        assert forall|i: int| 0 <= i < names[k].len() implies is_name_sign(#[trigger] names[k][i])
            && !is_space(names[k][i]) by {
            assert(q(names[k][i]));
        }
    }
}

proof fn names_come_apart(shortcut: Seq<char>, control: Seq<char>)
    requires
        is_control(control),
        brings_no_plus(shortcut),
    ensures
        combo(shortcut, control) == names_of(shortcut, control),
{
    let names = names_of(shortcut, control);
    let q = |c: char| c != '+';
    reveal_strlit("META");
    reveal_strlit("CTRL");
    reveal_strlit("ALT");
    reveal_strlit("SPACE");
    assert forall|i: int, j: int|
        0 <= i < shortcut.len() && shortcut[i] != '+' && 0 <= j < upper_of(
            shortcut[i],
        ).len() implies q(#[trigger] upper_of(shortcut[i])[j]) by {
        assert(!upper_of(shortcut[i]).contains('+'));
    }
    names_keep(shortcut, control, q);
    reveal_strlit("+");
    assert("+"@ =~= seq!['+']);
    if names.len() > 0 {
        assert forall|k: int, i: int|
            0 <= k < names.len() && 0 <= i < names[k].len() implies #[trigger] names[k][i]
            != '+' by {
            assert(q(names[k][i]));
        }
        splitting_undoes_joining(names, '+');
        assert forall|k: int| 0 <= k < names.len() implies (#[trigger] names[k]).len() > 0 by {
            assert(is_bare_name(names[k]));
        }
        none_is_empty(names);
    } else {
        let empty = Seq::<char>::empty();
        assert(join(names, "+"@) =~= empty);
        assert(split_at(empty, '+') =~= seq![empty]);
        assert(non_empty(seq![empty]) =~= names) by {
            reveal_with_fuel(non_empty, 2);
            assert(seq![empty].drop_last() =~= Seq::<Seq<char>>::empty());
        }
    }
}

/// What a canonical form is taken apart into is the names that it was made of: for every
/// shortcut in ASCII, and wherever upper case brings in no sign that stands between keys.
/// Where besides it stays as it is in upper case, the names are in upper case.
pub proof fn canonical_names_are_plain(shortcut: Seq<char>, control: Seq<char>)
    requires
        is_control(control),
    ensures
        brings_no_plus(shortcut) ==> combo(shortcut, control) == names_of(shortcut, control),
        is_regular(shortcut) ==> forall|k: int|
            0 <= k < combo(shortcut, control).len() ==> is_plain_name(
                #[trigger] combo(shortcut, control)[k],
            ),
{
    ascii_is_regular(shortcut);
    if brings_no_plus(shortcut) {
        names_come_apart(shortcut, control);
    }
    if is_regular(shortcut) {
        names_are_plain(shortcut, control);
    }
}

/// Bringing a canonical form into canonical form changes nothing, of every shortcut in ASCII,
/// and wherever upper case stays as it is in upper case.
pub proof fn a_canonical_form_is_its_own(shortcut: Seq<char>, control: Seq<char>)
    requires
        is_control(control),
    ensures
        is_regular(shortcut) ==> normal_form(normal_form(shortcut, control), control)
            == normal_form(shortcut, control),
{
    if is_regular(shortcut) {
        form_is_its_own(shortcut, control);
    }
}

proof fn form_is_its_own(shortcut: Seq<char>, control: Seq<char>)
    requires
        is_control(control),
        is_regular(shortcut),
    ensures
        normal_form(normal_form(shortcut, control), control) == normal_form(shortcut, control),
{
    let raw = key_names(split_at(shortcut, '+'), control);
    let names = names_of(shortcut, control);
    let form = normal_form(shortcut, control);
    names_are_plain(shortcut, control);
    sorting_keeps_members(raw);
    reveal_strlit("+");
    assert("+"@ =~= seq!['+']);
    if names.len() > 0 {
        assert forall|k: int, i: int|
            0 <= k < names.len() && 0 <= i < names[k].len() implies #[trigger] names[k][i]
            != '+' by {
            assert(is_plain_name(names[k]));
        }
        splitting_undoes_joining(names, '+');
        plain_names_are_kept(names, control);
        sorting_forgets_order(names, raw);
    } else {
        let empty = Seq::<char>::empty();
        assert(form =~= empty);
        assert(split_at(empty, '+') =~= seq![empty]);
        assert(is_plain_name(empty)) by {
            empty_has_no_spelling();
        }
        a_plain_name_is_its_own(empty, control);
        assert(seq![empty].drop_last() =~= Seq::<Seq<char>>::empty());
        assert(key_names(seq![empty], control) =~= Seq::<Seq<char>>::empty()) by {
            reveal_with_fuel(key_names, 2);
        }
        assert(names =~= Seq::<Seq<char>>::empty());
        assert(raw =~= Seq::<Seq<char>>::empty());
    }
}

proof fn empty_has_no_spelling()
    ensures
        has_no_spelling(Seq::<char>::empty()),
{
    reveal_strlit("CONTROL");
    reveal_strlit("COMMAND");
    reveal_strlit("CMD");
    reveal_strlit("WIN");
    reveal_strlit("OPTION");
}

/// The first name that is no modifier is a name, and every other such name comes after it in
/// a list that is in order.
proof fn first_key_of_sorted(names: Seq<Seq<char>>)
    requires
        forall|i: int, j: int|
            0 <= i < j < names.len() ==> text_le(#[trigger] names[i], #[trigger] names[j]),
    ensures
        match first_key(names) {
            Some(key) => {
                &&& !is_modifier(key)
                &&& names.contains(key)
                &&& forall|i: int|
                    0 <= i < names.len() && !is_modifier(#[trigger] names[i]) ==> key == names[i]
                        || text_le(key, names[i])
            },
            None => forall|i: int| 0 <= i < names.len() ==> is_modifier(#[trigger] names[i]),
        },
    decreases names.len(),
{
    if names.len() > 0 {
        if is_modifier(names[0]) {
            let rest = names.drop_first();
            assert forall|i: int, j: int| 0 <= i < j < rest.len() implies text_le(
                #[trigger] rest[i],
                #[trigger] rest[j],
            ) by {
                assert(rest[i] == names[i + 1]);
                assert(rest[j] == names[j + 1]);
            }
            first_key_of_sorted(rest);
            match first_key(rest) {
                Some(key) => {
                    let k = choose|k: int| 0 <= k < rest.len() && rest[k] == key;
                    assert(names[k + 1] == key);
                    assert forall|i: int|
                        0 <= i < names.len() && !is_modifier(#[trigger] names[i]) implies key
                        == names[i] || text_le(key, names[i]) by {
                        assert(i > 0);
                        assert(rest[i - 1] == names[i]);
                    }
                },
                None => {
                    assert forall|i: int| 0 <= i < names.len() implies is_modifier(
                        #[trigger] names[i],
                    ) by {
                        if i > 0 {
                            assert(rest[i - 1] == names[i]);
                        }
                    }
                },
            }
        } else {
            assert(names.contains(names[0]));
        }
    }
}

/// The key of a shortcut is the first, in the order of texts, of its names that are no
/// modifiers; it has none where all are modifiers, and is refused where besides there are
/// fewer than two of them. So of every shortcut in ASCII, and wherever upper case brings in no
/// sign that stands between keys.
pub proof fn the_key_is_the_smallest_name(shortcut: Seq<char>, control: Seq<char>)
    requires
        is_control(control),
    ensures
        brings_no_plus(shortcut) ==> ({
            let names = names_of(shortcut, control);
            match first_key(combo(shortcut, control)) {
                Some(key) => {
                    &&& !is_modifier(key)
                    &&& names.contains(key)
                    &&& forall|i: int|
                        0 <= i < names.len() && !is_modifier(#[trigger] names[i]) ==> key
                            == names[i] || text_le(key, names[i])
                },
                None => forall|i: int|
                    0 <= i < names.len() ==> is_modifier(#[trigger] names[i]),
            }
        }),
        !is_complete(shortcut, control) <==> combo(shortcut, control).len() < 2 && (forall|i: int|
            0 <= i < combo(shortcut, control).len() ==> is_modifier(
                #[trigger] combo(shortcut, control)[i],
            )),
{
    canonical_names_are_bare(shortcut, control);
    if brings_no_plus(shortcut) {
        names_come_apart(shortcut, control);
        first_key_of_sorted(names_of(shortcut, control));
    }
    a_key_is_no_modifier(combo(shortcut, control));
}

proof fn a_key_is_no_modifier(names: Seq<Seq<char>>)
    ensures
        first_key(names) is None <==> (forall|i: int|
            0 <= i < names.len() ==> is_modifier(#[trigger] names[i])),
    decreases names.len(),
{
    if names.len() > 0 && is_modifier(names[0]) {
        let rest = names.drop_first();
        a_key_is_no_modifier(rest);
        if first_key(rest) is None {
            assert forall|i: int| 0 <= i < names.len() implies is_modifier(#[trigger] names[i]) by {
                if i > 0 {
                    assert(rest[i - 1] == names[i]);
                }
            }
        } else {
            let i = choose|i: int| 0 <= i < rest.len() && !is_modifier(#[trigger] rest[i]);
            assert(names[i + 1] == rest[i]);
        }
    }
}

} // verus!
