//! Shortcut parsing, normalization and validation.
//!
//! The operating system is a parameter everywhere, so the macOS and Windows mappings can
//! both be used from either host.
use vstd::prelude::*;
use crate::number::{decimal, decimal_is_number, parse_unsigned, parsed};
use crate::order::{sort_texts, sorted, sorting_forgets_order, sorting_keeps_members};
use crate::text::{
    ascii_upper, chars_of, contains_whitespace, equal_to, has_space, is_digit, is_space, is_upper,
    join, join_texts, keep_non_empty, list_has, non_empty, replace, replace_all, same,
    split, split_at, split_is_never_empty, split_whitespace, starts_with, strip_prefix, texts,
    to_uppercase, trim, trim_back, trim_front, trimmed, trimming_forgets_padding,
    upper_case_is_all_that_counts, upper_char, upper_of, uppercase_of, without_prefix, words,
};

verus! {

/// Why a shortcut is refused.
#[derive(Debug, Clone)]
pub enum ShortcutError {
    /// Fewer than two modifiers, and no key.
    MissingKey { shortcut: String },
    /// No macOS key code.
    UnsupportedMacKey { key: String },
    /// No Windows virtual key.
    UnsupportedWindowsKey { key: String },
    /// Modifiers alone, where they cannot be registered.
    ModifierOnly { shortcut: String },
}

impl ShortcutError {
    pub open spec fn text(&self) -> Seq<char> {
        match self {
            ShortcutError::MissingKey { shortcut } => "Shortcut needs a final key: "@ + shortcut@,
            ShortcutError::UnsupportedMacKey { key } => "Unsupported macOS shortcut key: "@ + key@
                + ". Use A-Z, 0-9, Space, Tab, Enter, Esc, or F1-F20."@,
            ShortcutError::UnsupportedWindowsKey { key } => "Unsupported Windows shortcut key: "@
                + key@ + ". Use A-Z, 0-9, Space, Tab, Enter, Esc, or F1-F24."@,
            ShortcutError::ModifierOnly { shortcut } => "Modifier-only shortcuts like "@ + shortcut@
                + " are only supported on Windows and macOS. Add a final key, e.g. Ctrl+Alt+Space."@,
        }
    }

    /// The sentence shown to the user.
    pub fn message(&self) -> (r: String)
        ensures
            r@ == self.text(),
    {
        match self {
            ShortcutError::MissingKey { shortcut } => {
                "Shortcut needs a final key: ".to_owned().concat(shortcut.as_str())
            },
            ShortcutError::UnsupportedMacKey { key } => {
                "Unsupported macOS shortcut key: ".to_owned().concat(key.as_str()).concat(
                    ". Use A-Z, 0-9, Space, Tab, Enter, Esc, or F1-F20.",
                )
            },
            ShortcutError::UnsupportedWindowsKey { key } => {
                "Unsupported Windows shortcut key: ".to_owned().concat(key.as_str()).concat(
                    ". Use A-Z, 0-9, Space, Tab, Enter, Esc, or F1-F24.",
                )
            },
            ShortcutError::ModifierOnly { shortcut } => {
                "Modifier-only shortcuts like ".to_owned().concat(shortcut.as_str()).concat(
                    " are only supported on Windows and macOS. Add a final key, e.g. Ctrl+Alt+Space.",
                )
            },
        }
    }
}

// ------------------------------------------------------------------ normal form

/// The name of the modifier that `CommandOrControl` stands for.
pub open spec fn control_of(target_os: Seq<char>) -> Seq<char> {
    if target_os == "macos"@ {
        "META"@
    } else {
        "CTRL"@
    }
}

/// `CommandOrControl` means Command on macOS and Control everywhere else.
pub fn platform_control(target_os: &str) -> (r: &'static str)
    ensures
        r@ == control_of(target_os@),
{
    if same(target_os, "macos") {
        "META"
    } else {
        "CTRL"
    }
}

/// `s` with each spelling of a modifier replaced by its one name. The compound spellings
/// come before the ones they contain.
pub open spec fn modifiers_named(s: Seq<char>, control: Seq<char>) -> Seq<char> {
    let s = replace_all(s, "COMMANDORCONTROL"@, control);
    let s = replace_all(s, "COMMAND_OR_CONTROL"@, control);
    let s = replace_all(s, "CONTROL"@, "CTRL"@);
    let s = replace_all(s, "COMMAND"@, "META"@);
    let s = replace_all(s, "CMD"@, "META"@);
    let s = replace_all(s, "WINDOWS"@, "META"@);
    let s = replace_all(s, "WINDOW"@, "META"@);
    let s = replace_all(s, "WIN"@, "META"@);
    replace_all(s, "OPTION"@, "ALT"@)
}

/// The one name of the key written as `key`.
pub open spec fn key_name(key: Seq<char>, control: Seq<char>) -> Seq<char> {
    let upper = uppercase_of(trimmed(key));
    let bare = without_prefix(without_prefix(upper, "LEFT "@), "RIGHT "@);
    let named = modifiers_named(bare, control);
    if has_space(named) {
        join(words(named), "SPACE"@)
    } else {
        named
    }
}

/// The names of the keys written as `parts`, without those that come out empty.
pub open spec fn key_names(parts: Seq<Seq<char>>, control: Seq<char>) -> Seq<Seq<char>>
    decreases parts.len(),
{
    if parts.len() == 0 {
        parts
    } else {
        let before = key_names(parts.drop_last(), control);
        let name = key_name(parts.last(), control);
        if name.len() > 0 {
            before.push(name)
        } else {
            before
        }
    }
}

/// The canonical form of a shortcut: the names of its keys, sorted.
pub open spec fn normal_form(shortcut: Seq<char>, control: Seq<char>) -> Seq<char> {
    join(sorted(key_names(split_at(shortcut, '+'), control)), "+"@)
}

fn replace_modifiers(s: String, control: &str) -> (r: String)
    ensures
        r@ == modifiers_named(s@, control@),
{
    proof {
        reveal_strlit("COMMANDORCONTROL");
        reveal_strlit("COMMAND_OR_CONTROL");
        reveal_strlit("CONTROL");
        reveal_strlit("COMMAND");
        reveal_strlit("CMD");
        reveal_strlit("WINDOWS");
        reveal_strlit("WINDOW");
        reveal_strlit("WIN");
        reveal_strlit("OPTION");
    }
    let s = replace(s.as_str(), "COMMANDORCONTROL", control);
    let s = replace(s.as_str(), "COMMAND_OR_CONTROL", control);
    let s = replace(s.as_str(), "CONTROL", "CTRL");
    let s = replace(s.as_str(), "COMMAND", "META");
    let s = replace(s.as_str(), "CMD", "META");
    let s = replace(s.as_str(), "WINDOWS", "META");
    let s = replace(s.as_str(), "WINDOW", "META");
    let s = replace(s.as_str(), "WIN", "META");
    replace(s.as_str(), "OPTION", "ALT")
}

pub fn normalize_key_with(key: &str, control: &str) -> (r: String)
    ensures
        r@ == key_name(key@, control@),
{
    let upper = to_uppercase(trim(key).as_str());
    let bare = strip_prefix(strip_prefix(upper.as_str(), "LEFT ").as_str(), "RIGHT ");
    let named = replace_modifiers(bare, control);
    if contains_whitespace(named.as_str()) {
        join_texts(&split_whitespace(named.as_str()), "SPACE")
    } else {
        named
    }
}

pub fn normalize_with(shortcut: &str, control: &str) -> (r: String)
    ensures
        r@ == normal_form(shortcut@, control@),
{
    let parts = split(shortcut, '+');
    let ghost all = texts(parts@);
    let mut names: Vec<String> = Vec::new();
    let mut i: usize = 0;
    while i < parts.len()
        invariant
            i <= parts.len(),
            all == texts(parts@),
            texts(names@) == key_names(all.take(i as int), control@),
        decreases parts.len() - i,
    {
        let name = normalize_key_with(parts[i].as_str(), control);
        assert(all.take(i + 1).drop_last() == all.take(i as int));
        assert(all.take(i + 1).last() == parts@[i as int]@);
        if !name.as_str().is_empty() {
            let ghost before = texts(names@);
            let ghost added = name@;
            names.push(name);
            assert(texts(names@) == before.push(added));
        }
        i = i + 1;
    }
    assert(all.take(i as int) == all);
    join_texts(&sort_texts(&names), "+")
}

/// Canonical form for comparisons. `Cmd+Alt+S` and `CommandOrControl+Alt+S` are the same
/// physical combo on macOS and must compare equal: registering both makes a single press
/// fire twice.
pub fn normalize(shortcut: &str, target_os: &str) -> (r: String)
    ensures
        r@ == normal_form(shortcut@, control_of(target_os@)),
{
    normalize_with(shortcut, platform_control(target_os))
}

// ----------------------------------------------------------------------- parsing

/// A shortcut taken apart.
#[derive(Debug, Clone, PartialEq, Eq)]
pub struct Parsed {
    pub ctrl: bool,
    pub alt: bool,
    pub shift: bool,
    pub meta: bool,
    pub key: Option<String>,
}

impl Parsed {
    pub fn is_modifier_only(&self) -> (r: bool)
        ensures
            r == (self.key is None),
    {
        self.key.is_none()
    }
}

pub open spec fn is_modifier(name: Seq<char>) -> bool {
    name == "CTRL"@ || name == "ALT"@ || name == "SHIFT"@ || name == "META"@
}

/// The names in the canonical form of a shortcut.
pub open spec fn combo(shortcut: Seq<char>, control: Seq<char>) -> Seq<Seq<char>> {
    non_empty(split_at(normal_form(shortcut, control), '+'))
}

/// The first name that is not a modifier.
pub open spec fn first_key(names: Seq<Seq<char>>) -> Option<Seq<char>>
    decreases names.len(),
{
    if names.len() == 0 {
        None
    } else if !is_modifier(names[0]) {
        Some(names[0])
    } else {
        first_key(names.drop_first())
    }
}

/// Whether a shortcut has a key, or two modifiers that can stand without one.
pub open spec fn is_complete(shortcut: Seq<char>, control: Seq<char>) -> bool {
    let names = combo(shortcut, control);
    first_key(names) is Some || names.len() >= 2
}

/// Whether `p` is what a list of names stands for.
pub open spec fn is_parse_of(p: Parsed, names: Seq<Seq<char>>) -> bool {
    &&& p.ctrl == names.contains("CTRL"@)
    &&& p.alt == names.contains("ALT"@)
    &&& p.shift == names.contains("SHIFT"@)
    &&& p.meta == names.contains("META"@)
    &&& match p.key {
        Some(key) => first_key(names) == Some(key@),
        None => first_key(names) is None,
    }
}

fn is_modifier_name(name: &str) -> (r: bool)
    ensures
        r == is_modifier(name@),
{
    same(name, "CTRL") || same(name, "ALT") || same(name, "SHIFT") || same(name, "META")
}

fn find_key(names: &Vec<String>) -> (r: Option<String>)
    ensures
        match r {
            Some(key) => first_key(texts(names@)) == Some(key@),
            None => first_key(texts(names@)) is None,
        },
{
    let ghost all = texts(names@);
    let mut i: usize = 0;
    assert(all.skip(0) == all);
    while i < names.len()
        invariant
            i <= names.len(),
            all == texts(names@),
            first_key(all) == first_key(all.skip(i as int)),
        decreases names.len() - i,
    {
        assert(all.skip(i as int)[0] == names@[i as int]@);
        if !is_modifier_name(names[i].as_str()) {
            return Some(names[i].clone());
        }
        assert(all.skip(i as int).drop_first() == all.skip(i + 1));
        i = i + 1;
    }
    None
}

pub fn parse_with(shortcut: &str, control: &str) -> (r: Result<Parsed, ShortcutError>)
    ensures
        match r {
            Ok(p) => is_complete(shortcut@, control@) && is_parse_of(
                p,
                combo(shortcut@, control@),
            ),
            Err(e) => !is_complete(shortcut@, control@) && e is MissingKey && e->MissingKey_shortcut@
                == shortcut@,
        },
{
    let normalized = normalize_with(shortcut, control);
    let names = keep_non_empty(&split(normalized.as_str(), '+'));
    let key = find_key(&names);
    if key.is_none() && names.len() < 2 {
        return Err(ShortcutError::MissingKey { shortcut: shortcut.to_owned() });
    }
    Ok(
        Parsed {
            ctrl: list_has(&names, "CTRL"),
            alt: list_has(&names, "ALT"),
            shift: list_has(&names, "SHIFT"),
            meta: list_has(&names, "META"),
            key,
        },
    )
}

pub fn parse(shortcut: &str, target_os: &str) -> (r: Result<Parsed, ShortcutError>)
    ensures
        match r {
            Ok(p) => is_complete(shortcut@, control_of(target_os@)) && is_parse_of(
                p,
                combo(shortcut@, control_of(target_os@)),
            ),
            Err(e) => !is_complete(shortcut@, control_of(target_os@)) && e is MissingKey
                && e->MissingKey_shortcut@ == shortcut@,
        },
{
    parse_with(shortcut, platform_control(target_os))
}

// -------------------------------------------------------------------- key tables

/// The macOS key code of a key name.
pub open spec fn mac_code(key: Seq<char>) -> Option<u16> {
    if key == "A"@ { Some(0u16) }
    else if key == "S"@ { Some(1u16) }
    else if key == "D"@ { Some(2u16) }
    else if key == "F"@ { Some(3u16) }
    else if key == "H"@ { Some(4u16) }
    else if key == "G"@ { Some(5u16) }
    else if key == "Z"@ { Some(6u16) }
    else if key == "X"@ { Some(7u16) }
    else if key == "C"@ { Some(8u16) }
    else if key == "V"@ { Some(9u16) }
    else if key == "B"@ { Some(11u16) }
    else if key == "Q"@ { Some(12u16) }
    else if key == "W"@ { Some(13u16) }
    else if key == "E"@ { Some(14u16) }
    else if key == "R"@ { Some(15u16) }
    else if key == "Y"@ { Some(16u16) }
    else if key == "T"@ { Some(17u16) }
    else if key == "O"@ { Some(31u16) }
    else if key == "U"@ { Some(32u16) }
    else if key == "I"@ { Some(34u16) }
    else if key == "P"@ { Some(35u16) }
    else if key == "L"@ { Some(37u16) }
    else if key == "J"@ { Some(38u16) }
    else if key == "K"@ { Some(40u16) }
    else if key == "N"@ { Some(45u16) }
    else if key == "M"@ { Some(46u16) }
    else if key == "1"@ { Some(18u16) }
    else if key == "2"@ { Some(19u16) }
    else if key == "3"@ { Some(20u16) }
    else if key == "4"@ { Some(21u16) }
    else if key == "6"@ { Some(22u16) }
    else if key == "5"@ { Some(23u16) }
    else if key == "9"@ { Some(25u16) }
    else if key == "7"@ { Some(26u16) }
    else if key == "8"@ { Some(28u16) }
    else if key == "0"@ { Some(29u16) }
    else if key == "SPACE"@ { Some(49u16) }
    else if key == "TAB"@ { Some(48u16) }
    else if key == "ENTER"@ { Some(36u16) }
    else if key == "RETURN"@ { Some(36u16) }
    else if key == "ESC"@ { Some(53u16) }
    else if key == "ESCAPE"@ { Some(53u16) }
    else if key == "F1"@ { Some(122u16) }
    else if key == "F2"@ { Some(120u16) }
    else if key == "F3"@ { Some(99u16) }
    else if key == "F4"@ { Some(118u16) }
    else if key == "F5"@ { Some(96u16) }
    else if key == "F6"@ { Some(97u16) }
    else if key == "F7"@ { Some(98u16) }
    else if key == "F8"@ { Some(100u16) }
    else if key == "F9"@ { Some(101u16) }
    else if key == "F10"@ { Some(109u16) }
    else if key == "F11"@ { Some(103u16) }
    else if key == "F12"@ { Some(111u16) }
    else if key == "F13"@ { Some(105u16) }
    else if key == "F14"@ { Some(107u16) }
    else if key == "F15"@ { Some(113u16) }
    else if key == "F16"@ { Some(106u16) }
    else if key == "F17"@ { Some(64u16) }
    else if key == "F18"@ { Some(79u16) }
    else if key == "F19"@ { Some(80u16) }
    else if key == "F20"@ { Some(90u16) }
    else {
        None
    }
}

pub fn mac_key_code(key: &str) -> (r: Result<u16, ShortcutError>)
    ensures
        match r {
            Ok(code) => mac_code(key@) == Some(code),
            Err(e) => mac_code(key@) is None && e is UnsupportedMacKey && e->UnsupportedMacKey_key@
                == key@,
        },
{
    let code: u16 = if same(key, "A") { 0 }
    else if same(key, "S") { 1 }
    else if same(key, "D") { 2 }
    else if same(key, "F") { 3 }
    else if same(key, "H") { 4 }
    else if same(key, "G") { 5 }
    else if same(key, "Z") { 6 }
    else if same(key, "X") { 7 }
    else if same(key, "C") { 8 }
    else if same(key, "V") { 9 }
    else if same(key, "B") { 11 }
    else if same(key, "Q") { 12 }
    else if same(key, "W") { 13 }
    else if same(key, "E") { 14 }
    else if same(key, "R") { 15 }
    else if same(key, "Y") { 16 }
    else if same(key, "T") { 17 }
    else if same(key, "O") { 31 }
    else if same(key, "U") { 32 }
    else if same(key, "I") { 34 }
    else if same(key, "P") { 35 }
    else if same(key, "L") { 37 }
    else if same(key, "J") { 38 }
    else if same(key, "K") { 40 }
    else if same(key, "N") { 45 }
    else if same(key, "M") { 46 }
    else if same(key, "1") { 18 }
    else if same(key, "2") { 19 }
    else if same(key, "3") { 20 }
    else if same(key, "4") { 21 }
    else if same(key, "6") { 22 }
    else if same(key, "5") { 23 }
    else if same(key, "9") { 25 }
    else if same(key, "7") { 26 }
    else if same(key, "8") { 28 }
    else if same(key, "0") { 29 }
    else if same(key, "SPACE") { 49 }
    else if same(key, "TAB") { 48 }
    else if same(key, "ENTER") { 36 }
    else if same(key, "RETURN") { 36 }
    else if same(key, "ESC") { 53 }
    else if same(key, "ESCAPE") { 53 }
    else if same(key, "F1") { 122 }
    else if same(key, "F2") { 120 }
    else if same(key, "F3") { 99 }
    else if same(key, "F4") { 118 }
    else if same(key, "F5") { 96 }
    else if same(key, "F6") { 97 }
    else if same(key, "F7") { 98 }
    else if same(key, "F8") { 100 }
    else if same(key, "F9") { 101 }
    else if same(key, "F10") { 109 }
    else if same(key, "F11") { 103 }
    else if same(key, "F12") { 111 }
    else if same(key, "F13") { 105 }
    else if same(key, "F14") { 107 }
    else if same(key, "F15") { 113 }
    else if same(key, "F16") { 106 }
    else if same(key, "F17") { 64 }
    else if same(key, "F18") { 79 }
    else if same(key, "F19") { 80 }
    else if same(key, "F20") { 90 }
    else {
        return Err(ShortcutError::UnsupportedMacKey { key: key.to_owned() });
    };
    Ok(code)
}

/// The names of the keys that have a macOS key code, the usual one of two first.
pub open spec fn mac_names() -> Seq<Seq<char>> {
    seq![
        "A"@, "S"@, "D"@, "F"@, "H"@, "G"@, "Z"@, "X"@, "C"@, "V"@, "B"@, "Q"@, "W"@, "E"@, "R"@,
        "Y"@, "T"@, "O"@, "U"@, "I"@, "P"@, "L"@, "J"@, "K"@, "N"@, "M"@, "1"@, "2"@, "3"@, "4"@,
        "6"@, "5"@, "9"@, "7"@, "8"@, "0"@, "SPACE"@, "TAB"@, "ENTER"@, "RETURN"@, "ESC"@,
        "ESCAPE"@, "F1"@, "F2"@, "F3"@, "F4"@, "F5"@, "F6"@, "F7"@, "F8"@, "F9"@, "F10"@, "F11"@,
        "F12"@, "F13"@, "F14"@, "F15"@, "F16"@, "F17"@, "F18"@, "F19"@, "F20"@,
    ]
}

fn list_mac_names() -> (r: Vec<&'static str>)
    ensures
        r@.len() == mac_names().len(),
        forall|i: int| 0 <= i < r@.len() ==> (#[trigger] r@[i])@ == mac_names()[i],
{
    vec![
        "A", "S", "D", "F", "H", "G", "Z", "X", "C", "V", "B", "Q", "W", "E", "R", "Y", "T", "O",
        "U", "I", "P", "L", "J", "K", "N", "M", "1", "2", "3", "4", "6", "5", "9", "7", "8", "0",
        "SPACE", "TAB", "ENTER", "RETURN", "ESC", "ESCAPE", "F1", "F2", "F3", "F4", "F5", "F6",
        "F7", "F8", "F9", "F10", "F11", "F12", "F13", "F14", "F15", "F16", "F17", "F18", "F19",
        "F20",
    ]
}

/// Every key that has a code is listed.
proof fn mac_keys_are_listed(key: Seq<char>)
    requires
        mac_code(key) is Some,
    ensures
        exists|i: int| 0 <= i < mac_names().len() && #[trigger] mac_names()[i] == key,
{
    let names = mac_names();
    assert(names[0] == "A"@);
    assert(names[1] == "S"@);
    assert(names[2] == "D"@);
    assert(names[3] == "F"@);
    assert(names[4] == "H"@);
    assert(names[5] == "G"@);
    assert(names[6] == "Z"@);
    assert(names[7] == "X"@);
    assert(names[8] == "C"@);
    assert(names[9] == "V"@);
    assert(names[10] == "B"@);
    assert(names[11] == "Q"@);
    assert(names[12] == "W"@);
    assert(names[13] == "E"@);
    assert(names[14] == "R"@);
    assert(names[15] == "Y"@);
    assert(names[16] == "T"@);
    assert(names[17] == "O"@);
    assert(names[18] == "U"@);
    assert(names[19] == "I"@);
    assert(names[20] == "P"@);
    assert(names[21] == "L"@);
    assert(names[22] == "J"@);
    assert(names[23] == "K"@);
    assert(names[24] == "N"@);
    assert(names[25] == "M"@);
    assert(names[26] == "1"@);
    assert(names[27] == "2"@);
    assert(names[28] == "3"@);
    assert(names[29] == "4"@);
    assert(names[30] == "6"@);
    assert(names[31] == "5"@);
    assert(names[32] == "9"@);
    assert(names[33] == "7"@);
    assert(names[34] == "8"@);
    assert(names[35] == "0"@);
    assert(names[36] == "SPACE"@);
    assert(names[37] == "TAB"@);
    assert(names[38] == "ENTER"@);
    assert(names[39] == "RETURN"@);
    assert(names[40] == "ESC"@);
    assert(names[41] == "ESCAPE"@);
    assert(names[42] == "F1"@);
    assert(names[43] == "F2"@);
    assert(names[44] == "F3"@);
    assert(names[45] == "F4"@);
    assert(names[46] == "F5"@);
    assert(names[47] == "F6"@);
    assert(names[48] == "F7"@);
    assert(names[49] == "F8"@);
    assert(names[50] == "F9"@);
    assert(names[51] == "F10"@);
    assert(names[52] == "F11"@);
    assert(names[53] == "F12"@);
    assert(names[54] == "F13"@);
    assert(names[55] == "F14"@);
    assert(names[56] == "F15"@);
    assert(names[57] == "F16"@);
    assert(names[58] == "F17"@);
    assert(names[59] == "F18"@);
    assert(names[60] == "F19"@);
    assert(names[61] == "F20"@);
}

/// The name of the key with a macOS key code: the first that is listed with it, or none where
/// no key has it.
pub fn mac_key_label(code: u16) -> (r: Option<&'static str>)
    ensures
        match r {
            Some(label) => mac_code(label@) == Some(code) && exists|i: int|
                #![trigger mac_names()[i]]
                0 <= i < mac_names().len() && mac_names()[i] == label@ && forall|k: int|
                    0 <= k < i ==> mac_code(#[trigger] mac_names()[k]) != Some(code),
            None => forall|key: Seq<char>| #[trigger] mac_code(key) != Some(code),
        },
{
    let names = list_mac_names();
    let mut i: usize = 0;
    while i < names.len()
        invariant
            i <= names.len(),
            names@.len() == mac_names().len(),
            forall|k: int| 0 <= k < names@.len() ==> (#[trigger] names@[k])@ == mac_names()[k],
            forall|k: int| 0 <= k < i ==> mac_code(#[trigger] mac_names()[k]) != Some(code),
        decreases names.len() - i,
    {
        assert(names@[i as int]@ == mac_names()[i as int]);
        if let Ok(found) = mac_key_code(names[i]) {
            if found == code {
                return Some(names[i]);
            }
        }
        i = i + 1;
    }
    assert forall|key: Seq<char>| #[trigger] mac_code(key) != Some(code) by {
        if mac_code(key) == Some(code) {
            mac_keys_are_listed(key);
            let k = choose|k: int| 0 <= k < mac_names().len() && #[trigger] mac_names()[k] == key;
            assert(mac_code(mac_names()[k]) == Some(code));
        }
    }
    None
}

/// The number of a function key, `F` and then a number from 1 up to 24.
pub open spec fn function_key(key: Seq<char>) -> Option<nat> {
    if "F"@.is_prefix_of(key) {
        match parsed(key.skip(1), u32::MAX as nat) {
            Some(n) => if 1 <= n <= 24 {
                Some(n)
            } else {
                None
            },
            None => None,
        }
    } else {
        None
    }
}

/// The Windows virtual key of a key name.
pub open spec fn windows_code(key: Seq<char>) -> Option<u32> {
    if key.len() == 1 && (is_upper(key[0]) || is_digit(key[0])) {
        Some(key[0] as u32)
    } else if key == "SPACE"@ {
        Some(0x20u32)
    } else if key == "TAB"@ {
        Some(0x09u32)
    } else if key == "ENTER"@ || key == "RETURN"@ {
        Some(0x0du32)
    } else if key == "ESC"@ || key == "ESCAPE"@ {
        Some(0x1bu32)
    } else {
        match function_key(key) {
            Some(n) => Some((0x70 + n - 1) as u32),
            None => None,
        }
    }
}

fn parse_function_key(key: &str) -> (r: Option<u32>)
    ensures
        match r {
            Some(n) => function_key(key@) == Some(n as nat) && 1 <= n <= 24,
            None => function_key(key@) is None,
        },
{
    proof {
        reveal_strlit("F");
    }
    if !starts_with(key, "F") {
        return None;
    }
    let digits = strip_prefix(key, "F");
    match parse_unsigned(digits.as_str(), 0xffff_ffff) {
        Some(n) => if 1 <= n && n <= 24 {
            Some(n as u32)
        } else {
            None
        },
        None => None,
    }
}

pub fn windows_virtual_key(key: &str) -> (r: Result<u32, ShortcutError>)
    ensures
        match r {
            Ok(code) => windows_code(key@) == Some(code),
            Err(e) => windows_code(key@) is None && e is UnsupportedWindowsKey
                && e->UnsupportedWindowsKey_key@ == key@,
        },
{
    let v = chars_of(key);
    if v.len() == 1 {
        let c = v[0];
        if ('A' <= c && c <= 'Z') || ('0' <= c && c <= '9') {
            return Ok(c as u32);
        }
    }
    if same(key, "SPACE") {
        return Ok(0x20);
    }
    if same(key, "TAB") {
        return Ok(0x09);
    }
    if same(key, "ENTER") || same(key, "RETURN") {
        return Ok(0x0d);
    }
    if same(key, "ESC") || same(key, "ESCAPE") {
        return Ok(0x1b);
    }
    match parse_function_key(key) {
        Some(n) => Ok(0x70 + n - 1),
        None => Err(ShortcutError::UnsupportedWindowsKey { key: key.to_owned() }),
    }
}

// -------------------------------------------------------------------- validation

/// Whether the listener on `target_os` can register a key.
pub open spec fn is_registrable(key: Seq<char>, target_os: Seq<char>) -> bool {
    (target_os == "macos"@ ==> mac_code(key) is Some) && (target_os == "windows"@ ==> windows_code(
        key,
    ) is Some)
}

/// Whether a shortcut can be registered on `target_os`.
pub open spec fn is_valid(shortcut: Seq<char>, target_os: Seq<char>) -> bool {
    let control = control_of(target_os);
    &&& is_complete(shortcut, control)
    &&& match first_key(combo(shortcut, control)) {
        Some(key) => is_registrable(key, target_os),
        None => target_os == "macos"@ || target_os == "windows"@,
    }
}

/// The error that a shortcut which is not valid is refused with.
pub open spec fn is_refusal(e: ShortcutError, shortcut: Seq<char>, target_os: Seq<char>) -> bool {
    let control = control_of(target_os);
    if !is_complete(shortcut, control) {
        e is MissingKey && e->MissingKey_shortcut@ == shortcut
    } else {
        match first_key(combo(shortcut, control)) {
            Some(key) => if target_os == "macos"@ {
                e is UnsupportedMacKey && e->UnsupportedMacKey_key@ == key
            } else {
                e is UnsupportedWindowsKey && e->UnsupportedWindowsKey_key@ == key
            },
            None => e is ModifierOnly && e->ModifierOnly_shortcut@ == shortcut,
        }
    }
}

/// Rejects anything the listener could not register later. A shortcut that only fails at
/// listener start is far worse than one rejected at set time.
pub fn validate_with(shortcut: &str, target_os: &str) -> (r: Result<(), ShortcutError>)
    ensures
        match r {
            Ok(()) => is_valid(shortcut@, target_os@),
            Err(e) => !is_valid(shortcut@, target_os@) && is_refusal(e, shortcut@, target_os@),
        },
{
    proof {
        reveal_strlit("macos");
        reveal_strlit("windows");
        assert("macos"@.len() != "windows"@.len());
    }
    let is_mac = same(target_os, "macos");
    let is_windows = same(target_os, "windows");
    let parsed = match parse_with(shortcut, platform_control(target_os)) {
        Ok(parsed) => parsed,
        Err(e) => {
            return Err(e);
        },
    };
    match parsed.key {
        None => {
            if is_mac || is_windows {
                Ok(())
            } else {
                Err(ShortcutError::ModifierOnly { shortcut: shortcut.to_owned() })
            }
        },
        Some(key) => {
            if is_mac {
                match mac_key_code(key.as_str()) {
                    Ok(_) => Ok(()),
                    Err(e) => Err(e),
                }
            } else if is_windows {
                match windows_virtual_key(key.as_str()) {
                    Ok(_) => Ok(()),
                    Err(e) => Err(e),
                }
            } else {
                Ok(())
            }
        },
    }
}

// --------------------------------------------------------------------------- laws

proof fn key_names_without(parts: Seq<Seq<char>>, control: Seq<char>, i: int)
    requires
        0 <= i < parts.len(),
    ensures
        ({
            let name = key_name(parts[i], control);
            let rest = key_names(parts.remove(i), control).to_multiset();
            key_names(parts, control).to_multiset() == if name.len() > 0 {
                rest.insert(name)
            } else {
                rest
            }
        }),
    decreases parts.len(),
{
    let last = parts.len() - 1;
    let name = key_name(parts[i], control);
    if i == last {
        assert(parts.remove(i) == parts.drop_last());
        vstd::seq_lib::to_multiset_build(key_names(parts.drop_last(), control), name);
    } else {
        key_names_without(parts.drop_last(), control, i);
        let shorter = parts.drop_last().remove(i);
        let tail = key_name(parts.last(), control);
        assert(parts.remove(i).drop_last() == shorter);
        assert(parts.remove(i).last() == parts.last());
        vstd::seq_lib::to_multiset_build(key_names(shorter, control), tail);
        vstd::seq_lib::to_multiset_build(key_names(parts.drop_last(), control), tail);
        let m = key_names(shorter, control).to_multiset();
        assert(m.insert(name).insert(tail) =~= m.insert(tail).insert(name));
    }
}

proof fn key_names_forget_order(a: Seq<Seq<char>>, b: Seq<Seq<char>>, control: Seq<char>)
    requires
        a.to_multiset() == b.to_multiset(),
    ensures
        key_names(a, control).to_multiset() == key_names(b, control).to_multiset(),
    decreases a.len(),
{
    broadcast use vstd::seq_lib::group_to_multiset_ensures;

    vstd::seq_lib::to_multiset_len(a);
    vstd::seq_lib::to_multiset_len(b);
    if a.len() == 0 {
        assert(a =~= b);
    } else {
        let x = a.last();
        assert(a.to_multiset().count(x) > 0) by {
            assert(a.contains(x));
        }
        assert(b.contains(x));
        let j = choose|j: int| 0 <= j < b.len() && b[j] == x;
        assert(a.remove(a.len() - 1) == a.drop_last());
        key_names_without(a, control, a.len() - 1);
        key_names_without(b, control, j);
        key_names_forget_order(a.drop_last(), b.remove(j), control);
    }
}

/// Two shortcuts written with the same parts, in whatever order, have the same canonical
/// form.
pub proof fn order_does_not_change_identity(a: Seq<char>, b: Seq<char>, control: Seq<char>)
    requires
        split_at(a, '+').to_multiset() == split_at(b, '+').to_multiset(),
    ensures
        normal_form(a, control) == normal_form(b, control),
{
    key_names_forget_order(split_at(a, '+'), split_at(b, '+'), control);
    sorting_forgets_order(
        key_names(split_at(a, '+'), control),
        key_names(split_at(b, '+'), control),
    );
}

/// White space around a key does not change its name.
pub proof fn spacing_does_not_change_a_key(
    before: Seq<char>,
    key: Seq<char>,
    after: Seq<char>,
    control: Seq<char>,
)
    requires
        forall|i: int| 0 <= i < before.len() ==> is_space(#[trigger] before[i]),
        forall|i: int| 0 <= i < after.len() ==> is_space(#[trigger] after[i]),
    ensures
        key_name(before + key + after, control) == key_name(key, control),
{
    trimming_forgets_padding(before, key, after);
}

proof fn key_names_forget_spacing(a: Seq<Seq<char>>, b: Seq<Seq<char>>, control: Seq<char>)
    requires
        a.len() == b.len(),
        forall|i: int| 0 <= i < a.len() ==> trimmed(#[trigger] a[i]) == trimmed(b[i]),
    ensures
        key_names(a, control) == key_names(b, control),
    decreases a.len(),
{
    if a.len() > 0 {
        let x = a.drop_last();
        let y = b.drop_last();
        assert forall|i: int| 0 <= i < x.len() implies trimmed(#[trigger] x[i]) == trimmed(
            y[i],
        ) by {
            assert(x[i] == a[i] && y[i] == b[i]);
        }
        key_names_forget_spacing(x, y, control);
        assert(trimmed(a[a.len() - 1]) == trimmed(b[b.len() - 1]));
    } else {
        assert(a =~= b);
    }
}

/// Two shortcuts whose parts differ in the white space around them alone have the same
/// canonical form.
pub proof fn spacing_does_not_change_identity(a: Seq<char>, b: Seq<char>, control: Seq<char>)
    requires
        split_at(a, '+').len() == split_at(b, '+').len(),
        forall|i: int|
            0 <= i < split_at(a, '+').len() ==> trimmed(#[trigger] split_at(a, '+')[i]) == trimmed(
                split_at(b, '+')[i],
            ),
    ensures
        normal_form(a, control) == normal_form(b, control),
{
    key_names_forget_spacing(split_at(a, '+'), split_at(b, '+'), control);
}

/// Whether two characters are one key but for letter case: they are the same, or the same in
/// upper case, and neither parts keys or words.
pub open spec fn same_but_for_case(a: char, b: char) -> bool {
    ||| a == b
    ||| upper_of(a) == upper_of(b) && a != '+' && b != '+' && !is_space(a) && !is_space(b)
}

/// Whether two texts differ in letter case alone.
pub open spec fn differ_in_case(a: Seq<char>, b: Seq<char>) -> bool {
    &&& a.len() == b.len()
    &&& forall|i: int| 0 <= i < a.len() ==> same_but_for_case(#[trigger] a[i], b[i])
}

proof fn split_apart_alike(a: Seq<char>, b: Seq<char>)
    requires
        differ_in_case(a, b),
    ensures
        split_at(a, '+').len() == split_at(b, '+').len(),
        forall|k: int|
            0 <= k < split_at(a, '+').len() ==> differ_in_case(
                #[trigger] split_at(a, '+')[k],
                split_at(b, '+')[k],
            ),
    decreases a.len(),
{
    let p = equal_to('+');
    split_is_never_empty(a, p);
    if a.len() > 0 {
        let x = a.drop_last();
        let y = b.drop_last();
        assert forall|i: int| 0 <= i < x.len() implies same_but_for_case(#[trigger] x[i], y[i]) by {
            assert(x[i] == a[i]);
        }
        split_apart_alike(x, y);
        split_is_never_empty(x, p);
        assert(same_but_for_case(a[a.len() - 1], b[b.len() - 1]));
        let last = split_at(x, '+').len() - 1;
        let m = split_at(x, '+')[last];
        let n = split_at(y, '+')[last];
        assert(differ_in_case(m, n));
        if a.last() != '+' {
            let m2 = m.push(a.last());
            let n2 = n.push(b.last());
            assert forall|i: int| 0 <= i < m2.len() implies same_but_for_case(
                #[trigger] m2[i],
                n2[i],
            ) by {
                if i < m.len() {
                    assert(same_but_for_case(m[i], n[i]));
                }
            }
        }
        assert forall|k: int| 0 <= k < split_at(a, '+').len() implies differ_in_case(
            #[trigger] split_at(a, '+')[k],
            split_at(b, '+')[k],
        ) by {
            if k < last {
                assert(split_at(a, '+')[k] == split_at(x, '+')[k]);
                assert(split_at(b, '+')[k] == split_at(y, '+')[k]);
            }
        }
    } else {
        assert(a =~= b);
    }
}

proof fn trim_front_alike(a: Seq<char>, b: Seq<char>)
    requires
        differ_in_case(a, b),
    ensures
        differ_in_case(
            trim_front(a, |c: char| is_space(c)),
            trim_front(b, |c: char| is_space(c)),
        ),
    decreases a.len(),
{
    if a.len() > 0 {
        assert(same_but_for_case(a[0], b[0]));
        let x = a.drop_first();
        let y = b.drop_first();
        assert forall|i: int| 0 <= i < x.len() implies same_but_for_case(#[trigger] x[i], y[i]) by {
            assert(x[i] == a[i + 1]);
        }
        trim_front_alike(x, y);
    }
}

proof fn trim_back_alike(a: Seq<char>, b: Seq<char>)
    requires
        differ_in_case(a, b),
    ensures
        differ_in_case(trim_back(a, |c: char| is_space(c)), trim_back(b, |c: char| is_space(c))),
    decreases a.len(),
{
    if a.len() > 0 {
        assert(same_but_for_case(a[a.len() - 1], b[b.len() - 1]));
        let x = a.drop_last();
        let y = b.drop_last();
        assert forall|i: int| 0 <= i < x.len() implies same_but_for_case(#[trigger] x[i], y[i]) by {
            assert(x[i] == a[i]);
        }
        trim_back_alike(x, y);
    }
}

proof fn key_names_forget_case(a: Seq<Seq<char>>, b: Seq<Seq<char>>, control: Seq<char>)
    requires
        a.len() == b.len(),
        forall|k: int| 0 <= k < a.len() ==> differ_in_case(#[trigger] a[k], b[k]),
    ensures
        key_names(a, control) == key_names(b, control),
    decreases a.len(),
{
    if a.len() > 0 {
        let x = a.drop_last();
        let y = b.drop_last();
        assert forall|k: int| 0 <= k < x.len() implies differ_in_case(#[trigger] x[k], y[k]) by {
            assert(x[k] == a[k]);
        }
        key_names_forget_case(x, y, control);
        let p = |c: char| is_space(c);
        assert(differ_in_case(a[a.len() - 1], b[b.len() - 1]));
        trim_front_alike(a.last(), b.last());
        trim_back_alike(trim_front(a.last(), p), trim_front(b.last(), p));
        upper_case_is_all_that_counts(trimmed(a.last()), trimmed(b.last()));
    } else {
        assert(a =~= b);
    }
}

/// Two shortcuts that differ in letter case alone have the same canonical form.
pub proof fn letter_case_does_not_change_identity(
    a: Seq<char>,
    b: Seq<char>,
    control: Seq<char>,
)
    requires
        differ_in_case(a, b),
    ensures
        normal_form(a, control) == normal_form(b, control),
{
    split_apart_alike(a, b);
    key_names_forget_case(split_at(a, '+'), split_at(b, '+'), control);
}

/// In particular, it does not matter whether its ASCII letters are small or capital.
pub proof fn small_letters_are_capitals(a: Seq<char>, b: Seq<char>, control: Seq<char>)
    requires
        ascii_upper(a) == ascii_upper(b),
    ensures
        normal_form(a, control) == normal_form(b, control),
{
    assert(a.len() == ascii_upper(a).len() && b.len() == ascii_upper(b).len());
    assert forall|i: int| 0 <= i < a.len() implies same_but_for_case(#[trigger] a[i], b[i]) by {
        assert(ascii_upper(a)[i] == upper_char(a[i]));
        assert(ascii_upper(b)[i] == upper_char(b[i]));
    }
    letter_case_does_not_change_identity(a, b, control);
}

/// A shortcut that validation accepts has a key code on its platform, or is made of
/// modifiers alone where those can be registered.
pub proof fn a_valid_shortcut_can_be_registered(shortcut: Seq<char>, target_os: Seq<char>)
    requires
        is_valid(shortcut, target_os),
    ensures
        match first_key(combo(shortcut, control_of(target_os))) {
            Some(key) => (target_os == "macos"@ ==> mac_code(key) is Some) && (target_os
                == "windows"@ ==> windows_code(key) is Some),
            None => combo(shortcut, control_of(target_os)).len() >= 2,
        },
{
}

/// The key of a combination is its first name that is no modifier.
pub proof fn the_key_is_the_first_that_is_no_modifier(names: Seq<Seq<char>>, i: int)
    requires
        0 <= i < names.len(),
        !is_modifier(names[i]),
        forall|k: int| 0 <= k < i ==> is_modifier(#[trigger] names[k]),
    ensures
        first_key(names) == Some(names[i]),
    decreases names.len(),
{
    if i > 0 {
        assert(is_modifier(names[0]));
        let rest = names.drop_first();
        assert(rest[i - 1] == names[i]);
        assert forall|k: int| 0 <= k < i - 1 implies is_modifier(#[trigger] rest[k]) by {
            assert(rest[k] == names[k + 1]);
        }
        the_key_is_the_first_that_is_no_modifier(rest, i - 1);
    }
}

/// Modifiers alone have no key.
pub proof fn modifiers_have_no_key(names: Seq<Seq<char>>)
    requires
        forall|k: int| 0 <= k < names.len() ==> is_modifier(#[trigger] names[k]),
    ensures
        first_key(names) is None,
    decreases names.len(),
{
    if names.len() > 0 {
        assert(is_modifier(names[0]));
        let rest = names.drop_first();
        assert forall|k: int| 0 <= k < rest.len() implies is_modifier(#[trigger] rest[k]) by {
            assert(rest[k] == names[k + 1]);
        }
        modifiers_have_no_key(rest);
    }
}

/// On Windows a letter or a digit is registered by its own number, and the function keys one after
/// another.
#[verifier::spinoff_prover]
pub proof fn windows_keys_follow_their_numbers(c: char, n: nat)
    ensures
        is_upper(c) || is_digit(c) ==> windows_code(seq![c]) == Some(c as u32),
        1 <= n <= 24 ==> windows_code("F"@ + decimal(n)) == Some((111 + n) as u32),
        n < 1 || n > 24 ==> windows_code("F"@ + decimal(n)) is None,
{
    let key = "F"@ + decimal(n);
    reveal_strlit("F");
    reveal_strlit("SPACE");
    reveal_strlit("TAB");
    reveal_strlit("ENTER");
    reveal_strlit("RETURN");
    reveal_strlit("ESC");
    reveal_strlit("ESCAPE");
    decimal_is_number(n);
    assert(key[0] == 'F');
    assert("SPACE"@[0] == 'S' && "TAB"@[0] == 'T' && "ENTER"@[0] == 'E' && "RETURN"@[0] == 'R'
        && "ESC"@[0] == 'E' && "ESCAPE"@[0] == 'E');
    assert(key.len() >= 2);
    assert(key.take(1) =~= "F"@);
    assert("F"@.is_prefix_of(key));
    assert(key.skip(1) =~= decimal(n));
}

/// On a Mac no two keys share a code, but for the two names of the enter and the escape key.
#[verifier::spinoff_prover]
pub proof fn mac_keys_do_not_share_a_code(a: Seq<char>, b: Seq<char>)
    requires
        mac_code(a) is Some,
        mac_code(a) == mac_code(b),
    ensures
        a == b || (a == "ENTER"@ || a == "RETURN"@) && (b == "ENTER"@ || b == "RETURN"@) || (a
            == "ESC"@ || a == "ESCAPE"@) && (b == "ESC"@ || b == "ESCAPE"@),
{
}

/// The key that is the command key on a Mac is the control key everywhere else.
pub proof fn the_command_key_is_the_macs(target_os: Seq<char>)
    ensures
        control_of(target_os) == "META"@ <==> target_os == "macos"@,
        control_of(target_os) == "CTRL"@ <==> target_os != "macos"@,
{
    reveal_strlit("META");
    reveal_strlit("CTRL");
    assert("META"@[0] != "CTRL"@[0]);
}

/// A shortcut is complete exactly where it has a key, or two modifiers.
pub proof fn a_shortcut_has_a_key_or_two_modifiers(shortcut: Seq<char>, control: Seq<char>)
    ensures
        combo(shortcut, control).len() >= 2 ==> is_complete(shortcut, control),
        combo(shortcut, control).len() == 1 ==> (is_complete(shortcut, control) <==> !is_modifier(
            combo(shortcut, control)[0],
        )),
        combo(shortcut, control).len() == 0 ==> !is_complete(shortcut, control),
{
    reveal_with_fuel(first_key, 2);
}

proof fn key_names_of_both(a: Seq<Seq<char>>, b: Seq<Seq<char>>, control: Seq<char>)
    ensures
        key_names(a + b, control) == key_names(a, control) + key_names(b, control),
    decreases b.len(),
{
    if b.len() == 0 {
        assert(a + b == a);
        assert(key_names(a, control) + key_names(b, control) =~= key_names(a, control));
    } else {
        assert((a + b).drop_last() == a + b.drop_last());
        assert((a + b).last() == b.last());
        key_names_of_both(a, b.drop_last(), control);
    }
}

/// Every key of a shortcut that has a name counts, once for each time it is written.
pub proof fn every_key_counts(shortcut: Seq<char>, control: Seq<char>, i: int)
    requires
        0 <= i < split_at(shortcut, '+').len(),
    ensures
        ({
            let parts = split_at(shortcut, '+');
            let name = key_name(parts[i], control);
            &&& key_names(parts, control) == key_names(parts.take(i), control) + (if name.len() > 0 {
                seq![name]
            } else {
                Seq::<Seq<char>>::empty()
            }) + key_names(parts.skip(i + 1), control)
            &&& sorted(key_names(parts, control)).to_multiset() == key_names(
                parts,
                control,
            ).to_multiset()
        }),
{
    reveal_with_fuel(key_names, 2);
    let parts = split_at(shortcut, '+');
    let one = seq![parts[i]];
    assert(parts == parts.take(i) + one + parts.skip(i + 1));
    key_names_of_both(parts.take(i) + one, parts.skip(i + 1), control);
    key_names_of_both(parts.take(i), one, control);
    assert(one.drop_last() == Seq::<Seq<char>>::empty());
    assert(one.last() == parts[i]);
    let name = key_name(parts[i], control);
    assert(key_names(one, control) =~= (if name.len() > 0 {
        seq![name]
    } else {
        Seq::<Seq<char>>::empty()
    }));
    sorting_keeps_members(key_names(parts, control));
}

} // verus!
