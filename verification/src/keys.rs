//! Capturing a shortcut by pressing it.
use vstd::prelude::*;
use crate::deliverables::one_if;
use crate::hotkey::Mods;
use crate::number::{decimal, decimal_is_number, parse_unsigned, parsed, to_decimal};
use crate::shortcut::{ShortcutError, is_refusal, is_valid, validate_with};
use crate::text::{
    join, join_texts, opt_text, same, split_at, splitting_undoes_joining, starts_with, string_of,
    strip_prefix, texts, texts_of_push, to_upper_char, upper_char, without_prefix,
};

verus! {

broadcast use texts_of_push;

/// A key as a terminal reports it.
#[derive(Debug, Clone, Copy, PartialEq, Eq, Structural)]
pub enum Key {
    Char(char),
    F(u8),
    Tab,
    Enter,
    Esc,
    /// A key that no shortcut can end in.
    Other,
}

pub open spec fn label_of(key: Key) -> Option<Seq<char>> {
    match key {
        Key::Char(c) => if c == ' ' {
            Some("Space"@)
        } else {
            Some(seq![upper_char(c)])
        },
        Key::F(n) => Some("F"@ + decimal(n as nat)),
        Key::Tab => Some("Tab"@),
        Key::Enter => Some("Enter"@),
        _ => None,
    }
}

/// How a key is written in a shortcut.
pub fn key_label(key: Key) -> (r: Option<String>)
    ensures
        opt_text(r) == label_of(key),
{
    match key {
        Key::Char(c) => if c == ' ' {
            Some("Space".to_owned())
        } else {
            let mut text: Vec<char> = Vec::new();
            text.push(to_upper_char(c));
            assert(text@ =~= seq![upper_char(c)]);
            Some(string_of(&text))
        },
        Key::F(n) => Some("F".to_owned().concat(to_decimal(n as u64).as_str())),
        Key::Tab => Some("Tab".to_owned()),
        Key::Enter => Some("Enter".to_owned()),
        _ => None,
    }
}

/// The names of the modifiers. The primary one is written portably, so a captured shortcut
/// still means the right thing if the settings move between platforms.
pub open spec fn mod_names(mods: Mods, target_os: Seq<char>) -> Seq<Seq<char>> {
    let mac = target_os == "macos"@;
    one_if(
        mods.meta,
        if mac {
            "CommandOrControl"@
        } else {
            "Win"@
        },
    ) + one_if(
        mods.ctrl,
        if mac {
            "Ctrl"@
        } else {
            "CommandOrControl"@
        },
    ) + one_if(mods.alt, "Alt"@) + one_if(mods.shift, "Shift"@)
}

pub fn modifier_labels(mods: Mods, target_os: &str) -> (r: Vec<String>)
    ensures
        texts(r@) == mod_names(mods, target_os@),
{
    let mac = same(target_os, "macos");
    let mut parts: Vec<String> = Vec::new();
    assert(texts(parts@) =~= Seq::<Seq<char>>::empty());
    if mods.meta {
        parts.push(
            if mac {
                "CommandOrControl".to_owned()
            } else {
                "Win".to_owned()
            },
        );
    }
    if mods.ctrl {
        parts.push(
            if mac {
                "Ctrl".to_owned()
            } else {
                "CommandOrControl".to_owned()
            },
        );
    }
    if mods.alt {
        parts.push("Alt".to_owned());
    }
    if mods.shift {
        parts.push("Shift".to_owned());
    }
    assert(texts(parts@) =~= mod_names(mods, target_os@));
    parts
}

/// Whether a key may stand alone: `F1` to `F24`. Anything else needs a modifier or it would
/// swallow ordinary typing system-wide.
pub open spec fn stands_alone(key: Seq<char>) -> bool {
    &&& "F"@.is_prefix_of(key)
    &&& match parsed(without_prefix(key, "F"@), u8::MAX as nat) {
        Some(n) => 1 <= n <= 24,
        None => false,
    }
}

pub fn is_standalone(key: &str) -> (r: bool)
    ensures
        r == stands_alone(key@),
{
    if !starts_with(key, "F") {
        return false;
    }
    match parse_unsigned(strip_prefix(key, "F").as_str(), 255) {
        Some(n) => 1 <= n && n <= 24,
        None => false,
    }
}

/// What is shown while modifiers are held.
pub fn preview(held: Mods, target_os: &str) -> (r: String)
    ensures
        r@ == (if mod_names(held, target_os@).len() == 0 {
            "hold Ctrl / Alt / Shift / Cmd, then press a key"@
        } else {
            join(mod_names(held, target_os@), " + "@) + " + …"@
        }),
{
    let parts = modifier_labels(held, target_os);
    assert(texts(parts@).len() == parts.len());
    if parts.len() == 0 {
        "hold Ctrl / Alt / Shift / Cmd, then press a key".to_owned()
    } else {
        join_texts(&parts, " + ").concat(" + …")
    }
}

/// The shortcut that modifiers and a key write.
pub open spec fn combination(mods: Mods, label: Seq<char>, target_os: Seq<char>) -> Seq<char> {
    let names = mod_names(mods, target_os);
    if names.len() == 0 {
        label
    } else {
        join(names, "+"@) + "+"@ + label
    }
}

/// What a key press means while a shortcut is captured.
#[derive(Debug)]
pub enum CaptureStep {
    /// The user wants to type it: the way out for modifiers alone, and for terminals that
    /// swallow the key.
    TypeInstead,
    Cancelled,
    /// Nothing was pressed that a shortcut can end in.
    Ignored,
    Refused(String),
    Captured(String),
}

/// Whether a press asks to cancel. It is a plausible shortcut, but cancelling has to win.
pub open spec fn cancels(key: Key, mods: Mods) -> bool {
    key == Key::Char('c') && mods.ctrl
}

pub fn capture_press(key: Key, mods: Mods, target_os: &str) -> (r: CaptureStep)
    ensures
        match r {
            CaptureStep::TypeInstead => key == Key::Esc,
            CaptureStep::Cancelled => cancels(key, mods),
            CaptureStep::Ignored => key != Key::Esc && label_of(key) is None,
            CaptureStep::Refused(e) => {
                let combo = combination(mods, label_of(key)->0, target_os@);
                &&& key != Key::Esc && !cancels(key, mods) && label_of(key) is Some
                &&& if mod_names(mods, target_os@).len() == 0 && !stands_alone(label_of(key)->0) {
                    e@ == label_of(key)->0
                        + " alone would capture every keypress. Add a modifier, or use F13-F24."@
                } else {
                    !is_valid(combo, target_os@) && exists|error: ShortcutError|
                        e@ == error.text() && #[trigger] is_refusal(error, combo, target_os@)
                }
            },
            CaptureStep::Captured(combo) => {
                &&& key != Key::Esc && !cancels(key, mods) && label_of(key) is Some
                &&& mod_names(mods, target_os@).len() > 0 || stands_alone(label_of(key)->0)
                &&& combo@ == combination(mods, label_of(key)->0, target_os@)
                &&& is_valid(combo@, target_os@)
            },
        },
{
    if key == Key::Esc {
        return CaptureStep::TypeInstead;
    }
    if key == Key::Char('c') && mods.ctrl {
        return CaptureStep::Cancelled;
    }
    let label = match key_label(key) {
        Some(label) => label,
        None => {
            return CaptureStep::Ignored;
        },
    };
    let parts = modifier_labels(mods, target_os);
    assert(texts(parts@).len() == parts.len());
    if parts.len() == 0 && !is_standalone(label.as_str()) {
        return CaptureStep::Refused(
            label.concat(" alone would capture every keypress. Add a modifier, or use F13-F24."),
        );
    }
    let combo = if parts.len() == 0 {
        label
    } else {
        join_texts(&parts, "+").concat("+").concat(label.as_str())
    };
    assert(combo@ == combination(mods, label_of(key)->0, target_os@));
    match validate_with(combo.as_str(), target_os) {
        Ok(_) => CaptureStep::Captured(combo),
        Err(e) => {
            let message = e.message();
            assert(message@ == e.text() && is_refusal(e, combo@, target_os@));
            CaptureStep::Refused(message)
        },
    }
}

// --------------------------------------------------------------------------- laws

/// A combination that was pressed is written as its modifiers and then its key, each one that was
/// down and no other.
#[verifier::spinoff_prover]
pub proof fn a_combination_names_what_was_pressed(
    mods: Mods,
    label: Seq<char>,
    target_os: Seq<char>,
)
    requires
        forall|i: int| 0 <= i < label.len() ==> #[trigger] label[i] != '+',
    ensures
        ({
            let mac = target_os == "macos"@;
            let names = split_at(combination(mods, label, target_os), '+');
            let held = names.drop_last();
            &&& names.last() == label
            &&& held.contains("Alt"@) <==> mods.alt
            &&& held.contains("Shift"@) <==> mods.shift
            &&& held.contains("CommandOrControl"@) <==> (if mac {
                mods.meta
            } else {
                mods.ctrl
            })
            &&& held.contains("Ctrl"@) <==> mac && mods.ctrl
            &&& held.contains("Win"@) <==> !mac && mods.meta
        }),
{
    let names = mod_names(mods, target_os);
    let all = names.push(label);
    the_modifiers_held_are_named(mods, target_os);
    assert("+"@ == seq!['+']) by {
        reveal_strlit("+");
    }
    assert forall|k: int, i: int| 0 <= k < all.len() && 0 <= i < all[k].len() implies #[trigger]
        all[k][i] != '+' by {
        if k < names.len() {
            assert(all[k] == names[k]);
        }
    }
    assert(all.drop_last() =~= names);
    if names.len() == 0 {
        assert(all[0] == label);
    }
    assert(join(all, "+"@) == combination(mods, label, target_os));
    splitting_undoes_joining(all, '+');
}

#[verifier::spinoff_prover]
proof fn the_modifiers_held_are_named(mods: Mods, target_os: Seq<char>)
    ensures
        ({
            let mac = target_os == "macos"@;
            let held = mod_names(mods, target_os);
            &&& held.contains("Alt"@) <==> mods.alt
            &&& held.contains("Shift"@) <==> mods.shift
            &&& held.contains("CommandOrControl"@) <==> (if mac {
                mods.meta
            } else {
                mods.ctrl
            })
            &&& held.contains("Ctrl"@) <==> mac && mods.ctrl
            &&& held.contains("Win"@) <==> !mac && mods.meta
            &&& forall|k: int, i: int|
                0 <= k < held.len() && 0 <= i < held[k].len() ==> #[trigger] held[k][i] != '+'
        }),
{
    let mac = target_os == "macos"@;
    reveal_strlit("Alt");
    reveal_strlit("Shift");
    reveal_strlit("CommandOrControl");
    reveal_strlit("Ctrl");
    reveal_strlit("Win");
    assert("Alt"@.len() == 3 && "Shift"@.len() == 5 && "CommandOrControl"@.len() == 16
        && "Ctrl"@.len() == 4 && "Win"@.len() == 3);
    assert("Alt"@[0] == 'A' && "Win"@[0] == 'W');
    let a = one_if(
        mods.meta,
        if mac {
            "CommandOrControl"@
        } else {
            "Win"@
        },
    );
    let b = one_if(
        mods.ctrl,
        if mac {
            "Ctrl"@
        } else {
            "CommandOrControl"@
        },
    );
    let c = one_if(mods.alt, "Alt"@);
    let d = one_if(mods.shift, "Shift"@);
    let names = mod_names(mods, target_os);
    assert(names == a + b + c + d);
    if mods.meta {
        assert(names[0] == a[0]);
    }
    if mods.ctrl {
        assert(names[a.len() as int] == b[0]);
    }
    if mods.alt {
        assert(names[(a.len() + b.len()) as int] == "Alt"@);
    }
    if mods.shift {
        assert(names[(a.len() + b.len() + c.len()) as int] == "Shift"@);
    }
}

/// A letter is written as its capital, the space bar by its name, and what can end no shortcut not
/// at all.
pub proof fn a_key_is_written_by_its_name(key: Key)
    ensures
        label_of(key) is None <==> key == Key::Esc || key == Key::Other,
        key is Char && key->Char_0 != ' ' ==> label_of(key) == Some(seq![upper_char(key->Char_0)]),
        key is Char && key->Char_0 == ' ' ==> label_of(key) == Some("Space"@),
        key is F ==> label_of(key) == Some("F"@ + decimal(key->F_0 as nat)),
{
}

/// A key stands alone exactly where it is one of the twenty-four function keys.
pub proof fn function_keys_stand_alone(n: nat)
    ensures
        stands_alone("F"@ + decimal(n)) <==> 1 <= n <= 24,
{
    let key = "F"@ + decimal(n);
    reveal_strlit("F");
    assert(key.take(1) =~= "F"@);
    assert("F"@.is_prefix_of(key));
    assert(without_prefix(key, "F"@) =~= decimal(n));
    decimal_is_number(n);
}

} // verus!
