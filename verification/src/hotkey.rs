//! Global shortcuts: when a press and a release are reported.
use vstd::prelude::*;
use crate::keys::Key;
use crate::shortcut::{
    Parsed, ShortcutError, mac_code, mac_key_code, mac_key_label, mac_names, windows_code,
    windows_virtual_key,
};
use crate::text::same;

verus! {

#[derive(Debug, Clone, Copy, PartialEq, Eq, Structural)]
pub enum HotkeyEvent {
    /// Shortcut pressed. Recording starts here.
    Down,
    /// Shortcut released. Recording stops here.
    Up,
}

/// The four modifiers a shortcut can use.
#[derive(Debug, Clone, Copy, PartialEq, Eq, Structural)]
pub struct Mods {
    pub ctrl: bool,
    pub alt: bool,
    pub shift: bool,
    pub meta: bool,
}

/// What a keyboard tap sees.
#[derive(Debug, Clone, Copy, PartialEq, Eq, Structural)]
pub enum KeyEvent {
    /// A modifier went down or up.
    FlagsChanged(Mods),
    KeyDown(u16, Mods),
    KeyUp(u16),
    /// The tap was switched off by the system, or anything else.
    Other,
}

/// What is done about an event: a report, and whether the focused app still sees it.
#[derive(Debug, Clone, Copy, PartialEq, Eq, Structural)]
pub struct Reaction {
    pub report: Option<HotkeyEvent>,
    pub swallow: bool,
    pub held: bool,
}

/// Whether exactly the modifiers of a shortcut are held. Caps Lock and the like do not
/// count: with an exact comparison of all flags the shortcut fell through to the focused
/// app.
pub open spec fn mods_match(mods: Mods, parsed: Parsed) -> bool {
    &&& mods.meta == parsed.meta
    &&& mods.alt == parsed.alt
    &&& mods.shift == parsed.shift
    &&& mods.ctrl == parsed.ctrl
}

pub fn modifiers_match(mods: Mods, parsed: &Parsed) -> (r: bool)
    ensures
        r == mods_match(mods, *parsed),
{
    mods.meta == parsed.meta && mods.alt == parsed.alt && mods.shift == parsed.shift && mods.ctrl
        == parsed.ctrl
}

pub open spec fn ignored(held: bool) -> Reaction {
    Reaction { report: None, swallow: false, held }
}

pub open spec fn pressed() -> Reaction {
    Reaction { report: Some(HotkeyEvent::Down), swallow: true, held: true }
}

pub open spec fn released() -> Reaction {
    Reaction { report: Some(HotkeyEvent::Up), swallow: true, held: false }
}

/// The reaction to an event, for a shortcut with a key or one of modifiers alone. Being held
/// suppresses key auto-repeat, and makes the release report exactly once per press.
pub open spec fn reaction(parsed: Parsed, code: Option<u16>, held: bool, event: KeyEvent) -> Reaction {
    match (code, event) {
        (None, KeyEvent::FlagsChanged(mods)) => if mods_match(mods, parsed) && !held {
            pressed()
        } else if !mods_match(mods, parsed) && held {
            released()
        } else {
            ignored(held)
        },
        (Some(code), KeyEvent::KeyDown(k, mods)) => if k == code && !held && mods_match(
            mods,
            parsed,
        ) {
            pressed()
        } else {
            ignored(held)
        },
        (Some(code), KeyEvent::KeyUp(k)) => if k == code && held {
            released()
        } else {
            ignored(held)
        },
        _ => ignored(held),
    }
}

pub fn react(parsed: &Parsed, code: Option<u16>, held: bool, event: KeyEvent) -> (r: Reaction)
    ensures
        r == reaction(*parsed, code, held, event),
{
    let ignored = Reaction { report: None, swallow: false, held };
    let pressed = Reaction { report: Some(HotkeyEvent::Down), swallow: true, held: true };
    let released = Reaction { report: Some(HotkeyEvent::Up), swallow: true, held: false };
    match (code, event) {
        (None, KeyEvent::FlagsChanged(mods)) => {
            let matches = modifiers_match(mods, parsed);
            if matches && !held {
                pressed
            } else if !matches && held {
                released
            } else {
                ignored
            }
        },
        (Some(code), KeyEvent::KeyDown(k, mods)) => if k == code && !held && modifiers_match(
            mods,
            parsed,
        ) {
            pressed
        } else {
            ignored
        },
        (Some(code), KeyEvent::KeyUp(k)) => if k == code && held {
            released
        } else {
            ignored
        },
        _ => ignored,
    }
}

/// Whether the shortcut is held after events.
pub open spec fn held_after(parsed: Parsed, code: Option<u16>, events: Seq<KeyEvent>) -> bool
    decreases events.len(),
{
    if events.len() == 0 {
        false
    } else {
        reaction(
            parsed,
            code,
            held_after(parsed, code, events.drop_last()),
            events.last(),
        ).held
    }
}

/// What is reported of events, in order.
pub open spec fn reports(parsed: Parsed, code: Option<u16>, events: Seq<KeyEvent>) -> Seq<
    HotkeyEvent,
>
    decreases events.len(),
{
    if events.len() == 0 {
        Seq::<HotkeyEvent>::empty()
    } else {
        let before = reports(parsed, code, events.drop_last());
        match reaction(
            parsed,
            code,
            held_after(parsed, code, events.drop_last()),
            events.last(),
        ).report {
            Some(e) => before.push(e),
            None => before,
        }
    }
}

/// Whatever keys are struck, presses and releases are reported in turn, a press first: no
/// auto-repeat starts a second recording, and none is stopped twice.
pub proof fn presses_and_releases_alternate(parsed: Parsed, code: Option<u16>, events: Seq<KeyEvent>)
    ensures
        forall|i: int|
            0 <= i < reports(parsed, code, events).len() ==> #[trigger] reports(
                parsed,
                code,
                events,
            )[i] == if i % 2 == 0 {
                HotkeyEvent::Down
            } else {
                HotkeyEvent::Up
            },
        held_after(parsed, code, events) <==> reports(parsed, code, events).len() % 2 == 1,
    decreases events.len(),
{
    if events.len() > 0 {
        presses_and_releases_alternate(parsed, code, events.drop_last());
    }
}

/// An event that means nothing to the shortcut reaches the focused app.
pub proof fn other_keys_pass_through(parsed: Parsed, code: Option<u16>, held: bool, event: KeyEvent)
    requires
        reaction(parsed, code, held, event).report is None,
    ensures
        !reaction(parsed, code, held, event).swallow,
        reaction(parsed, code, held, event).held == held,
{
}

// ------------------------------------------------------------------- polled keys

/// Whether the modifiers of a shortcut are among the keys that are down, given by their
/// virtual key codes. Either half of a modifier counts.
pub open spec fn needed_are_down(parsed: Parsed, down: Seq<i32>) -> bool {
    &&& parsed.ctrl ==> down.contains(0x11) || down.contains(0xA2) || down.contains(0xA3)
    &&& parsed.alt ==> down.contains(0x12) || down.contains(0xA4) || down.contains(0xA5)
    &&& parsed.shift ==> down.contains(0x10) || down.contains(0xA0) || down.contains(0xA1)
    &&& parsed.meta ==> down.contains(0x5B) || down.contains(0x5C)
}

/// The virtual key codes of the modifiers and their halves.
pub fn modifier_keys() -> (r: Vec<i32>)
    ensures
        r@ == seq![
            0x11i32,
            0xA2i32,
            0xA3i32,
            0x12i32,
            0xA4i32,
            0xA5i32,
            0x10i32,
            0xA0i32,
            0xA1i32,
            0x5Bi32,
            0x5Ci32,
        ],
{
    let mut keys: Vec<i32> = Vec::new();
    keys.push(0x11);
    keys.push(0xA2);
    keys.push(0xA3);
    keys.push(0x12);
    keys.push(0xA4);
    keys.push(0xA5);
    keys.push(0x10);
    keys.push(0xA0);
    keys.push(0xA1);
    keys.push(0x5B);
    keys.push(0x5C);
    keys
}

fn is_down(down: &Vec<i32>, key: i32) -> (r: bool)
    ensures
        r == down@.contains(key),
{
    let mut i: usize = 0;
    while i < down.len()
        invariant
            i <= down.len(),
            forall|j: int| 0 <= j < i ==> down@[j] != key,
        decreases down.len() - i,
    {
        if down[i] == key {
            return true;
        }
        i = i + 1;
    }
    false
}

/// True while every modifier the shortcut needs is held.
pub fn required_modifiers_down(parsed: &Parsed, down: &Vec<i32>) -> (r: bool)
    ensures
        r == needed_are_down(*parsed, down@),
{
    (!parsed.ctrl || is_down(down, 0x11) || is_down(down, 0xA2) || is_down(down, 0xA3)) && (
    !parsed.alt || is_down(down, 0x12) || is_down(down, 0xA4) || is_down(down, 0xA5)) && (
    !parsed.shift || is_down(down, 0x10) || is_down(down, 0xA0) || is_down(down, 0xA1)) && (
    !parsed.meta || is_down(down, 0x5B) || is_down(down, 0x5C))
}

/// What polling reports when the modifiers went down or up since the last time.
pub fn poll(down: bool, held: bool) -> (r: (bool, Option<HotkeyEvent>))
    ensures
        r.0 == down,
        r.1 == (if down && !held {
            Some(HotkeyEvent::Down)
        } else if !down && held {
            Some(HotkeyEvent::Up)
        } else {
            None
        }),
{
    if down && !held {
        (true, Some(HotkeyEvent::Down))
    } else if !down && held {
        (false, Some(HotkeyEvent::Up))
    } else {
        (held, None)
    }
}

/// Whether a registered shortcut is still held: its key and every modifier it needs.
pub fn still_held(parsed: &Parsed, key_down: bool, down: &Vec<i32>) -> (r: bool)
    ensures
        r == (key_down && needed_are_down(*parsed, down@)),
{
    key_down && required_modifiers_down(parsed, down)
}

/// The flags a shortcut is registered with: no repeat, and one bit for each modifier.
pub open spec fn registration_flags(parsed: Parsed) -> int {
    0x4000 + (if parsed.alt {
        1int
    } else {
        0
    }) + (if parsed.ctrl {
        2int
    } else {
        0
    }) + (if parsed.shift {
        4int
    } else {
        0
    }) + (if parsed.meta {
        8int
    } else {
        0
    })
}

/// Without the flag for no repeat, holding the shortcut queues one notification per
/// keyboard auto-repeat, which replay as phantom presses after the key is released.
pub fn modifier_flags(parsed: &Parsed) -> (r: u32)
    ensures
        r == registration_flags(*parsed),
{
    let mut flags: u32 = 0x4000;
    if parsed.alt {
        flags = flags + 1;
    }
    if parsed.ctrl {
        flags = flags + 2;
    }
    if parsed.shift {
        flags = flags + 4;
    }
    if parsed.meta {
        flags = flags + 8;
    }
    flags
}

// ------------------------------------------------------------------------ messages

pub open spec fn hint_text(target_os: Seq<char>) -> Seq<char> {
    if target_os == "macos"@ {
        "Grant Accessibility permission: System Settings > Privacy & Security > Accessibility, then add this binary (or your terminal) and restart the listener."@
    } else {
        "Another application may already own this shortcut. Try a different key."@
    }
}

pub fn permission_hint(target_os: &str) -> (r: &'static str)
    ensures
        r@ == hint_text(target_os@),
{
    if same(target_os, "macos") {
        "Grant Accessibility permission: System Settings > Privacy & Security > Accessibility, then add this binary (or your terminal) and restart the listener."
    } else {
        "Another application may already own this shortcut. Try a different key."
    }
}

/// What a platform registers: the key of a shortcut, if it has one.
#[derive(Debug)]
pub enum Registration {
    /// Watches keyboard events for a Mac key code, or for modifiers alone.
    Tap(Option<u16>),
    /// Registers a Windows virtual key, or polls for modifiers alone.
    Hotkey(Option<u32>),
}

/// What has to be registered for a shortcut, or why it cannot be: its spelling, its key, a
/// permission that is missing, or the platform.
pub fn registration(parsed: &Parsed, target_os: &str, permitted: bool) -> (r: Result<
    Registration,
    String,
>)
    ensures
        match r {
            Ok(Registration::Tap(code)) => target_os@ == "macos"@ && permitted && match parsed.key {
                Some(key) => code is Some && code == mac_code(key@),
                None => code is None,
            },
            Ok(Registration::Hotkey(code)) => target_os@ == "windows"@ && match parsed.key {
                Some(key) => code is Some && code == windows_code(key@),
                None => code is None,
            },
            Err(e) => if target_os@ == "macos"@ {
                if parsed.key is Some && mac_code(parsed.key->0@) is None {
                    e@ == (ShortcutError::UnsupportedMacKey { key: parsed.key->0 }).text()
                } else {
                    !permitted && e@
                        == "Accessibility permission is required for global shortcuts. "@
                        + hint_text("macos"@)
                }
            } else if target_os@ == "windows"@ {
                parsed.key is Some && windows_code(parsed.key->0@) is None && e@
                    == (ShortcutError::UnsupportedWindowsKey { key: parsed.key->0 }).text()
            } else {
                e@ == "Global shortcuts are not supported on "@ + target_os@
                    + " yet. Windows and macOS are supported."@
            },
        },
{
    proof {
        reveal_strlit("macos");
        reveal_strlit("windows");
        assert("macos"@.len() != "windows"@.len());
    }
    if same(target_os, "macos") {
        let code = match &parsed.key {
            Some(key) => match mac_key_code(key.as_str()) {
                Ok(code) => Some(code),
                Err(e) => {
                    return Err(e.message());
                },
            },
            None => None,
        };
        if !permitted {
            return Err(
                "Accessibility permission is required for global shortcuts. ".to_owned().concat(
                    permission_hint("macos"),
                ),
            );
        }
        return Ok(Registration::Tap(code));
    }
    if same(target_os, "windows") {
        let code = match &parsed.key {
            Some(key) => match windows_virtual_key(key.as_str()) {
                Ok(code) => Some(code),
                Err(e) => {
                    return Err(e.message());
                },
            },
            None => None,
        };
        return Ok(Registration::Hotkey(code));
    }
    Err(
        "Global shortcuts are not supported on ".to_owned().concat(target_os).concat(
            " yet. Windows and macOS are supported.",
        ),
    )
}

/// How a shortcut is reported that the system did not let register.
pub fn registration_failure(shortcut: &str, target_os: &str) -> (r: String)
    ensures
        r@ == "Could not register "@ + shortcut@ + (if target_os@ == "windows"@ {
            ". Another application may already own it."@
        } else {
            ". "@ + hint_text(target_os@)
        }),
{
    if same(target_os, "windows") {
        "Could not register ".to_owned().concat(shortcut).concat(
            ". Another application may already own it.",
        )
    } else {
        "Could not register ".to_owned().concat(shortcut).concat(
            ". ".to_owned().concat(permission_hint(target_os)).as_str(),
        )
    }
}

// ------------------------------------------------------------------------ capturing

/// What is seen while a shortcut is captured by pressing it.
#[derive(Debug)]
pub enum CaptureUpdate {
    Mods(Mods),
    Key { mods: Mods, key: String },
}

/// What is passed on of an event while a shortcut is captured, and whether the focused app
/// still sees it. A key without a name cannot be part of a shortcut, and is not passed on.
/// Key presses are swallowed, so the keypress being captured cannot also act on whatever has
/// focus; swallowing modifier changes could leave other apps believing a modifier is stuck
/// down.
pub fn capture_event(event: KeyEvent) -> (r: (Option<CaptureUpdate>, bool))
    ensures
        match event {
            KeyEvent::FlagsChanged(mods) => r == (Some(CaptureUpdate::Mods(mods)), false),
            KeyEvent::KeyDown(code, mods) => r.1 && match r.0 {
                Some(CaptureUpdate::Key { mods: held, key }) => held == mods && mac_code(key@)
                    == Some(code) && exists|i: int|
                    #![trigger mac_names()[i]]
                    0 <= i < mac_names().len() && mac_names()[i] == key@ && forall|k: int|
                        0 <= k < i ==> mac_code(#[trigger] mac_names()[k]) != Some(code),
                Some(CaptureUpdate::Mods(_)) => false,
                None => forall|key: Seq<char>| #[trigger] mac_code(key) != Some(code),
            },
            _ => r == (None::<CaptureUpdate>, false),
        },
{
    match event {
        KeyEvent::FlagsChanged(mods) => (Some(CaptureUpdate::Mods(mods)), false),
        KeyEvent::KeyDown(code, mods) => match mac_key_label(code) {
            Some(label) => (Some(CaptureUpdate::Key { mods, key: label.to_owned() }), true),
            None => (None, true),
        },
        _ => (None, false),
    }
}

/// A shortcut with a key is pressed when its key goes down with exactly its modifiers, and
/// released when its key goes up, whatever the modifiers are by then.
pub proof fn a_shortcut_is_pressed_with_its_own_keys(
    parsed: Parsed,
    code: u16,
    held: bool,
    k: u16,
    mods: Mods,
)
    ensures
        ({
            let down = reaction(parsed, Some(code), held, KeyEvent::KeyDown(k, mods));
            let up = reaction(parsed, Some(code), held, KeyEvent::KeyUp(k));
            let exact = mods.ctrl == parsed.ctrl && mods.alt == parsed.alt && mods.shift
                == parsed.shift && mods.meta == parsed.meta;
            &&& down.report == Some(HotkeyEvent::Down) <==> !held && k == code && exact
            &&& down.report != Some(HotkeyEvent::Up)
            &&& down.report is Some ==> down.swallow && down.held
            &&& up.report == Some(HotkeyEvent::Up) <==> held && k == code
            &&& up.report != Some(HotkeyEvent::Down)
            &&& up.report is Some ==> up.swallow && !up.held
            &&& reaction(parsed, Some(code), held, KeyEvent::FlagsChanged(mods)).report is None
        }),
{
}

/// A shortcut of modifiers alone is pressed when exactly those are down, and released as soon as
/// they no longer are.
pub proof fn modifiers_alone_make_a_shortcut(parsed: Parsed, held: bool, mods: Mods, k: u16)
    ensures
        ({
            let r = reaction(parsed, None, held, KeyEvent::FlagsChanged(mods));
            let exact = mods.ctrl == parsed.ctrl && mods.alt == parsed.alt && mods.shift
                == parsed.shift && mods.meta == parsed.meta;
            &&& r.held == exact
            &&& r.report == Some(HotkeyEvent::Down) <==> exact && !held
            &&& r.report == Some(HotkeyEvent::Up) <==> !exact && held
            &&& reaction(parsed, None, held, KeyEvent::KeyDown(k, mods)).report is None
            &&& reaction(parsed, None, held, KeyEvent::KeyUp(k)).report is None
        }),
{
}

/// A registration says of each modifier whether it is needed, in a bit of its own, and that a held
/// key is not to repeat.
pub proof fn each_modifier_has_its_bit(parsed: Parsed)
    ensures
        registration_flags(parsed) % 2 == 1 <==> parsed.alt,
        registration_flags(parsed) / 2 % 2 == 1 <==> parsed.ctrl,
        registration_flags(parsed) / 4 % 2 == 1 <==> parsed.shift,
        registration_flags(parsed) / 8 % 2 == 1 <==> parsed.meta,
        registration_flags(parsed) / 16 == 0x400,
{
}

/// A modifier that is needed is missing exactly where none of its keys is down.
pub proof fn a_needed_modifier_must_be_down(parsed: Parsed, down: Seq<i32>)
    ensures
        parsed.ctrl && !down.contains(0x11) && !down.contains(0xA2) && !down.contains(0xA3)
            ==> !needed_are_down(parsed, down),
        parsed.alt && !down.contains(0x12) && !down.contains(0xA4) && !down.contains(0xA5)
            ==> !needed_are_down(parsed, down),
        parsed.shift && !down.contains(0x10) && !down.contains(0xA0) && !down.contains(0xA1)
            ==> !needed_are_down(parsed, down),
        parsed.meta && !down.contains(0x5B) && !down.contains(0x5C) ==> !needed_are_down(
            parsed,
            down,
        ),
        (parsed.ctrl ==> down.contains(0x11)) && (parsed.alt ==> down.contains(0x12)) && (
        parsed.shift ==> down.contains(0x10)) && (parsed.meta ==> down.contains(0x5B))
            ==> needed_are_down(parsed, down),
{
}

} // verus!
