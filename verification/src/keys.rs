//! Key presses as the UI sees them, and their compact on-screen labels.

use vstd::prelude::*;

use crate::text::{push_char, push_str};

verus! {

/// The key that was pressed. Keys the UI neither binds nor labels are
/// `Other`.
#[derive(Debug, Clone, Copy, PartialEq, Eq)]
pub enum KeyCode {
    Backspace,
    Enter,
    Left,
    Right,
    Up,
    Down,
    Home,
    End,
    PageUp,
    PageDown,
    Tab,
    BackTab,
    Delete,
    Esc,
    Char(char),
    Other,
}

/// Modifier keys held during a key press.
#[derive(Debug, Clone, Copy, PartialEq, Eq)]
pub struct KeyModifiers {
    pub shift: bool,
    pub control: bool,
    pub alt: bool,
    pub super_key: bool,
}

impl KeyModifiers {
    /// No modifier held.
    pub fn none() -> (m: KeyModifiers)
        ensures
            !m.shift && !m.control && !m.alt && !m.super_key,
    {
        KeyModifiers { shift: false, control: false, alt: false, super_key: false }
    }

    /// Only Ctrl held.
    pub fn control() -> (m: KeyModifiers)
        ensures
            !m.shift && m.control && !m.alt && !m.super_key,
    {
        KeyModifiers { shift: false, control: true, alt: false, super_key: false }
    }

    /// Only Alt held.
    pub fn alt() -> (m: KeyModifiers)
        ensures
            !m.shift && !m.control && m.alt && !m.super_key,
    {
        KeyModifiers { shift: false, control: false, alt: true, super_key: false }
    }

    /// Only Shift held.
    pub fn shift() -> (m: KeyModifiers)
        ensures
            m.shift && !m.control && !m.alt && !m.super_key,
    {
        KeyModifiers { shift: true, control: false, alt: false, super_key: false }
    }
}

/// A key press: the key and the modifiers held with it.
#[derive(Debug, Clone, Copy, PartialEq, Eq)]
pub struct KeyEvent {
    pub code: KeyCode,
    pub modifiers: KeyModifiers,
}

impl KeyEvent {
    pub fn new(code: KeyCode, modifiers: KeyModifiers) -> (k: KeyEvent)
        ensures
            k.code == code,
            k.modifiers == modifiers,
    {
        KeyEvent { code, modifiers }
    }
}

/// Label of the key itself; empty for keys that get no label.
pub open spec fn key_body_label(code: KeyCode) -> Seq<char> {
    match code {
        KeyCode::Up => "↑"@,
        KeyCode::Down => "↓"@,
        KeyCode::Left => "←"@,
        KeyCode::Right => "→"@,
        KeyCode::PageUp => "PgUp"@,
        KeyCode::PageDown => "PgDn"@,
        KeyCode::Home => "Home"@,
        KeyCode::End => "End"@,
        KeyCode::Tab => "Tab"@,
        KeyCode::BackTab => "⇧Tab"@,
        KeyCode::Enter => "↩"@,
        KeyCode::Esc => "Esc"@,
        KeyCode::Backspace => "⌫"@,
        KeyCode::Delete => "⌦"@,
        KeyCode::Char(c) => seq![c],
        KeyCode::Other => Seq::empty(),
    }
}

/// `C-`, `M-` and `S-` for Ctrl, Alt and Super, stacked in that order.
/// Shift gets no prefix: it shows in the character itself.
pub open spec fn modifier_prefix(m: KeyModifiers) -> Seq<char> {
    (if m.control { "C-"@ } else { Seq::empty() })
        + (if m.alt { "M-"@ } else { Seq::empty() })
        + (if m.super_key { "S-"@ } else { Seq::empty() })
}

/// Compact label for a key press: empty when the key gets no label,
/// otherwise the modifier prefix followed by the key's label.
pub open spec fn key_label(key: KeyEvent) -> Seq<char> {
    if key.code == KeyCode::Other {
        Seq::empty()
    } else {
        modifier_prefix(key.modifiers) + key_body_label(key.code)
    }
}

/// Compact human label for a key press, used by the corner overlay.
pub fn format_key_label(key: &KeyEvent) -> (s: String)
    ensures
        s@ == key_label(*key),
{
    let mut s = String::new();
    let body: &str = match key.code {
        KeyCode::Up => "↑",
        KeyCode::Down => "↓",
        KeyCode::Left => "←",
        KeyCode::Right => "→",
        KeyCode::PageUp => "PgUp",
        KeyCode::PageDown => "PgDn",
        KeyCode::Home => "Home",
        KeyCode::End => "End",
        KeyCode::Tab => "Tab",
        KeyCode::BackTab => "⇧Tab",
        KeyCode::Enter => "↩",
        KeyCode::Esc => "Esc",
        KeyCode::Backspace => "⌫",
        KeyCode::Delete => "⌦",
        KeyCode::Char(_) => "",
        KeyCode::Other => {
            return s;
        },
    };
    if key.modifiers.control {
        push_str(&mut s, "C-");
    }
    if key.modifiers.alt {
        push_str(&mut s, "M-");
    }
    if key.modifiers.super_key {
        push_str(&mut s, "S-");
    }
    match key.code {
        KeyCode::Char(c) => {
            push_char(&mut s, c);
        },
        _ => {
            push_str(&mut s, body);
        },
    }
    s
}


/// How modifiers show in a key label: a key's label is its bare label
/// (pressed with no modifier) preceded by `C-` when Ctrl is held, then
/// `M-` for Alt, then `S-` for Super; Shift changes nothing; a bare
/// character key is labelled by the character itself, and only an
/// unrecognised key has an empty label.
pub proof fn lemma_key_label_modifiers(key: KeyEvent)
    ensures
        ({
            let bare = KeyEvent {
                code: key.code,
                modifiers: KeyModifiers { shift: false, control: false, alt: false, super_key: false },
            };
            let shifted = KeyEvent {
                code: key.code,
                modifiers: KeyModifiers { shift: !key.modifiers.shift, ..key.modifiers },
            };
            &&& key.code != KeyCode::Other ==> key_label(key) == (if key.modifiers.control {
                "C-"@
            } else {
                Seq::empty()
            }) + (if key.modifiers.alt {
                "M-"@
            } else {
                Seq::empty()
            }) + (if key.modifiers.super_key {
                "S-"@
            } else {
                Seq::empty()
            }) + key_label(bare)
            &&& key_label(shifted) == key_label(key)
            &&& (key.code matches KeyCode::Char(c) ==> key_label(bare) == seq![c])
            &&& (key_label(key).len() == 0 <==> key.code == KeyCode::Other)
        }),
{
    let bare = KeyEvent {
        code: key.code,
        modifiers: KeyModifiers { shift: false, control: false, alt: false, super_key: false },
    };
    assert(modifier_prefix(bare.modifiers) =~= Seq::<char>::empty());
    assert(key_label(bare) =~= key_body_label(key.code) || key.code == KeyCode::Other);
    reveal_strlit("↑");
    reveal_strlit("↓");
    reveal_strlit("←");
    reveal_strlit("→");
    reveal_strlit("PgUp");
    reveal_strlit("PgDn");
    reveal_strlit("Home");
    reveal_strlit("End");
    reveal_strlit("Tab");
    reveal_strlit("⇧Tab");
    reveal_strlit("↩");
    reveal_strlit("Esc");
    reveal_strlit("⌫");
    reveal_strlit("⌦");
    assert(key.code != KeyCode::Other ==> key_body_label(key.code).len() > 0);
}

} // verus!
