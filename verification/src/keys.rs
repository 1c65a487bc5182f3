//! A plain model of keyboard events and the stable key names used to match
//! keybindings.

use vstd::prelude::*;

use crate::text::string_push_str;

verus! {

/// Physical key positions that have a stable keybinding name.
#[derive(Clone, Copy, Debug, PartialEq, Eq, Structural)]
pub enum KeyCode {
    KeyA, KeyB, KeyC, KeyD, KeyE, KeyF, KeyG, KeyH, KeyI, KeyJ, KeyK, KeyL, KeyM,
    KeyN, KeyO, KeyP, KeyQ, KeyR, KeyS, KeyT, KeyU, KeyV, KeyW, KeyX, KeyY, KeyZ,
    Digit0, Digit1, Digit2, Digit3, Digit4, Digit5, Digit6, Digit7, Digit8, Digit9,
    Minus, Equal, Backquote, Backslash, IntlBackslash, Slash, Comma, Period, Semicolon,
    Quote, BracketLeft, BracketRight,
    Enter, Tab, Space, Backspace, Escape, Insert, Delete, Home, End, PageUp, PageDown,
    ArrowUp, ArrowDown, ArrowLeft, ArrowRight,
    F1, F2, F3, F4, F5, F6, F7, F8, F9, F10, F11, F12,
    /// Any other physical key.
    Other,
}

/// The physical key of an event.
#[derive(Clone, Copy, Debug, PartialEq, Eq, Structural)]
pub enum PhysicalKey {
    Code(KeyCode),
    Unidentified,
}

/// Named logical keys.
#[derive(Clone, Copy, Debug, PartialEq, Eq, Structural)]
pub enum NamedKey {
    Enter, Tab, Space, Backspace, Escape, Insert, Delete, Home, End, PageUp, PageDown,
    ArrowUp, ArrowDown, ArrowLeft, ArrowRight,
    F1, F2, F3, F4, F5, F6, F7, F8, F9, F10, F11, F12,
    /// Any other named key.
    Other,
}

/// The logical key of an event, as the keyboard layout produced it.
#[derive(Clone, Debug)]
pub enum LogicalKey {
    Named(NamedKey),
    Character(String),
    /// A key that is neither named nor produces text.
    Other,
}

/// Modifier keys held during an event.
#[derive(Clone, Copy, Debug, PartialEq, Eq, Structural)]
pub struct Modifiers {
    pub control: bool,
    pub shift: bool,
    pub alt: bool,
    pub super_key: bool,
}

impl Modifiers {
    /// No modifier held.
    pub fn empty() -> (m: Modifiers)
        ensures
            !m.control && !m.shift && !m.alt && !m.super_key,
    {
        Modifiers { control: false, shift: false, alt: false, super_key: false }
    }

    pub fn control_key(&self) -> (r: bool)
        ensures
            r == self.control,
    {
        self.control
    }

    pub fn shift_key(&self) -> (r: bool)
        ensures
            r == self.shift,
    {
        self.shift
    }

    pub fn alt_key(&self) -> (r: bool)
        ensures
            r == self.alt,
    {
        self.alt
    }
}

/// A keyboard event.
#[derive(Clone, Debug)]
pub struct KeyEvent {
    pub physical_key: PhysicalKey,
    pub logical_key: LogicalKey,
    /// Text the key produces, if any.
    pub text: Option<String>,
    /// The key went down (rather than up).
    pub pressed: bool,
}

/// What `str::to_lowercase` returns for a string.
pub uninterp spec fn lowercase(s: Seq<char>) -> Seq<char>;

/// The lowercase form of an ASCII character: `A`..`Z` become `a`..`z`, every
/// other ASCII character stays as it is.
pub open spec fn ascii_lower(c: char) -> char {
    if 'A' <= c <= 'Z' {
        ((c as u32) + 32) as char
    } else {
        c
    }
}

/// Calls `str::to_lowercase`: the Unicode lowercase mapping of the whole
/// string. The result is named by `lowercase`. Of an ASCII string it is
/// stated that each letter is lowered and every other character kept, as the
/// Unicode mapping does for ASCII; nothing is stated of other strings.
#[verifier::external_body]
pub(crate) fn to_lowercase(s: &str) -> (r: String)
    ensures
        r@ == lowercase(s@),
        vstd::utf8::is_ascii_chars(s@) ==> r@ == s@.map_values(|c: char| ascii_lower(c)),
{
    s.to_lowercase()
}

/// Stable name of a physical key position.
pub open spec fn key_code_name(code: KeyCode) -> Option<Seq<char>> {
    match code {
        KeyCode::KeyA => Some("a"@), KeyCode::KeyB => Some("b"@), KeyCode::KeyC => Some("c"@),
        KeyCode::KeyD => Some("d"@), KeyCode::KeyE => Some("e"@), KeyCode::KeyF => Some("f"@),
        KeyCode::KeyG => Some("g"@), KeyCode::KeyH => Some("h"@), KeyCode::KeyI => Some("i"@),
        KeyCode::KeyJ => Some("j"@), KeyCode::KeyK => Some("k"@), KeyCode::KeyL => Some("l"@),
        KeyCode::KeyM => Some("m"@), KeyCode::KeyN => Some("n"@), KeyCode::KeyO => Some("o"@),
        KeyCode::KeyP => Some("p"@), KeyCode::KeyQ => Some("q"@), KeyCode::KeyR => Some("r"@),
        KeyCode::KeyS => Some("s"@), KeyCode::KeyT => Some("t"@), KeyCode::KeyU => Some("u"@),
        KeyCode::KeyV => Some("v"@), KeyCode::KeyW => Some("w"@), KeyCode::KeyX => Some("x"@),
        KeyCode::KeyY => Some("y"@), KeyCode::KeyZ => Some("z"@),
        KeyCode::Digit0 => Some("0"@), KeyCode::Digit1 => Some("1"@), KeyCode::Digit2 => Some("2"@),
        KeyCode::Digit3 => Some("3"@), KeyCode::Digit4 => Some("4"@), KeyCode::Digit5 => Some("5"@),
        KeyCode::Digit6 => Some("6"@), KeyCode::Digit7 => Some("7"@), KeyCode::Digit8 => Some("8"@),
        KeyCode::Digit9 => Some("9"@),
        KeyCode::Minus => Some("-"@), KeyCode::Equal => Some("="@), KeyCode::Backquote => Some("`"@),
        KeyCode::Backslash => Some("\\"@), KeyCode::IntlBackslash => Some("\\"@),
        KeyCode::Slash => Some("/"@), KeyCode::Comma => Some(","@), KeyCode::Period => Some("."@),
        KeyCode::Semicolon => Some(";"@), KeyCode::Quote => Some("'"@),
        KeyCode::BracketLeft => Some("["@), KeyCode::BracketRight => Some("]"@),
        KeyCode::Enter => Some("enter"@), KeyCode::Tab => Some("tab"@), KeyCode::Space => Some("space"@),
        KeyCode::Backspace => Some("backspace"@), KeyCode::Escape => Some("escape"@),
        KeyCode::Insert => Some("insert"@), KeyCode::Delete => Some("delete"@),
        KeyCode::Home => Some("home"@), KeyCode::End => Some("end"@),
        KeyCode::PageUp => Some("pageup"@), KeyCode::PageDown => Some("pagedown"@),
        KeyCode::ArrowUp => Some("up"@), KeyCode::ArrowDown => Some("down"@),
        KeyCode::ArrowLeft => Some("left"@), KeyCode::ArrowRight => Some("right"@),
        KeyCode::F1 => Some("f1"@), KeyCode::F2 => Some("f2"@), KeyCode::F3 => Some("f3"@),
        KeyCode::F4 => Some("f4"@), KeyCode::F5 => Some("f5"@), KeyCode::F6 => Some("f6"@),
        KeyCode::F7 => Some("f7"@), KeyCode::F8 => Some("f8"@), KeyCode::F9 => Some("f9"@),
        KeyCode::F10 => Some("f10"@), KeyCode::F11 => Some("f11"@), KeyCode::F12 => Some("f12"@),
        KeyCode::Other => None,
    }
}

/// Stable name of a named logical key.
pub open spec fn named_key_name(key: NamedKey) -> Option<Seq<char>> {
    match key {
        NamedKey::Enter => Some("enter"@), NamedKey::Tab => Some("tab"@), NamedKey::Space => Some("space"@),
        NamedKey::Backspace => Some("backspace"@), NamedKey::Escape => Some("escape"@),
        NamedKey::Insert => Some("insert"@), NamedKey::Delete => Some("delete"@),
        NamedKey::Home => Some("home"@), NamedKey::End => Some("end"@),
        NamedKey::PageUp => Some("pageup"@), NamedKey::PageDown => Some("pagedown"@),
        NamedKey::ArrowUp => Some("up"@), NamedKey::ArrowDown => Some("down"@),
        NamedKey::ArrowLeft => Some("left"@), NamedKey::ArrowRight => Some("right"@),
        NamedKey::F1 => Some("f1"@), NamedKey::F2 => Some("f2"@), NamedKey::F3 => Some("f3"@),
        NamedKey::F4 => Some("f4"@), NamedKey::F5 => Some("f5"@), NamedKey::F6 => Some("f6"@),
        NamedKey::F7 => Some("f7"@), NamedKey::F8 => Some("f8"@), NamedKey::F9 => Some("f9"@),
        NamedKey::F10 => Some("f10"@), NamedKey::F11 => Some("f11"@), NamedKey::F12 => Some("f12"@),
        NamedKey::Other => None,
    }
}

/// The keybinding name of an event: the name of its physical key when that
/// key has one, otherwise the lowercased text of a character key or the name
/// of a named key.
pub open spec fn spec_key_string(event: KeyEvent) -> Option<Seq<char>> {
    let physical = match event.physical_key {
        PhysicalKey::Code(code) => key_code_name(code),
        PhysicalKey::Unidentified => None,
    };
    match physical {
        Some(name) => Some(name),
        None => match event.logical_key {
            LogicalKey::Character(c) => Some(lowercase(c@)),
            LogicalKey::Named(named) => named_key_name(named),
            LogicalKey::Other => None,
        },
    }
}

fn key_code_str(code: KeyCode) -> (r: Option<&'static str>)
    ensures
        match r {
            Some(s) => key_code_name(code) == Some(s@),
            None => key_code_name(code) is None,
        },
{
    match code {
        KeyCode::KeyA => Some("a"), KeyCode::KeyB => Some("b"), KeyCode::KeyC => Some("c"),
        KeyCode::KeyD => Some("d"), KeyCode::KeyE => Some("e"), KeyCode::KeyF => Some("f"),
        KeyCode::KeyG => Some("g"), KeyCode::KeyH => Some("h"), KeyCode::KeyI => Some("i"),
        KeyCode::KeyJ => Some("j"), KeyCode::KeyK => Some("k"), KeyCode::KeyL => Some("l"),
        KeyCode::KeyM => Some("m"), KeyCode::KeyN => Some("n"), KeyCode::KeyO => Some("o"),
        KeyCode::KeyP => Some("p"), KeyCode::KeyQ => Some("q"), KeyCode::KeyR => Some("r"),
        KeyCode::KeyS => Some("s"), KeyCode::KeyT => Some("t"), KeyCode::KeyU => Some("u"),
        KeyCode::KeyV => Some("v"), KeyCode::KeyW => Some("w"), KeyCode::KeyX => Some("x"),
        KeyCode::KeyY => Some("y"), KeyCode::KeyZ => Some("z"),
        KeyCode::Digit0 => Some("0"), KeyCode::Digit1 => Some("1"), KeyCode::Digit2 => Some("2"),
        KeyCode::Digit3 => Some("3"), KeyCode::Digit4 => Some("4"), KeyCode::Digit5 => Some("5"),
        KeyCode::Digit6 => Some("6"), KeyCode::Digit7 => Some("7"), KeyCode::Digit8 => Some("8"),
        KeyCode::Digit9 => Some("9"),
        KeyCode::Minus => Some("-"), KeyCode::Equal => Some("="), KeyCode::Backquote => Some("`"),
        KeyCode::Backslash => Some("\\"), KeyCode::IntlBackslash => Some("\\"),
        KeyCode::Slash => Some("/"), KeyCode::Comma => Some(","), KeyCode::Period => Some("."),
        KeyCode::Semicolon => Some(";"), KeyCode::Quote => Some("'"),
        KeyCode::BracketLeft => Some("["), KeyCode::BracketRight => Some("]"),
        KeyCode::Enter => Some("enter"), KeyCode::Tab => Some("tab"), KeyCode::Space => Some("space"),
        KeyCode::Backspace => Some("backspace"), KeyCode::Escape => Some("escape"),
        KeyCode::Insert => Some("insert"), KeyCode::Delete => Some("delete"),
        KeyCode::Home => Some("home"), KeyCode::End => Some("end"),
        KeyCode::PageUp => Some("pageup"), KeyCode::PageDown => Some("pagedown"),
        KeyCode::ArrowUp => Some("up"), KeyCode::ArrowDown => Some("down"),
        KeyCode::ArrowLeft => Some("left"), KeyCode::ArrowRight => Some("right"),
        KeyCode::F1 => Some("f1"), KeyCode::F2 => Some("f2"), KeyCode::F3 => Some("f3"),
        KeyCode::F4 => Some("f4"), KeyCode::F5 => Some("f5"), KeyCode::F6 => Some("f6"),
        KeyCode::F7 => Some("f7"), KeyCode::F8 => Some("f8"), KeyCode::F9 => Some("f9"),
        KeyCode::F10 => Some("f10"), KeyCode::F11 => Some("f11"), KeyCode::F12 => Some("f12"),
        KeyCode::Other => None,
    }
}

fn named_key_str(key: NamedKey) -> (r: Option<&'static str>)
    ensures
        match r {
            Some(s) => named_key_name(key) == Some(s@),
            None => named_key_name(key) is None,
        },
{
    match key {
        NamedKey::Enter => Some("enter"), NamedKey::Tab => Some("tab"), NamedKey::Space => Some("space"),
        NamedKey::Backspace => Some("backspace"), NamedKey::Escape => Some("escape"),
        NamedKey::Insert => Some("insert"), NamedKey::Delete => Some("delete"),
        NamedKey::Home => Some("home"), NamedKey::End => Some("end"),
        NamedKey::PageUp => Some("pageup"), NamedKey::PageDown => Some("pagedown"),
        NamedKey::ArrowUp => Some("up"), NamedKey::ArrowDown => Some("down"),
        NamedKey::ArrowLeft => Some("left"), NamedKey::ArrowRight => Some("right"),
        NamedKey::F1 => Some("f1"), NamedKey::F2 => Some("f2"), NamedKey::F3 => Some("f3"),
        NamedKey::F4 => Some("f4"), NamedKey::F5 => Some("f5"), NamedKey::F6 => Some("f6"),
        NamedKey::F7 => Some("f7"), NamedKey::F8 => Some("f8"), NamedKey::F9 => Some("f9"),
        NamedKey::F10 => Some("f10"), NamedKey::F11 => Some("f11"), NamedKey::F12 => Some("f12"),
        NamedKey::Other => None,
    }
}

/// Converts a key event into a stable key string for keybind matching.
///
/// This is based on the *physical* key where possible, so `ctrl+shift+-`
/// matches "-" (not "_") and `ctrl+shift+\` matches "\" (not "|").
pub fn key_event_to_string(event: &KeyEvent) -> (r: Option<String>)
    ensures
        match r {
            Some(s) => spec_key_string(*event) == Some(s@),
            None => spec_key_string(*event) is None,
        },
{
    if let PhysicalKey::Code(code) = event.physical_key {
        if let Some(s) = key_code_str(code) {
            return Some(s.to_owned());
        }
    }
    match &event.logical_key {
        LogicalKey::Character(c) => Some(to_lowercase(c.as_str())),
        LogicalKey::Named(named) => match named_key_str(*named) {
            Some(s) => Some(s.to_owned()),
            None => None,
        },
        LogicalKey::Other => None,
    }
}

/// The name under which a key pressed with `modifiers` is bound: the
/// `ctrl+`, `shift+` and `alt+` prefixes that apply, in that order, then the
/// key's name.
pub open spec fn binding_name(key: Seq<char>, modifiers: Modifiers) -> Seq<char> {
    (if modifiers.control { "ctrl+"@ } else { Seq::<char>::empty() }) + (if modifiers.shift {
        "shift+"@
    } else {
        Seq::<char>::empty()
    }) + (if modifiers.alt { "alt+"@ } else { Seq::<char>::empty() }) + key
}

/// Builds the name under which a key pressed with `modifiers` is bound.
pub fn keybind_name(key: &str, modifiers: Modifiers) -> (r: String)
    ensures
        r@ == binding_name(key@, modifiers),
{
    let mut s = String::new();
    if modifiers.control {
        string_push_str(&mut s, "ctrl+");
    }
    if modifiers.shift {
        string_push_str(&mut s, "shift+");
    }
    if modifiers.alt {
        string_push_str(&mut s, "alt+");
    }
    string_push_str(&mut s, key);
    proof {
        assert(s@ =~= binding_name(key@, modifiers));
    }
    s
}

/// The physical key whose name is `name`, read back from the name's length
/// and its first and last characters (which tell all key names apart). The
/// backslash name reads back as `Backslash`.
pub open spec fn key_code_of_name(name: Seq<char>) -> Option<KeyCode> {
    if name.len() == 1 {
        let c = name[0];
        if c == 'a' {
            Some(KeyCode::KeyA)
        } else if c == 'b' {
            Some(KeyCode::KeyB)
        } else if c == 'c' {
            Some(KeyCode::KeyC)
        } else if c == 'd' {
            Some(KeyCode::KeyD)
        } else if c == 'e' {
            Some(KeyCode::KeyE)
        } else if c == 'f' {
            Some(KeyCode::KeyF)
        } else if c == 'g' {
            Some(KeyCode::KeyG)
        } else if c == 'h' {
            Some(KeyCode::KeyH)
        } else if c == 'i' {
            Some(KeyCode::KeyI)
        } else if c == 'j' {
            Some(KeyCode::KeyJ)
        } else if c == 'k' {
            Some(KeyCode::KeyK)
        } else if c == 'l' {
            Some(KeyCode::KeyL)
        } else if c == 'm' {
            Some(KeyCode::KeyM)
        } else if c == 'n' {
            Some(KeyCode::KeyN)
        } else if c == 'o' {
            Some(KeyCode::KeyO)
        } else if c == 'p' {
            Some(KeyCode::KeyP)
        } else if c == 'q' {
            Some(KeyCode::KeyQ)
        } else if c == 'r' {
            Some(KeyCode::KeyR)
        } else if c == 's' {
            Some(KeyCode::KeyS)
        } else if c == 't' {
            Some(KeyCode::KeyT)
        } else if c == 'u' {
            Some(KeyCode::KeyU)
        } else if c == 'v' {
            Some(KeyCode::KeyV)
        } else if c == 'w' {
            Some(KeyCode::KeyW)
        } else if c == 'x' {
            Some(KeyCode::KeyX)
        } else if c == 'y' {
            Some(KeyCode::KeyY)
        } else if c == 'z' {
            Some(KeyCode::KeyZ)
        } else if c == '0' {
            Some(KeyCode::Digit0)
        } else if c == '1' {
            Some(KeyCode::Digit1)
        } else if c == '2' {
            Some(KeyCode::Digit2)
        } else if c == '3' {
            Some(KeyCode::Digit3)
        } else if c == '4' {
            Some(KeyCode::Digit4)
        } else if c == '5' {
            Some(KeyCode::Digit5)
        } else if c == '6' {
            Some(KeyCode::Digit6)
        } else if c == '7' {
            Some(KeyCode::Digit7)
        } else if c == '8' {
            Some(KeyCode::Digit8)
        } else if c == '9' {
            Some(KeyCode::Digit9)
        } else if c == '-' {
            Some(KeyCode::Minus)
        } else if c == '=' {
            Some(KeyCode::Equal)
        } else if c == '`' {
            Some(KeyCode::Backquote)
        } else if c == '\\' {
            Some(KeyCode::Backslash)
        } else if c == '/' {
            Some(KeyCode::Slash)
        } else if c == ',' {
            Some(KeyCode::Comma)
        } else if c == '.' {
            Some(KeyCode::Period)
        } else if c == ';' {
            Some(KeyCode::Semicolon)
        } else if c == '\'' {
            Some(KeyCode::Quote)
        } else if c == '[' {
            Some(KeyCode::BracketLeft)
        } else if c == ']' {
            Some(KeyCode::BracketRight)
        } else {
            None
        }
    } else {
        let (n, a, z) = (name.len(), name[0], name[name.len() - 1]);
        if n == 5 && a == 'e' && z == 'r' {
            Some(KeyCode::Enter)
        } else if n == 3 && a == 't' && z == 'b' {
            Some(KeyCode::Tab)
        } else if n == 5 && a == 's' && z == 'e' {
            Some(KeyCode::Space)
        } else if n == 9 && a == 'b' && z == 'e' {
            Some(KeyCode::Backspace)
        } else if n == 6 && a == 'e' && z == 'e' {
            Some(KeyCode::Escape)
        } else if n == 6 && a == 'i' && z == 't' {
            Some(KeyCode::Insert)
        } else if n == 6 && a == 'd' && z == 'e' {
            Some(KeyCode::Delete)
        } else if n == 4 && a == 'h' && z == 'e' {
            Some(KeyCode::Home)
        } else if n == 3 && a == 'e' && z == 'd' {
            Some(KeyCode::End)
        } else if n == 6 && a == 'p' && z == 'p' {
            Some(KeyCode::PageUp)
        } else if n == 8 && a == 'p' && z == 'n' {
            Some(KeyCode::PageDown)
        } else if n == 2 && a == 'u' && z == 'p' {
            Some(KeyCode::ArrowUp)
        } else if n == 4 && a == 'd' && z == 'n' {
            Some(KeyCode::ArrowDown)
        } else if n == 4 && a == 'l' && z == 't' {
            Some(KeyCode::ArrowLeft)
        } else if n == 5 && a == 'r' && z == 't' {
            Some(KeyCode::ArrowRight)
        } else if n == 2 && a == 'f' && z == '1' {
            Some(KeyCode::F1)
        } else if n == 2 && a == 'f' && z == '2' {
            Some(KeyCode::F2)
        } else if n == 2 && a == 'f' && z == '3' {
            Some(KeyCode::F3)
        } else if n == 2 && a == 'f' && z == '4' {
            Some(KeyCode::F4)
        } else if n == 2 && a == 'f' && z == '5' {
            Some(KeyCode::F5)
        } else if n == 2 && a == 'f' && z == '6' {
            Some(KeyCode::F6)
        } else if n == 2 && a == 'f' && z == '7' {
            Some(KeyCode::F7)
        } else if n == 2 && a == 'f' && z == '8' {
            Some(KeyCode::F8)
        } else if n == 2 && a == 'f' && z == '9' {
            Some(KeyCode::F9)
        } else if n == 3 && a == 'f' && z == '0' {
            Some(KeyCode::F10)
        } else if n == 3 && a == 'f' && z == '1' {
            Some(KeyCode::F11)
        } else if n == 3 && a == 'f' && z == '2' {
            Some(KeyCode::F12)
        } else {
            None
        }
    }
}

/// Every key name reads back as the key it names: the name of a physical
/// key is the name of no other key, except that the two backslash keys
/// share `\`. Only `Other` has no name.
pub proof fn lemma_key_names_read_back(code: KeyCode)
    ensures
        match key_code_name(code) {
            Some(name) => key_code_of_name(name) == Some(
                if code == KeyCode::IntlBackslash {
                    KeyCode::Backslash
                } else {
                    code
                },
            ),
            None => code == KeyCode::Other,
        },
{
    reveal_strlit("a");
    reveal_strlit("b");
    reveal_strlit("c");
    reveal_strlit("d");
    reveal_strlit("e");
    reveal_strlit("f");
    reveal_strlit("g");
    reveal_strlit("h");
    reveal_strlit("i");
    reveal_strlit("j");
    reveal_strlit("k");
    reveal_strlit("l");
    reveal_strlit("m");
    reveal_strlit("n");
    reveal_strlit("o");
    reveal_strlit("p");
    reveal_strlit("q");
    reveal_strlit("r");
    reveal_strlit("s");
    reveal_strlit("t");
    reveal_strlit("u");
    reveal_strlit("v");
    reveal_strlit("w");
    reveal_strlit("x");
    reveal_strlit("y");
    reveal_strlit("z");
    reveal_strlit("0");
    reveal_strlit("1");
    reveal_strlit("2");
    reveal_strlit("3");
    reveal_strlit("4");
    reveal_strlit("5");
    reveal_strlit("6");
    reveal_strlit("7");
    reveal_strlit("8");
    reveal_strlit("9");
    reveal_strlit("-");
    reveal_strlit("=");
    reveal_strlit("`");
    reveal_strlit("\\");
    reveal_strlit("/");
    reveal_strlit(",");
    reveal_strlit(".");
    reveal_strlit(";");
    reveal_strlit("'");
    reveal_strlit("[");
    reveal_strlit("]");
    reveal_strlit("enter");
    reveal_strlit("tab");
    reveal_strlit("space");
    reveal_strlit("backspace");
    reveal_strlit("escape");
    reveal_strlit("insert");
    reveal_strlit("delete");
    reveal_strlit("home");
    reveal_strlit("end");
    reveal_strlit("pageup");
    reveal_strlit("pagedown");
    reveal_strlit("up");
    reveal_strlit("down");
    reveal_strlit("left");
    reveal_strlit("right");
    reveal_strlit("f1");
    reveal_strlit("f2");
    reveal_strlit("f3");
    reveal_strlit("f4");
    reveal_strlit("f5");
    reveal_strlit("f6");
    reveal_strlit("f7");
    reveal_strlit("f8");
    reveal_strlit("f9");
    reveal_strlit("f10");
    reveal_strlit("f11");
    reveal_strlit("f12");
}

/// Distinct physical keys get distinct names, but for the two backslash keys.
pub proof fn lemma_key_names_distinct(a: KeyCode, b: KeyCode)
    ensures
        key_code_name(a) is Some && key_code_name(a) == key_code_name(b) ==> a == b || ((a == KeyCode::Backslash
            || a == KeyCode::IntlBackslash) && (b == KeyCode::Backslash || b == KeyCode::IntlBackslash)),
{
    lemma_key_names_read_back(a);
    lemma_key_names_read_back(b);
}

/// The physical key that carries a named logical key on every layout.
pub open spec fn named_key_code(key: NamedKey) -> Option<KeyCode> {
    match key {
        NamedKey::Enter => Some(KeyCode::Enter),
        NamedKey::Tab => Some(KeyCode::Tab),
        NamedKey::Space => Some(KeyCode::Space),
        NamedKey::Backspace => Some(KeyCode::Backspace),
        NamedKey::Escape => Some(KeyCode::Escape),
        NamedKey::Insert => Some(KeyCode::Insert),
        NamedKey::Delete => Some(KeyCode::Delete),
        NamedKey::Home => Some(KeyCode::Home),
        NamedKey::End => Some(KeyCode::End),
        NamedKey::PageUp => Some(KeyCode::PageUp),
        NamedKey::PageDown => Some(KeyCode::PageDown),
        NamedKey::ArrowUp => Some(KeyCode::ArrowUp),
        NamedKey::ArrowDown => Some(KeyCode::ArrowDown),
        NamedKey::ArrowLeft => Some(KeyCode::ArrowLeft),
        NamedKey::ArrowRight => Some(KeyCode::ArrowRight),
        NamedKey::F1 => Some(KeyCode::F1),
        NamedKey::F2 => Some(KeyCode::F2),
        NamedKey::F3 => Some(KeyCode::F3),
        NamedKey::F4 => Some(KeyCode::F4),
        NamedKey::F5 => Some(KeyCode::F5),
        NamedKey::F6 => Some(KeyCode::F6),
        NamedKey::F7 => Some(KeyCode::F7),
        NamedKey::F8 => Some(KeyCode::F8),
        NamedKey::F9 => Some(KeyCode::F9),
        NamedKey::F10 => Some(KeyCode::F10),
        NamedKey::F11 => Some(KeyCode::F11),
        NamedKey::F12 => Some(KeyCode::F12),
        NamedKey::Other => None,
    }
}

/// A named key gets the same name whether it is known by its physical key
/// or only by its logical key: arrows, function and editing keys are named
/// after what they are, not after the layout.
pub proof fn lemma_physical_and_logical_names_agree(key: NamedKey, text: Option<String>, pressed: bool)
    ensures
        named_key_code(key) matches Some(code) ==> spec_key_string(
            KeyEvent { physical_key: PhysicalKey::Code(code), logical_key: LogicalKey::Named(key), text, pressed },
        ) == spec_key_string(
            KeyEvent { physical_key: PhysicalKey::Unidentified, logical_key: LogicalKey::Named(key), text, pressed },
        ),
        named_key_code(key) matches Some(code) ==> key_code_name(code) == named_key_name(key),
        named_key_name(key) matches Some(name) ==> key_code_of_name(name) == named_key_code(key),
        named_key_name(key) is None <==> key == NamedKey::Other,
{
    if let Some(code) = named_key_code(key) {
        lemma_key_names_read_back(code);
    }
}

} // verus!
