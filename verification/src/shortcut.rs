//! Parsing of keyboard shortcuts such as `Ctrl+`` ` or `Ctrl+Shift+F5`:
//! modifier names joined by `+`, then the key.
use vstd::prelude::*;
use crate::text::{chars_of, string_of, trim, trim_chars, split_on, split_on_char, seqs_of};

verus! {

/// Which modifier keys a shortcut holds.
#[derive(Clone, Copy, Debug, PartialEq, Eq, Structural)]
pub struct Modifiers {
    pub control: bool,
    pub alt: bool,
    pub shift: bool,
    pub super_key: bool,
}

/// The keys a shortcut can use.
#[derive(Clone, Copy, Debug, PartialEq, Eq, Structural)]
pub enum KeyCode {
    Backquote,
    Digit1,
    Digit2,
    Digit3,
    Digit4,
    Digit5,
    Digit6,
    Digit7,
    Digit8,
    Digit9,
    Digit0,
    KeyA,
    KeyB,
    KeyC,
    KeyD,
    KeyE,
    KeyF,
    KeyG,
    KeyH,
    KeyI,
    KeyJ,
    KeyK,
    KeyL,
    KeyM,
    KeyN,
    KeyO,
    KeyP,
    KeyQ,
    KeyR,
    KeyS,
    KeyT,
    KeyU,
    KeyV,
    KeyW,
    KeyX,
    KeyY,
    KeyZ,
    F1,
    F2,
    F3,
    F4,
    F5,
    F6,
    F7,
    F8,
    F9,
    F10,
    F11,
    F12,
    Space,
    Enter,
    Tab,
    Escape,
    Backspace,
    Delete,
    Home,
    End,
    PageUp,
    PageDown,
    ArrowUp,
    ArrowDown,
    ArrowLeft,
    ArrowRight,
    Insert,
    Minus,
    Equal,
    BracketLeft,
    BracketRight,
    Semicolon,
    Quote,
    Comma,
    Period,
    Slash,
    Backslash,
}

/// The key a name denotes, if any.
pub open spec fn key_code(name: Seq<char>) -> Option<KeyCode> {
    if name == "`"@ || name == "Backquote"@ {
        Some(KeyCode::Backquote)
    } else if name == "1"@ {
        Some(KeyCode::Digit1)
    } else if name == "2"@ {
        Some(KeyCode::Digit2)
    } else if name == "3"@ {
        Some(KeyCode::Digit3)
    } else if name == "4"@ {
        Some(KeyCode::Digit4)
    } else if name == "5"@ {
        Some(KeyCode::Digit5)
    } else if name == "6"@ {
        Some(KeyCode::Digit6)
    } else if name == "7"@ {
        Some(KeyCode::Digit7)
    } else if name == "8"@ {
        Some(KeyCode::Digit8)
    } else if name == "9"@ {
        Some(KeyCode::Digit9)
    } else if name == "0"@ {
        Some(KeyCode::Digit0)
    } else if name == "A"@ || name == "a"@ {
        Some(KeyCode::KeyA)
    } else if name == "B"@ || name == "b"@ {
        Some(KeyCode::KeyB)
    } else if name == "C"@ || name == "c"@ {
        Some(KeyCode::KeyC)
    } else if name == "D"@ || name == "d"@ {
        Some(KeyCode::KeyD)
    } else if name == "E"@ || name == "e"@ {
        Some(KeyCode::KeyE)
    } else if name == "F"@ || name == "f"@ {
        Some(KeyCode::KeyF)
    } else if name == "G"@ || name == "g"@ {
        Some(KeyCode::KeyG)
    } else if name == "H"@ || name == "h"@ {
        Some(KeyCode::KeyH)
    } else if name == "I"@ || name == "i"@ {
        Some(KeyCode::KeyI)
    } else if name == "J"@ || name == "j"@ {
        Some(KeyCode::KeyJ)
    } else if name == "K"@ || name == "k"@ {
        Some(KeyCode::KeyK)
    } else if name == "L"@ || name == "l"@ {
        Some(KeyCode::KeyL)
    } else if name == "M"@ || name == "m"@ {
        Some(KeyCode::KeyM)
    } else if name == "N"@ || name == "n"@ {
        Some(KeyCode::KeyN)
    } else if name == "O"@ || name == "o"@ {
        Some(KeyCode::KeyO)
    } else if name == "P"@ || name == "p"@ {
        Some(KeyCode::KeyP)
    } else if name == "Q"@ || name == "q"@ {
        Some(KeyCode::KeyQ)
    } else if name == "R"@ || name == "r"@ {
        Some(KeyCode::KeyR)
    } else if name == "S"@ || name == "s"@ {
        Some(KeyCode::KeyS)
    } else if name == "T"@ || name == "t"@ {
        Some(KeyCode::KeyT)
    } else if name == "U"@ || name == "u"@ {
        Some(KeyCode::KeyU)
    } else if name == "V"@ || name == "v"@ {
        Some(KeyCode::KeyV)
    } else if name == "W"@ || name == "w"@ {
        Some(KeyCode::KeyW)
    } else if name == "X"@ || name == "x"@ {
        Some(KeyCode::KeyX)
    } else if name == "Y"@ || name == "y"@ {
        Some(KeyCode::KeyY)
    } else if name == "Z"@ || name == "z"@ {
        Some(KeyCode::KeyZ)
    } else if name == "F1"@ {
        Some(KeyCode::F1)
    } else if name == "F2"@ {
        Some(KeyCode::F2)
    } else if name == "F3"@ {
        Some(KeyCode::F3)
    } else if name == "F4"@ {
        Some(KeyCode::F4)
    } else if name == "F5"@ {
        Some(KeyCode::F5)
    } else if name == "F6"@ {
        Some(KeyCode::F6)
    } else if name == "F7"@ {
        Some(KeyCode::F7)
    } else if name == "F8"@ {
        Some(KeyCode::F8)
    } else if name == "F9"@ {
        Some(KeyCode::F9)
    } else if name == "F10"@ {
        Some(KeyCode::F10)
    } else if name == "F11"@ {
        Some(KeyCode::F11)
    } else if name == "F12"@ {
        Some(KeyCode::F12)
    } else if name == "Space"@ || name == " "@ {
        Some(KeyCode::Space)
    } else if name == "Enter"@ || name == "Return"@ {
        Some(KeyCode::Enter)
    } else if name == "Tab"@ {
        Some(KeyCode::Tab)
    } else if name == "Esc"@ || name == "Escape"@ {
        Some(KeyCode::Escape)
    } else if name == "Backspace"@ {
        Some(KeyCode::Backspace)
    } else if name == "Delete"@ || name == "Del"@ {
        Some(KeyCode::Delete)
    } else if name == "Home"@ {
        Some(KeyCode::Home)
    } else if name == "End"@ {
        Some(KeyCode::End)
    } else if name == "PageUp"@ {
        Some(KeyCode::PageUp)
    } else if name == "PageDown"@ {
        Some(KeyCode::PageDown)
    } else if name == "Up"@ {
        Some(KeyCode::ArrowUp)
    } else if name == "Down"@ {
        Some(KeyCode::ArrowDown)
    } else if name == "Left"@ {
        Some(KeyCode::ArrowLeft)
    } else if name == "Right"@ {
        Some(KeyCode::ArrowRight)
    } else if name == "Insert"@ {
        Some(KeyCode::Insert)
    } else if name == "-"@ || name == "Minus"@ {
        Some(KeyCode::Minus)
    } else if name == "="@ || name == "Equal"@ {
        Some(KeyCode::Equal)
    } else if name == "["@ || name == "BracketLeft"@ {
        Some(KeyCode::BracketLeft)
    } else if name == "]"@ || name == "BracketRight"@ {
        Some(KeyCode::BracketRight)
    } else if name == ";"@ || name == "Semicolon"@ {
        Some(KeyCode::Semicolon)
    } else if name == "'"@ || name == "Quote"@ {
        Some(KeyCode::Quote)
    } else if name == ","@ || name == "Comma"@ {
        Some(KeyCode::Comma)
    } else if name == "."@ || name == "Period"@ {
        Some(KeyCode::Period)
    } else if name == "/"@ || name == "Slash"@ {
        Some(KeyCode::Slash)
    } else if name == "\\"@ || name == "Backslash"@ {
        Some(KeyCode::Backslash)
    } else {
        None
    }
}

/// The key a name denotes, if any.
pub fn key_code_of(name: &[char]) -> (r: Option<KeyCode>)
    ensures
        r == key_code(name@),
{
    if is_name(name, "`") || is_name(name, "Backquote") {
        Some(KeyCode::Backquote)
    } else if is_name(name, "1") {
        Some(KeyCode::Digit1)
    } else if is_name(name, "2") {
        Some(KeyCode::Digit2)
    } else if is_name(name, "3") {
        Some(KeyCode::Digit3)
    } else if is_name(name, "4") {
        Some(KeyCode::Digit4)
    } else if is_name(name, "5") {
        Some(KeyCode::Digit5)
    } else if is_name(name, "6") {
        Some(KeyCode::Digit6)
    } else if is_name(name, "7") {
        Some(KeyCode::Digit7)
    } else if is_name(name, "8") {
        Some(KeyCode::Digit8)
    } else if is_name(name, "9") {
        Some(KeyCode::Digit9)
    } else if is_name(name, "0") {
        Some(KeyCode::Digit0)
    } else if is_name(name, "A") || is_name(name, "a") {
        Some(KeyCode::KeyA)
    } else if is_name(name, "B") || is_name(name, "b") {
        Some(KeyCode::KeyB)
    } else if is_name(name, "C") || is_name(name, "c") {
        Some(KeyCode::KeyC)
    } else if is_name(name, "D") || is_name(name, "d") {
        Some(KeyCode::KeyD)
    } else if is_name(name, "E") || is_name(name, "e") {
        Some(KeyCode::KeyE)
    } else if is_name(name, "F") || is_name(name, "f") {
        Some(KeyCode::KeyF)
    } else if is_name(name, "G") || is_name(name, "g") {
        Some(KeyCode::KeyG)
    } else if is_name(name, "H") || is_name(name, "h") {
        Some(KeyCode::KeyH)
    } else if is_name(name, "I") || is_name(name, "i") {
        Some(KeyCode::KeyI)
    } else if is_name(name, "J") || is_name(name, "j") {
        Some(KeyCode::KeyJ)
    } else if is_name(name, "K") || is_name(name, "k") {
        Some(KeyCode::KeyK)
    } else if is_name(name, "L") || is_name(name, "l") {
        Some(KeyCode::KeyL)
    } else if is_name(name, "M") || is_name(name, "m") {
        Some(KeyCode::KeyM)
    } else if is_name(name, "N") || is_name(name, "n") {
        Some(KeyCode::KeyN)
    } else if is_name(name, "O") || is_name(name, "o") {
        Some(KeyCode::KeyO)
    } else if is_name(name, "P") || is_name(name, "p") {
        Some(KeyCode::KeyP)
    } else if is_name(name, "Q") || is_name(name, "q") {
        Some(KeyCode::KeyQ)
    } else if is_name(name, "R") || is_name(name, "r") {
        Some(KeyCode::KeyR)
    } else if is_name(name, "S") || is_name(name, "s") {
        Some(KeyCode::KeyS)
    } else if is_name(name, "T") || is_name(name, "t") {
        Some(KeyCode::KeyT)
    } else if is_name(name, "U") || is_name(name, "u") {
        Some(KeyCode::KeyU)
    } else if is_name(name, "V") || is_name(name, "v") {
        Some(KeyCode::KeyV)
    } else if is_name(name, "W") || is_name(name, "w") {
        Some(KeyCode::KeyW)
    } else if is_name(name, "X") || is_name(name, "x") {
        Some(KeyCode::KeyX)
    } else if is_name(name, "Y") || is_name(name, "y") {
        Some(KeyCode::KeyY)
    } else if is_name(name, "Z") || is_name(name, "z") {
        Some(KeyCode::KeyZ)
    } else if is_name(name, "F1") {
        Some(KeyCode::F1)
    } else if is_name(name, "F2") {
        Some(KeyCode::F2)
    } else if is_name(name, "F3") {
        Some(KeyCode::F3)
    } else if is_name(name, "F4") {
        Some(KeyCode::F4)
    } else if is_name(name, "F5") {
        Some(KeyCode::F5)
    } else if is_name(name, "F6") {
        Some(KeyCode::F6)
    } else if is_name(name, "F7") {
        Some(KeyCode::F7)
    } else if is_name(name, "F8") {
        Some(KeyCode::F8)
    } else if is_name(name, "F9") {
        Some(KeyCode::F9)
    } else if is_name(name, "F10") {
        Some(KeyCode::F10)
    } else if is_name(name, "F11") {
        Some(KeyCode::F11)
    } else if is_name(name, "F12") {
        Some(KeyCode::F12)
    } else if is_name(name, "Space") || is_name(name, " ") {
        Some(KeyCode::Space)
    } else if is_name(name, "Enter") || is_name(name, "Return") {
        Some(KeyCode::Enter)
    } else if is_name(name, "Tab") {
        Some(KeyCode::Tab)
    } else if is_name(name, "Esc") || is_name(name, "Escape") {
        Some(KeyCode::Escape)
    } else if is_name(name, "Backspace") {
        Some(KeyCode::Backspace)
    } else if is_name(name, "Delete") || is_name(name, "Del") {
        Some(KeyCode::Delete)
    } else if is_name(name, "Home") {
        Some(KeyCode::Home)
    } else if is_name(name, "End") {
        Some(KeyCode::End)
    } else if is_name(name, "PageUp") {
        Some(KeyCode::PageUp)
    } else if is_name(name, "PageDown") {
        Some(KeyCode::PageDown)
    } else if is_name(name, "Up") {
        Some(KeyCode::ArrowUp)
    } else if is_name(name, "Down") {
        Some(KeyCode::ArrowDown)
    } else if is_name(name, "Left") {
        Some(KeyCode::ArrowLeft)
    } else if is_name(name, "Right") {
        Some(KeyCode::ArrowRight)
    } else if is_name(name, "Insert") {
        Some(KeyCode::Insert)
    } else if is_name(name, "-") || is_name(name, "Minus") {
        Some(KeyCode::Minus)
    } else if is_name(name, "=") || is_name(name, "Equal") {
        Some(KeyCode::Equal)
    } else if is_name(name, "[") || is_name(name, "BracketLeft") {
        Some(KeyCode::BracketLeft)
    } else if is_name(name, "]") || is_name(name, "BracketRight") {
        Some(KeyCode::BracketRight)
    } else if is_name(name, ";") || is_name(name, "Semicolon") {
        Some(KeyCode::Semicolon)
    } else if is_name(name, "'") || is_name(name, "Quote") {
        Some(KeyCode::Quote)
    } else if is_name(name, ",") || is_name(name, "Comma") {
        Some(KeyCode::Comma)
    } else if is_name(name, ".") || is_name(name, "Period") {
        Some(KeyCode::Period)
    } else if is_name(name, "/") || is_name(name, "Slash") {
        Some(KeyCode::Slash)
    } else if is_name(name, "\\") || is_name(name, "Backslash") {
        Some(KeyCode::Backslash)
    } else {
        None
    }
}

/// A parsed shortcut: its modifiers (`None` when there are none) and its key.
#[derive(Clone, Copy, Debug, PartialEq, Eq, Structural)]
pub struct ShortcutSpec {
    pub modifiers: Option<Modifiers>,
    pub key: KeyCode,
}

/// Why a shortcut could not be parsed; each names the offending part.
#[derive(Debug)]
pub enum ShortcutError {
    UnknownModifier(String),
    UnknownKey(String),
}

/// The parse failures, over character sequences.
pub enum ShortcutFault {
    UnknownModifier(Seq<char>),
    UnknownKey(Seq<char>),
}

impl View for ShortcutError {
    type V = ShortcutFault;

    open spec fn view(&self) -> ShortcutFault {
        match self {
            ShortcutError::UnknownModifier(m) => ShortcutFault::UnknownModifier(m@),
            ShortcutError::UnknownKey(k) => ShortcutFault::UnknownKey(k@),
        }
    }
}

/// Whether the characters spell the given name.
fn is_name(name: &[char], lit: &str) -> (r: bool)
    ensures
        r == (name@ == lit@),
{
    let l = chars_of(lit);
    crate::text::chars_eq(name, l.as_slice())
}

/// No modifiers.
pub open spec fn no_modifiers() -> Modifiers {
    Modifiers { control: false, alt: false, shift: false, super_key: false }
}

/// The modifiers with the one that `name` denotes added, or `None` when the
/// name denotes no modifier.
pub open spec fn add_modifier(m: Modifiers, name: Seq<char>) -> Option<Modifiers> {
    if name == "Ctrl"@ {
        Some(Modifiers { control: true, ..m })
    } else if name == "Alt"@ {
        Some(Modifiers { alt: true, ..m })
    } else if name == "Shift"@ {
        Some(Modifiers { shift: true, ..m })
    } else if name == "Super"@ || name == "Win"@ || name == "Cmd"@ {
        Some(Modifiers { super_key: true, ..m })
    } else {
        None
    }
}

/// The modifiers that the names denote, or the first name that denotes none.
pub open spec fn fold_modifiers(names: Seq<Seq<char>>) -> Result<Modifiers, Seq<char>>
    decreases names.len(),
{
    if names.len() == 0 {
        Ok(no_modifiers())
    } else {
        match fold_modifiers(names.drop_last()) {
            Ok(m) => match add_modifier(m, names.last()) {
                Some(m2) => Ok(m2),
                None => Err(names.last()),
            },
            Err(bad) => Err(bad),
        }
    }
}

/// The parts of a shortcut: the text between `+` signs, trimmed.
pub open spec fn shortcut_parts(s: Seq<char>) -> Seq<Seq<char>> {
    split_on(s, '+').map_values(|p: Seq<char>| trim(p))
}

/// The shortcut a text denotes: every part but the last must name a modifier
/// (`Ctrl`, `Alt`, `Shift`, or `Super`, `Win`, `Cmd` for the same key), the
/// last must name a key; an unknown modifier is reported before an unknown key.
pub open spec fn parse_shortcut(s: Seq<char>) -> Result<ShortcutSpec, ShortcutFault> {
    let parts = shortcut_parts(s);
    let key = parts.last();
    match fold_modifiers(parts.drop_last()) {
        Err(bad) => Err(ShortcutFault::UnknownModifier(bad)),
        Ok(m) => match key_code(key) {
            None => Err(ShortcutFault::UnknownKey(key)),
            Some(code) => Ok(
                ShortcutSpec {
                    modifiers: if m == no_modifiers() {
                        None
                    } else {
                        Some(m)
                    },
                    key: code,
                },
            ),
        },
    }
}

/// Parses a shortcut written as modifier names and a key joined by `+`.
pub fn parse_shortcut_str(s: &str) -> (r: Result<ShortcutSpec, ShortcutError>)
    ensures
        match r {
            Ok(sc) => parse_shortcut(s@) == Ok::<ShortcutSpec, ShortcutFault>(sc),
            Err(e) => parse_shortcut(s@) == Err::<ShortcutSpec, ShortcutFault>(e@),
        },
{
    let chars = chars_of(s);
    let raw = split_on_char(chars.as_slice(), '+');
    let ghost parts = shortcut_parts(s@);
    let mut trimmed: Vec<Vec<char>> = Vec::new();
    let mut i: usize = 0;
    while i < raw.len()
        invariant
            i <= raw@.len(),
            seqs_of(raw@) == split_on(s@, '+'),
            parts == shortcut_parts(s@),
            trimmed@.len() == i,
            forall|k: int| 0 <= k < i ==> (#[trigger] trimmed@[k])@ == parts[k],
        decreases raw@.len() - i,
    {
        let t = trim_chars(raw[i].as_slice());
        assert(raw@[i as int]@ == split_on(s@, '+')[i as int]);
        trimmed.push(t);
        i = i + 1;
    }
    let n = trimmed.len();
    assert(n == parts.len() && n >= 1);
    let mut mods = Modifiers { control: false, alt: false, shift: false, super_key: false };
    let mut k: usize = 0;
    let ghost names = parts.drop_last();
    assert(names.take(0) =~= Seq::<Seq<char>>::empty());
    while k < n - 1
        invariant
            n == parts.len() == trimmed@.len(),
            n >= 1,
            names == parts.drop_last(),
            parts == shortcut_parts(s@),
            forall|j: int| 0 <= j < n ==> (#[trigger] trimmed@[j])@ == parts[j],
            k <= n - 1,
            fold_modifiers(names.take(k as int)) == Ok::<Modifiers, Seq<char>>(mods),
        decreases n - 1 - k,
    {
        assert(names.take(k + 1).drop_last() =~= names.take(k as int));
        let name = trimmed[k].as_slice();
        assert(name@ == names[k as int]);
        if is_name(name, "Ctrl") {
            mods.control = true;
        } else if is_name(name, "Alt") {
            mods.alt = true;
        } else if is_name(name, "Shift") {
            mods.shift = true;
        } else if is_name(name, "Super") || is_name(name, "Win") || is_name(name, "Cmd") {
            mods.super_key = true;
        } else {
            let bad = string_of(name);
            proof {
                assert(fold_modifiers(names.take(k + 1)) == Err::<Modifiers, Seq<char>>(names[k as int]));
                lemma_fold_modifiers_err(names, k as int + 1);
                assert(names.take(n - 1) =~= names);
            }
            return Err(ShortcutError::UnknownModifier(bad));
        }
        k = k + 1;
    }
    assert(names.take(n - 1) =~= names);
    let key = trimmed[n - 1].as_slice();
    match key_code_of(key) {
        None => Err(ShortcutError::UnknownKey(string_of(key))),
        Some(code) => {
            let none = !mods.control && !mods.alt && !mods.shift && !mods.super_key;
            Ok(ShortcutSpec { modifiers: if none { None } else { Some(mods) }, key: code })
        },
    }
}

/// Once a name is unknown, the fold reports it whatever follows.
proof fn lemma_fold_modifiers_err(names: Seq<Seq<char>>, j: int)
    requires
        0 <= j <= names.len(),
        fold_modifiers(names.take(j)) is Err,
    ensures
        fold_modifiers(names) == fold_modifiers(names.take(j)),
    decreases names.len() - j,
{
    if j < names.len() {
        assert(names.take(j + 1).drop_last() =~= names.take(j));
        lemma_fold_modifiers_err(names, j + 1);
    } else {
        assert(names.take(j) =~= names);
    }
}

/// Every key name of the shortcut table names the key it spells: the
/// backquote, the digits, the letters in either case, the function keys, the
/// editing and arrow keys (`Up` is the up arrow, `Down` the down arrow, and
/// so on), and the punctuation keys by symbol or by name.
pub proof fn lemma_key_names()
    ensures
        key_code("`"@) == Some(KeyCode::Backquote),
        key_code("Backquote"@) == Some(KeyCode::Backquote),
        key_code("1"@) == Some(KeyCode::Digit1),
        key_code("2"@) == Some(KeyCode::Digit2),
        key_code("3"@) == Some(KeyCode::Digit3),
        key_code("4"@) == Some(KeyCode::Digit4),
        key_code("5"@) == Some(KeyCode::Digit5),
        key_code("6"@) == Some(KeyCode::Digit6),
        key_code("7"@) == Some(KeyCode::Digit7),
        key_code("8"@) == Some(KeyCode::Digit8),
        key_code("9"@) == Some(KeyCode::Digit9),
        key_code("0"@) == Some(KeyCode::Digit0),
        key_code("A"@) == Some(KeyCode::KeyA),
        key_code("a"@) == Some(KeyCode::KeyA),
        key_code("B"@) == Some(KeyCode::KeyB),
        key_code("b"@) == Some(KeyCode::KeyB),
        key_code("C"@) == Some(KeyCode::KeyC),
        key_code("c"@) == Some(KeyCode::KeyC),
        key_code("D"@) == Some(KeyCode::KeyD),
        key_code("d"@) == Some(KeyCode::KeyD),
        key_code("E"@) == Some(KeyCode::KeyE),
        key_code("e"@) == Some(KeyCode::KeyE),
        key_code("F"@) == Some(KeyCode::KeyF),
        key_code("f"@) == Some(KeyCode::KeyF),
        key_code("G"@) == Some(KeyCode::KeyG),
        key_code("g"@) == Some(KeyCode::KeyG),
        key_code("H"@) == Some(KeyCode::KeyH),
        key_code("h"@) == Some(KeyCode::KeyH),
        key_code("I"@) == Some(KeyCode::KeyI),
        key_code("i"@) == Some(KeyCode::KeyI),
        key_code("J"@) == Some(KeyCode::KeyJ),
        key_code("j"@) == Some(KeyCode::KeyJ),
        key_code("K"@) == Some(KeyCode::KeyK),
        key_code("k"@) == Some(KeyCode::KeyK),
        key_code("L"@) == Some(KeyCode::KeyL),
        key_code("l"@) == Some(KeyCode::KeyL),
        key_code("M"@) == Some(KeyCode::KeyM),
        key_code("m"@) == Some(KeyCode::KeyM),
        key_code("N"@) == Some(KeyCode::KeyN),
        key_code("n"@) == Some(KeyCode::KeyN),
        key_code("O"@) == Some(KeyCode::KeyO),
        key_code("o"@) == Some(KeyCode::KeyO),
        key_code("P"@) == Some(KeyCode::KeyP),
        key_code("p"@) == Some(KeyCode::KeyP),
        key_code("Q"@) == Some(KeyCode::KeyQ),
        key_code("q"@) == Some(KeyCode::KeyQ),
        key_code("R"@) == Some(KeyCode::KeyR),
        key_code("r"@) == Some(KeyCode::KeyR),
        key_code("S"@) == Some(KeyCode::KeyS),
        key_code("s"@) == Some(KeyCode::KeyS),
        key_code("T"@) == Some(KeyCode::KeyT),
        key_code("t"@) == Some(KeyCode::KeyT),
        key_code("U"@) == Some(KeyCode::KeyU),
        key_code("u"@) == Some(KeyCode::KeyU),
        key_code("V"@) == Some(KeyCode::KeyV),
        key_code("v"@) == Some(KeyCode::KeyV),
        key_code("W"@) == Some(KeyCode::KeyW),
        key_code("w"@) == Some(KeyCode::KeyW),
        key_code("X"@) == Some(KeyCode::KeyX),
        key_code("x"@) == Some(KeyCode::KeyX),
        key_code("Y"@) == Some(KeyCode::KeyY),
        key_code("y"@) == Some(KeyCode::KeyY),
        key_code("Z"@) == Some(KeyCode::KeyZ),
        key_code("z"@) == Some(KeyCode::KeyZ),
        key_code("F1"@) == Some(KeyCode::F1),
        key_code("F2"@) == Some(KeyCode::F2),
        key_code("F3"@) == Some(KeyCode::F3),
        key_code("F4"@) == Some(KeyCode::F4),
        key_code("F5"@) == Some(KeyCode::F5),
        key_code("F6"@) == Some(KeyCode::F6),
        key_code("F7"@) == Some(KeyCode::F7),
        key_code("F8"@) == Some(KeyCode::F8),
        key_code("F9"@) == Some(KeyCode::F9),
        key_code("F10"@) == Some(KeyCode::F10),
        key_code("F11"@) == Some(KeyCode::F11),
        key_code("F12"@) == Some(KeyCode::F12),
        key_code("Space"@) == Some(KeyCode::Space),
        key_code(" "@) == Some(KeyCode::Space),
        key_code("Enter"@) == Some(KeyCode::Enter),
        key_code("Return"@) == Some(KeyCode::Enter),
        key_code("Tab"@) == Some(KeyCode::Tab),
        key_code("Esc"@) == Some(KeyCode::Escape),
        key_code("Escape"@) == Some(KeyCode::Escape),
        key_code("Backspace"@) == Some(KeyCode::Backspace),
        key_code("Delete"@) == Some(KeyCode::Delete),
        key_code("Del"@) == Some(KeyCode::Delete),
        key_code("Home"@) == Some(KeyCode::Home),
        key_code("End"@) == Some(KeyCode::End),
        key_code("PageUp"@) == Some(KeyCode::PageUp),
        key_code("PageDown"@) == Some(KeyCode::PageDown),
        key_code("Up"@) == Some(KeyCode::ArrowUp),
        key_code("Down"@) == Some(KeyCode::ArrowDown),
        key_code("Left"@) == Some(KeyCode::ArrowLeft),
        key_code("Right"@) == Some(KeyCode::ArrowRight),
        key_code("Insert"@) == Some(KeyCode::Insert),
        key_code("-"@) == Some(KeyCode::Minus),
        key_code("Minus"@) == Some(KeyCode::Minus),
        key_code("="@) == Some(KeyCode::Equal),
        key_code("Equal"@) == Some(KeyCode::Equal),
        key_code("["@) == Some(KeyCode::BracketLeft),
        key_code("BracketLeft"@) == Some(KeyCode::BracketLeft),
        key_code("]"@) == Some(KeyCode::BracketRight),
        key_code("BracketRight"@) == Some(KeyCode::BracketRight),
        key_code(";"@) == Some(KeyCode::Semicolon),
        key_code("Semicolon"@) == Some(KeyCode::Semicolon),
        key_code("'"@) == Some(KeyCode::Quote),
        key_code("Quote"@) == Some(KeyCode::Quote),
        key_code(","@) == Some(KeyCode::Comma),
        key_code("Comma"@) == Some(KeyCode::Comma),
        key_code("."@) == Some(KeyCode::Period),
        key_code("Period"@) == Some(KeyCode::Period),
        key_code("/"@) == Some(KeyCode::Slash),
        key_code("Slash"@) == Some(KeyCode::Slash),
        key_code("\\"@) == Some(KeyCode::Backslash),
        key_code("Backslash"@) == Some(KeyCode::Backslash),
{
    reveal_strlit("`");
    assert("`"@.len() == 1 && "`"@[0] == '`');
    reveal_strlit("Backquote");
    assert("Backquote"@.len() == 9 && "Backquote"@[0] == 'B' && "Backquote"@[1] == 'a' && "Backquote"@[2] == 'c' && "Backquote"@[3] == 'k' && "Backquote"@[4] == 'q' && "Backquote"@[5] == 'u' && "Backquote"@[6] == 'o' && "Backquote"@[7] == 't' && "Backquote"@[8] == 'e');
    reveal_strlit("1");
    assert("1"@.len() == 1 && "1"@[0] == '1');
    reveal_strlit("2");
    assert("2"@.len() == 1 && "2"@[0] == '2');
    reveal_strlit("3");
    assert("3"@.len() == 1 && "3"@[0] == '3');
    reveal_strlit("4");
    assert("4"@.len() == 1 && "4"@[0] == '4');
    reveal_strlit("5");
    assert("5"@.len() == 1 && "5"@[0] == '5');
    reveal_strlit("6");
    assert("6"@.len() == 1 && "6"@[0] == '6');
    reveal_strlit("7");
    assert("7"@.len() == 1 && "7"@[0] == '7');
    reveal_strlit("8");
    assert("8"@.len() == 1 && "8"@[0] == '8');
    reveal_strlit("9");
    assert("9"@.len() == 1 && "9"@[0] == '9');
    reveal_strlit("0");
    assert("0"@.len() == 1 && "0"@[0] == '0');
    reveal_strlit("A");
    assert("A"@.len() == 1 && "A"@[0] == 'A');
    reveal_strlit("a");
    assert("a"@.len() == 1 && "a"@[0] == 'a');
    reveal_strlit("B");
    assert("B"@.len() == 1 && "B"@[0] == 'B');
    reveal_strlit("b");
    assert("b"@.len() == 1 && "b"@[0] == 'b');
    reveal_strlit("C");
    assert("C"@.len() == 1 && "C"@[0] == 'C');
    reveal_strlit("c");
    assert("c"@.len() == 1 && "c"@[0] == 'c');
    reveal_strlit("D");
    assert("D"@.len() == 1 && "D"@[0] == 'D');
    reveal_strlit("d");
    assert("d"@.len() == 1 && "d"@[0] == 'd');
    reveal_strlit("E");
    assert("E"@.len() == 1 && "E"@[0] == 'E');
    reveal_strlit("e");
    assert("e"@.len() == 1 && "e"@[0] == 'e');
    reveal_strlit("F");
    assert("F"@.len() == 1 && "F"@[0] == 'F');
    reveal_strlit("f");
    assert("f"@.len() == 1 && "f"@[0] == 'f');
    reveal_strlit("G");
    assert("G"@.len() == 1 && "G"@[0] == 'G');
    reveal_strlit("g");
    assert("g"@.len() == 1 && "g"@[0] == 'g');
    reveal_strlit("H");
    assert("H"@.len() == 1 && "H"@[0] == 'H');
    reveal_strlit("h");
    assert("h"@.len() == 1 && "h"@[0] == 'h');
    reveal_strlit("I");
    assert("I"@.len() == 1 && "I"@[0] == 'I');
    reveal_strlit("i");
    assert("i"@.len() == 1 && "i"@[0] == 'i');
    reveal_strlit("J");
    assert("J"@.len() == 1 && "J"@[0] == 'J');
    reveal_strlit("j");
    assert("j"@.len() == 1 && "j"@[0] == 'j');
    reveal_strlit("K");
    assert("K"@.len() == 1 && "K"@[0] == 'K');
    reveal_strlit("k");
    assert("k"@.len() == 1 && "k"@[0] == 'k');
    reveal_strlit("L");
    assert("L"@.len() == 1 && "L"@[0] == 'L');
    reveal_strlit("l");
    assert("l"@.len() == 1 && "l"@[0] == 'l');
    reveal_strlit("M");
    assert("M"@.len() == 1 && "M"@[0] == 'M');
    reveal_strlit("m");
    assert("m"@.len() == 1 && "m"@[0] == 'm');
    reveal_strlit("N");
    assert("N"@.len() == 1 && "N"@[0] == 'N');
    reveal_strlit("n");
    assert("n"@.len() == 1 && "n"@[0] == 'n');
    reveal_strlit("O");
    assert("O"@.len() == 1 && "O"@[0] == 'O');
    reveal_strlit("o");
    assert("o"@.len() == 1 && "o"@[0] == 'o');
    reveal_strlit("P");
    assert("P"@.len() == 1 && "P"@[0] == 'P');
    reveal_strlit("p");
    assert("p"@.len() == 1 && "p"@[0] == 'p');
    reveal_strlit("Q");
    assert("Q"@.len() == 1 && "Q"@[0] == 'Q');
    reveal_strlit("q");
    assert("q"@.len() == 1 && "q"@[0] == 'q');
    reveal_strlit("R");
    assert("R"@.len() == 1 && "R"@[0] == 'R');
    reveal_strlit("r");
    assert("r"@.len() == 1 && "r"@[0] == 'r');
    reveal_strlit("S");
    assert("S"@.len() == 1 && "S"@[0] == 'S');
    reveal_strlit("s");
    assert("s"@.len() == 1 && "s"@[0] == 's');
    reveal_strlit("T");
    assert("T"@.len() == 1 && "T"@[0] == 'T');
    reveal_strlit("t");
    assert("t"@.len() == 1 && "t"@[0] == 't');
    reveal_strlit("U");
    assert("U"@.len() == 1 && "U"@[0] == 'U');
    reveal_strlit("u");
    assert("u"@.len() == 1 && "u"@[0] == 'u');
    reveal_strlit("V");
    assert("V"@.len() == 1 && "V"@[0] == 'V');
    reveal_strlit("v");
    assert("v"@.len() == 1 && "v"@[0] == 'v');
    reveal_strlit("W");
    assert("W"@.len() == 1 && "W"@[0] == 'W');
    reveal_strlit("w");
    assert("w"@.len() == 1 && "w"@[0] == 'w');
    reveal_strlit("X");
    assert("X"@.len() == 1 && "X"@[0] == 'X');
    reveal_strlit("x");
    assert("x"@.len() == 1 && "x"@[0] == 'x');
    reveal_strlit("Y");
    assert("Y"@.len() == 1 && "Y"@[0] == 'Y');
    reveal_strlit("y");
    assert("y"@.len() == 1 && "y"@[0] == 'y');
    reveal_strlit("Z");
    assert("Z"@.len() == 1 && "Z"@[0] == 'Z');
    reveal_strlit("z");
    assert("z"@.len() == 1 && "z"@[0] == 'z');
    reveal_strlit("F1");
    assert("F1"@.len() == 2 && "F1"@[0] == 'F' && "F1"@[1] == '1');
    reveal_strlit("F2");
    assert("F2"@.len() == 2 && "F2"@[0] == 'F' && "F2"@[1] == '2');
    reveal_strlit("F3");
    assert("F3"@.len() == 2 && "F3"@[0] == 'F' && "F3"@[1] == '3');
    reveal_strlit("F4");
    assert("F4"@.len() == 2 && "F4"@[0] == 'F' && "F4"@[1] == '4');
    reveal_strlit("F5");
    assert("F5"@.len() == 2 && "F5"@[0] == 'F' && "F5"@[1] == '5');
    reveal_strlit("F6");
    assert("F6"@.len() == 2 && "F6"@[0] == 'F' && "F6"@[1] == '6');
    reveal_strlit("F7");
    assert("F7"@.len() == 2 && "F7"@[0] == 'F' && "F7"@[1] == '7');
    reveal_strlit("F8");
    assert("F8"@.len() == 2 && "F8"@[0] == 'F' && "F8"@[1] == '8');
    reveal_strlit("F9");
    assert("F9"@.len() == 2 && "F9"@[0] == 'F' && "F9"@[1] == '9');
    reveal_strlit("F10");
    assert("F10"@.len() == 3 && "F10"@[0] == 'F' && "F10"@[1] == '1' && "F10"@[2] == '0');
    reveal_strlit("F11");
    assert("F11"@.len() == 3 && "F11"@[0] == 'F' && "F11"@[1] == '1' && "F11"@[2] == '1');
    reveal_strlit("F12");
    assert("F12"@.len() == 3 && "F12"@[0] == 'F' && "F12"@[1] == '1' && "F12"@[2] == '2');
    reveal_strlit("Space");
    assert("Space"@.len() == 5 && "Space"@[0] == 'S' && "Space"@[1] == 'p' && "Space"@[2] == 'a' && "Space"@[3] == 'c' && "Space"@[4] == 'e');
    reveal_strlit(" ");
    assert(" "@.len() == 1 && " "@[0] == ' ');
    reveal_strlit("Enter");
    assert("Enter"@.len() == 5 && "Enter"@[0] == 'E' && "Enter"@[1] == 'n' && "Enter"@[2] == 't' && "Enter"@[3] == 'e' && "Enter"@[4] == 'r');
    reveal_strlit("Return");
    assert("Return"@.len() == 6 && "Return"@[0] == 'R' && "Return"@[1] == 'e' && "Return"@[2] == 't' && "Return"@[3] == 'u' && "Return"@[4] == 'r' && "Return"@[5] == 'n');
    reveal_strlit("Tab");
    assert("Tab"@.len() == 3 && "Tab"@[0] == 'T' && "Tab"@[1] == 'a' && "Tab"@[2] == 'b');
    reveal_strlit("Esc");
    assert("Esc"@.len() == 3 && "Esc"@[0] == 'E' && "Esc"@[1] == 's' && "Esc"@[2] == 'c');
    reveal_strlit("Escape");
    assert("Escape"@.len() == 6 && "Escape"@[0] == 'E' && "Escape"@[1] == 's' && "Escape"@[2] == 'c' && "Escape"@[3] == 'a' && "Escape"@[4] == 'p' && "Escape"@[5] == 'e');
    reveal_strlit("Backspace");
    assert("Backspace"@.len() == 9 && "Backspace"@[0] == 'B' && "Backspace"@[1] == 'a' && "Backspace"@[2] == 'c' && "Backspace"@[3] == 'k' && "Backspace"@[4] == 's' && "Backspace"@[5] == 'p' && "Backspace"@[6] == 'a' && "Backspace"@[7] == 'c' && "Backspace"@[8] == 'e');
    reveal_strlit("Delete");
    assert("Delete"@.len() == 6 && "Delete"@[0] == 'D' && "Delete"@[1] == 'e' && "Delete"@[2] == 'l' && "Delete"@[3] == 'e' && "Delete"@[4] == 't' && "Delete"@[5] == 'e');
    reveal_strlit("Del");
    assert("Del"@.len() == 3 && "Del"@[0] == 'D' && "Del"@[1] == 'e' && "Del"@[2] == 'l');
    reveal_strlit("Home");
    assert("Home"@.len() == 4 && "Home"@[0] == 'H' && "Home"@[1] == 'o' && "Home"@[2] == 'm' && "Home"@[3] == 'e');
    reveal_strlit("End");
    assert("End"@.len() == 3 && "End"@[0] == 'E' && "End"@[1] == 'n' && "End"@[2] == 'd');
    reveal_strlit("PageUp");
    assert("PageUp"@.len() == 6 && "PageUp"@[0] == 'P' && "PageUp"@[1] == 'a' && "PageUp"@[2] == 'g' && "PageUp"@[3] == 'e' && "PageUp"@[4] == 'U' && "PageUp"@[5] == 'p');
    reveal_strlit("PageDown");
    assert("PageDown"@.len() == 8 && "PageDown"@[0] == 'P' && "PageDown"@[1] == 'a' && "PageDown"@[2] == 'g' && "PageDown"@[3] == 'e' && "PageDown"@[4] == 'D' && "PageDown"@[5] == 'o' && "PageDown"@[6] == 'w' && "PageDown"@[7] == 'n');
    reveal_strlit("Up");
    assert("Up"@.len() == 2 && "Up"@[0] == 'U' && "Up"@[1] == 'p');
    reveal_strlit("Down");
    assert("Down"@.len() == 4 && "Down"@[0] == 'D' && "Down"@[1] == 'o' && "Down"@[2] == 'w' && "Down"@[3] == 'n');
    reveal_strlit("Left");
    assert("Left"@.len() == 4 && "Left"@[0] == 'L' && "Left"@[1] == 'e' && "Left"@[2] == 'f' && "Left"@[3] == 't');
    reveal_strlit("Right");
    assert("Right"@.len() == 5 && "Right"@[0] == 'R' && "Right"@[1] == 'i' && "Right"@[2] == 'g' && "Right"@[3] == 'h' && "Right"@[4] == 't');
    reveal_strlit("Insert");
    assert("Insert"@.len() == 6 && "Insert"@[0] == 'I' && "Insert"@[1] == 'n' && "Insert"@[2] == 's' && "Insert"@[3] == 'e' && "Insert"@[4] == 'r' && "Insert"@[5] == 't');
    reveal_strlit("-");
    assert("-"@.len() == 1 && "-"@[0] == '-');
    reveal_strlit("Minus");
    assert("Minus"@.len() == 5 && "Minus"@[0] == 'M' && "Minus"@[1] == 'i' && "Minus"@[2] == 'n' && "Minus"@[3] == 'u' && "Minus"@[4] == 's');
    reveal_strlit("=");
    assert("="@.len() == 1 && "="@[0] == '=');
    reveal_strlit("Equal");
    assert("Equal"@.len() == 5 && "Equal"@[0] == 'E' && "Equal"@[1] == 'q' && "Equal"@[2] == 'u' && "Equal"@[3] == 'a' && "Equal"@[4] == 'l');
    reveal_strlit("[");
    assert("["@.len() == 1 && "["@[0] == '[');
    reveal_strlit("BracketLeft");
    assert("BracketLeft"@.len() == 11 && "BracketLeft"@[0] == 'B' && "BracketLeft"@[1] == 'r' && "BracketLeft"@[2] == 'a' && "BracketLeft"@[3] == 'c' && "BracketLeft"@[4] == 'k' && "BracketLeft"@[5] == 'e' && "BracketLeft"@[6] == 't' && "BracketLeft"@[7] == 'L' && "BracketLeft"@[8] == 'e' && "BracketLeft"@[9] == 'f' && "BracketLeft"@[10] == 't');
    reveal_strlit("]");
    assert("]"@.len() == 1 && "]"@[0] == ']');
    reveal_strlit("BracketRight");
    assert("BracketRight"@.len() == 12 && "BracketRight"@[0] == 'B' && "BracketRight"@[1] == 'r' && "BracketRight"@[2] == 'a' && "BracketRight"@[3] == 'c' && "BracketRight"@[4] == 'k' && "BracketRight"@[5] == 'e' && "BracketRight"@[6] == 't' && "BracketRight"@[7] == 'R' && "BracketRight"@[8] == 'i' && "BracketRight"@[9] == 'g' && "BracketRight"@[10] == 'h' && "BracketRight"@[11] == 't');
    reveal_strlit(";");
    assert(";"@.len() == 1 && ";"@[0] == ';');
    reveal_strlit("Semicolon");
    assert("Semicolon"@.len() == 9 && "Semicolon"@[0] == 'S' && "Semicolon"@[1] == 'e' && "Semicolon"@[2] == 'm' && "Semicolon"@[3] == 'i' && "Semicolon"@[4] == 'c' && "Semicolon"@[5] == 'o' && "Semicolon"@[6] == 'l' && "Semicolon"@[7] == 'o' && "Semicolon"@[8] == 'n');
    reveal_strlit("'");
    assert("'"@.len() == 1 && "'"@[0] == '\'');
    reveal_strlit("Quote");
    assert("Quote"@.len() == 5 && "Quote"@[0] == 'Q' && "Quote"@[1] == 'u' && "Quote"@[2] == 'o' && "Quote"@[3] == 't' && "Quote"@[4] == 'e');
    reveal_strlit(",");
    assert(","@.len() == 1 && ","@[0] == ',');
    reveal_strlit("Comma");
    assert("Comma"@.len() == 5 && "Comma"@[0] == 'C' && "Comma"@[1] == 'o' && "Comma"@[2] == 'm' && "Comma"@[3] == 'm' && "Comma"@[4] == 'a');
    reveal_strlit(".");
    assert("."@.len() == 1 && "."@[0] == '.');
    reveal_strlit("Period");
    assert("Period"@.len() == 6 && "Period"@[0] == 'P' && "Period"@[1] == 'e' && "Period"@[2] == 'r' && "Period"@[3] == 'i' && "Period"@[4] == 'o' && "Period"@[5] == 'd');
    reveal_strlit("/");
    assert("/"@.len() == 1 && "/"@[0] == '/');
    reveal_strlit("Slash");
    assert("Slash"@.len() == 5 && "Slash"@[0] == 'S' && "Slash"@[1] == 'l' && "Slash"@[2] == 'a' && "Slash"@[3] == 's' && "Slash"@[4] == 'h');
    reveal_strlit("\\");
    assert("\\"@.len() == 1 && "\\"@[0] == '\\');
    reveal_strlit("Backslash");
    assert("Backslash"@.len() == 9 && "Backslash"@[0] == 'B' && "Backslash"@[1] == 'a' && "Backslash"@[2] == 'c' && "Backslash"@[3] == 'k' && "Backslash"@[4] == 's' && "Backslash"@[5] == 'l' && "Backslash"@[6] == 'a' && "Backslash"@[7] == 's' && "Backslash"@[8] == 'h');
}

} // verus!
