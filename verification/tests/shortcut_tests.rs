use supertonic_reader::shortcut::{parse_shortcut_str, KeyCode, Modifiers, ShortcutError, ShortcutSpec};

fn mods(control: bool, alt: bool, shift: bool, super_key: bool) -> Option<Modifiers> {
    Some(Modifiers { control, alt, shift, super_key })
}

fn parsed(s: &str) -> ShortcutSpec {
    match parse_shortcut_str(s) {
        Ok(sc) => sc,
        Err(e) => panic!("{:?} failed: {:?}", s, e),
    }
}

#[test]
fn default_shortcuts_parse() {
    assert_eq!(parsed("Ctrl+`"), ShortcutSpec { modifiers: mods(true, false, false, false), key: KeyCode::Backquote });
    assert_eq!(parsed("Ctrl+1"), ShortcutSpec { modifiers: mods(true, false, false, false), key: KeyCode::Digit1 });
}

#[test]
fn several_modifiers_and_named_keys() {
    assert_eq!(parsed("Alt+Shift+F5"), ShortcutSpec { modifiers: mods(false, true, true, false), key: KeyCode::F5 });
    assert_eq!(parsed("Win+Cmd+Space"), ShortcutSpec { modifiers: mods(false, false, false, true), key: KeyCode::Space });
    assert_eq!(parsed("Super+Escape").key, KeyCode::Escape);
    assert_eq!(parsed("Ctrl+PageDown").key, KeyCode::PageDown);
    assert_eq!(parsed("Ctrl+\\").key, KeyCode::Backslash);
    assert_eq!(parsed("Ctrl+Backquote").key, KeyCode::Backquote);
}

#[test]
fn parts_are_trimmed_and_letters_ignore_case() {
    assert_eq!(parsed(" Ctrl + a "), ShortcutSpec { modifiers: mods(true, false, false, false), key: KeyCode::KeyA });
    assert_eq!(parsed("Ctrl+Z"), parsed("Ctrl+z"));
}

#[test]
fn key_without_modifiers() {
    assert_eq!(parsed("F12"), ShortcutSpec { modifiers: None, key: KeyCode::F12 });
}

#[test]
fn unknown_modifier_is_reported_first() {
    match parse_shortcut_str("Hyper+Foo") {
        Err(ShortcutError::UnknownModifier(m)) => assert_eq!(m, "Hyper"),
        other => panic!("unexpected {:?}", other),
    }
    match parse_shortcut_str("Ctrl++") {
        Err(ShortcutError::UnknownModifier(m)) => assert_eq!(m, ""),
        other => panic!("unexpected {:?}", other),
    }
}

#[test]
fn unknown_key_is_reported() {
    match parse_shortcut_str("Ctrl+Foo") {
        Err(ShortcutError::UnknownKey(k)) => assert_eq!(k, "Foo"),
        other => panic!("unexpected {:?}", other),
    }
    match parse_shortcut_str("Ctrl+ ") {
        Err(ShortcutError::UnknownKey(k)) => assert_eq!(k, ""),
        other => panic!("unexpected {:?}", other),
    }
    match parse_shortcut_str("") {
        Err(ShortcutError::UnknownKey(k)) => assert_eq!(k, ""),
        other => panic!("unexpected {:?}", other),
    }
}
