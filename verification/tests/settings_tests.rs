use supertonic_reader::settings::{
    clamp_quality, default_settings, is_blank, migrate_settings, normalize_language,
    plan_settings_change, SettingsCore,
};

fn settings_of(language: &str, quality: i32, shortcut: &str, pause: &str, ui: &str) -> SettingsCore {
    SettingsCore {
        initialized: true,
        language: language.to_string(),
        voice_style: "F2".to_string(),
        quality,
        shortcut: shortcut.to_string(),
        pause_shortcut: pause.to_string(),
        ui_language: ui.to_string(),
    }
}

#[test]
fn defaults() {
    let d = default_settings();
    assert!(!d.initialized);
    assert_eq!(d.language, "en");
    assert_eq!(d.voice_style, "M1");
    assert_eq!(d.quality, 8);
    assert_eq!(d.shortcut, "Ctrl+`");
    assert_eq!(d.pause_shortcut, "Ctrl+1");
    assert_eq!(d.ui_language, "en");
}

#[test]
fn migration_repairs_out_of_range_fields() {
    let m = migrate_settings(settings_of("xx", 50, "  ", "", "de"));
    assert!(m.initialized);
    assert_eq!(m.voice_style, "F2");
    assert_eq!(m.language, "en");
    assert_eq!(m.quality, 8);
    assert_eq!(m.shortcut, "Ctrl+`");
    assert_eq!(m.pause_shortcut, "Ctrl+1");
    assert_eq!(m.ui_language, "en");
    assert_eq!(migrate_settings(settings_of("ko", 1, "Alt+R", "Alt+P", "zh")).quality, 8);
}

#[test]
fn migration_keeps_valid_fields_and_is_idempotent() {
    let m = migrate_settings(settings_of("ko", 16, "Alt+R", "Alt+P", "zh"));
    assert_eq!(m.language, "ko");
    assert_eq!(m.quality, 16);
    assert_eq!(m.shortcut, "Alt+R");
    assert_eq!(m.pause_shortcut, "Alt+P");
    assert_eq!(m.ui_language, "zh");
    let once = migrate_settings(settings_of("xx", 0, "", " ", "??"));
    let twice = migrate_settings(settings_of(&once.language, once.quality, &once.shortcut, &once.pause_shortcut, &once.ui_language));
    assert_eq!(twice.language, once.language);
    assert_eq!(twice.quality, once.quality);
    assert_eq!(twice.shortcut, once.shortcut);
    assert_eq!(twice.pause_shortcut, once.pause_shortcut);
    assert_eq!(twice.ui_language, once.ui_language);
}

#[test]
fn quality_is_clamped() {
    assert_eq!(clamp_quality(-5), 2);
    assert_eq!(clamp_quality(2), 2);
    assert_eq!(clamp_quality(9), 9);
    assert_eq!(clamp_quality(16), 16);
    assert_eq!(clamp_quality(100), 16);
}

#[test]
fn language_normalization() {
    assert_eq!(normalize_language("ja".to_string()), "ja");
    assert_eq!(normalize_language("klingon".to_string()), "en");
}

#[test]
fn blank_detection() {
    assert!(is_blank(""));
    assert!(is_blank(" \t\n\u{3000}"));
    assert!(!is_blank(" x "));
}

#[test]
fn settings_change_plan() {
    let new = settings_of("en", 8, "Ctrl+`", "Ctrl+1", "en");
    let same = plan_settings_change("F2", "Ctrl+`", "Ctrl+1", &new);
    assert!(!same.reload_voice_style && !same.reregister_shortcuts && !same.register_pause_shortcut);
    let style = plan_settings_change("M1", "Ctrl+`", "Ctrl+1", &new);
    assert!(style.reload_voice_style && !style.reregister_shortcuts);
    let keys = plan_settings_change("F2", "Ctrl+`", "Ctrl+2", &new);
    assert!(!keys.reload_voice_style && keys.reregister_shortcuts && keys.register_pause_shortcut);
    let blank_pause = settings_of("en", 8, "Ctrl+`", "  ", "en");
    let p = plan_settings_change("F2", "Ctrl+`", "Ctrl+1", &blank_pause);
    assert!(p.reregister_shortcuts && !p.register_pause_shortcut);
}

#[test]
fn chinese_reading_language_is_kept() {
    let m = migrate_settings(settings_of("zh", 8, "Alt+R", "Alt+P", "en"));
    assert_eq!(m.language, "zh");
    assert_eq!(normalize_language("zh".to_string()), "zh");
}
