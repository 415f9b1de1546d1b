//! Settings rules: the defaults, how stored settings from older versions are
//! brought into range, the synthesis quality bound, and what a settings
//! change requires of the running application.
use vstd::prelude::*;
use crate::text::{trim, chars_of, trim_chars, str_eq};
use crate::lang::{is_valid_lang, is_valid_lang_code, is_valid_ui_lang, ui_langs, available_langs};

verus! {

/// The settings fields that carry no fractional values.
pub struct SettingsCore {
    pub initialized: bool,
    pub language: String,
    pub voice_style: String,
    pub quality: i32,
    pub shortcut: String,
    pub pause_shortcut: String,
    pub ui_language: String,
}

/// The fewest denoising steps a synthesis uses.
pub const MIN_QUALITY: i32 = 2;

/// The most denoising steps a synthesis uses.
pub const MAX_QUALITY: i32 = 16;

/// The number of denoising steps by default.
pub const DEFAULT_QUALITY: i32 = 8;

/// The quality bounded to the supported range of denoising steps.
pub open spec fn clamped_quality(q: int) -> int {
    if q < MIN_QUALITY {
        MIN_QUALITY as int
    } else if q > MAX_QUALITY {
        MAX_QUALITY as int
    } else {
        q
    }
}

/// The quality bounded to the supported range of denoising steps.
pub fn clamp_quality(q: i32) -> (r: i32)
    ensures
        r == clamped_quality(q as int),
{
    if q < MIN_QUALITY {
        MIN_QUALITY
    } else if q > MAX_QUALITY {
        MAX_QUALITY
    } else {
        q
    }
}

/// A stored language the synthesizer does not read falls back to English.
pub open spec fn migrated_language(lang: Seq<char>) -> Seq<char> {
    if is_valid_lang_code(lang) {
        lang
    } else {
        "en"@
    }
}

/// A stored quality outside the supported range falls back to the default.
pub open spec fn migrated_quality(q: i32) -> i32 {
    if MIN_QUALITY <= q <= MAX_QUALITY {
        q
    } else {
        DEFAULT_QUALITY
    }
}

/// A blank stored shortcut falls back to the given default.
pub open spec fn migrated_shortcut(s: Seq<char>, default: Seq<char>) -> Seq<char> {
    if trim(s).len() == 0 {
        default
    } else {
        s
    }
}

/// A stored interface language the application does not offer falls back to English.
pub open spec fn migrated_ui_language(lang: Seq<char>) -> Seq<char> {
    if ui_langs().contains(lang) {
        lang
    } else {
        "en"@
    }
}

/// The default reading shortcut.
pub open spec fn default_shortcut() -> Seq<char> {
    "Ctrl+`"@
}

/// The default pause shortcut.
pub open spec fn default_pause_shortcut() -> Seq<char> {
    "Ctrl+1"@
}

/// Whether `m` is `s` brought into range.
pub open spec fn is_migration_of(s: SettingsCore, m: SettingsCore) -> bool {
    &&& m.initialized == s.initialized
    &&& m.voice_style@ == s.voice_style@
    &&& m.language@ == migrated_language(s.language@)
    &&& m.quality == migrated_quality(s.quality)
    &&& m.shortcut@ == migrated_shortcut(s.shortcut@, default_shortcut())
    &&& m.pause_shortcut@ == migrated_shortcut(s.pause_shortcut@, default_pause_shortcut())
    &&& m.ui_language@ == migrated_ui_language(s.ui_language@)
}

/// Whether every field is within what the application supports.
pub open spec fn settings_valid(s: SettingsCore) -> bool {
    &&& is_valid_lang_code(s.language@)
    &&& MIN_QUALITY <= s.quality <= MAX_QUALITY
    &&& trim(s.shortcut@).len() > 0
    &&& trim(s.pause_shortcut@).len() > 0
    &&& ui_langs().contains(s.ui_language@)
}

/// The settings of a first start.
pub fn default_settings() -> (r: SettingsCore)
    ensures
        !r.initialized,
        r.language@ == "en"@,
        r.voice_style@ == "M1"@,
        r.quality == DEFAULT_QUALITY,
        r.shortcut@ == default_shortcut(),
        r.pause_shortcut@ == default_pause_shortcut(),
        r.ui_language@ == "en"@,
{
    SettingsCore {
        initialized: false,
        language: String::from_str("en"),
        voice_style: String::from_str("M1"),
        quality: DEFAULT_QUALITY,
        shortcut: String::from_str("Ctrl+`"),
        pause_shortcut: String::from_str("Ctrl+1"),
        ui_language: String::from_str("en"),
    }
}

/// Whether a text is empty or only whitespace.
pub fn is_blank(s: &str) -> (r: bool)
    ensures
        r == (trim(s@).len() == 0),
{
    let c = chars_of(s);
    let t = trim_chars(c.as_slice());
    t.len() == 0
}

/// The language to keep: the given one if the synthesizer reads it, else English.
pub fn normalize_language(lang: String) -> (r: String)
    ensures
        r@ == migrated_language(lang@),
{
    if is_valid_lang(lang.as_str()) {
        lang
    } else {
        String::from_str("en")
    }
}

/// Brings stored settings into range: an unknown language or interface
/// language becomes English, a quality outside the supported range the
/// default, and blank shortcuts their defaults.
pub fn migrate_settings(s: SettingsCore) -> (r: SettingsCore)
    ensures
        is_migration_of(s, r),
{
    let SettingsCore {
        initialized,
        language,
        voice_style,
        quality,
        shortcut,
        pause_shortcut,
        ui_language,
    } = s;
    let language = normalize_language(language);
    let quality = if MIN_QUALITY <= quality && quality <= MAX_QUALITY {
        quality
    } else {
        DEFAULT_QUALITY
    };
    let shortcut = if is_blank(shortcut.as_str()) {
        String::from_str("Ctrl+`")
    } else {
        shortcut
    };
    let pause_shortcut = if is_blank(pause_shortcut.as_str()) {
        String::from_str("Ctrl+1")
    } else {
        pause_shortcut
    };
    let ui_language = if is_valid_ui_lang(ui_language.as_str()) {
        ui_language
    } else {
        String::from_str("en")
    };
    SettingsCore { initialized, language, voice_style, quality, shortcut, pause_shortcut, ui_language }
}

/// What the running application must redo after the settings change.
pub struct SettingsChange {
    /// The voice style changed: load the new one into the engine.
    pub reload_voice_style: bool,
    /// A shortcut changed: unregister all and register the reading shortcut.
    pub reregister_shortcuts: bool,
    /// Register the pause shortcut as well (it is not blank).
    pub register_pause_shortcut: bool,
}

/// What changing from the old voice style and shortcuts to the new settings
/// requires: reloading the voice style when it changed, re-registering the
/// shortcuts when either changed, and with them the pause shortcut unless it
/// is blank.
pub fn plan_settings_change(
    old_voice_style: &str,
    old_shortcut: &str,
    old_pause_shortcut: &str,
    new: &SettingsCore,
) -> (r: SettingsChange)
    ensures
        r.reload_voice_style == (new.voice_style@ != old_voice_style@),
        r.reregister_shortcuts == (new.shortcut@ != old_shortcut@ || new.pause_shortcut@
            != old_pause_shortcut@),
        r.register_pause_shortcut == (r.reregister_shortcuts && trim(new.pause_shortcut@).len()
            > 0),
{
    let reload = !str_eq(new.voice_style.as_str(), old_voice_style);
    let rereg = !str_eq(new.shortcut.as_str(), old_shortcut) || !str_eq(
        new.pause_shortcut.as_str(),
        old_pause_shortcut,
    );
    let pause = rereg && !is_blank(new.pause_shortcut.as_str());
    SettingsChange { reload_voice_style: reload, reregister_shortcuts: rereg, register_pause_shortcut: pause }
}

/// Defaults are within range.
pub proof fn lemma_default_shortcuts_not_blank()
    ensures
        trim(default_shortcut()).len() > 0,
        trim(default_pause_shortcut()).len() > 0,
        is_valid_lang_code("en"@),
        ui_langs().contains("en"@),
{
    reveal_strlit("Ctrl+`");
    reveal_strlit("Ctrl+1");
    reveal_strlit("en");
    let a = default_shortcut();
    let b = default_pause_shortcut();
    assert(crate::text::trim_start(a) == a);
    assert(crate::text::trim_end(a) == a);
    assert(crate::text::trim_start(b) == b);
    assert(crate::text::trim_end(b) == b);
    assert(available_langs()[0] == "en"@);
    assert(ui_langs()[0] == "en"@);
}

/// Migrated settings are always within range.
pub proof fn lemma_migration_valid(s: SettingsCore, m: SettingsCore)
    requires
        is_migration_of(s, m),
    ensures
        settings_valid(m),
{
    lemma_default_shortcuts_not_blank();
}

/// Migration changes nothing in settings that are within range.
pub proof fn lemma_migration_keeps_valid(s: SettingsCore, m: SettingsCore)
    requires
        settings_valid(s),
        is_migration_of(s, m),
    ensures
        m.initialized == s.initialized,
        m.language@ == s.language@,
        m.voice_style@ == s.voice_style@,
        m.quality == s.quality,
        m.shortcut@ == s.shortcut@,
        m.pause_shortcut@ == s.pause_shortcut@,
        m.ui_language@ == s.ui_language@,
{
}

/// Migrating twice is migrating once.
pub proof fn lemma_migration_idempotent(s: SettingsCore, m1: SettingsCore, m2: SettingsCore)
    requires
        is_migration_of(s, m1),
        is_migration_of(m1, m2),
    ensures
        m2.initialized == m1.initialized,
        m2.language@ == m1.language@,
        m2.voice_style@ == m1.voice_style@,
        m2.quality == m1.quality,
        m2.shortcut@ == m1.shortcut@,
        m2.pause_shortcut@ == m1.pause_shortcut@,
        m2.ui_language@ == m1.ui_language@,
{
    lemma_migration_valid(s, m1);
    lemma_migration_keeps_valid(m1, m2);
}

/// The clamped quality is in range and equals the quality when it already is.
pub proof fn lemma_clamp_quality(q: int)
    ensures
        MIN_QUALITY <= clamped_quality(q) <= MAX_QUALITY,
        MIN_QUALITY <= q <= MAX_QUALITY ==> clamped_quality(q) == q,
        clamped_quality(clamped_quality(q)) == clamped_quality(q),
{
}

} // verus!
