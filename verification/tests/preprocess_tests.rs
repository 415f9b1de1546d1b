use supertonic_reader::preprocess::replace_chars;
use supertonic_reader::lang::{chunk_limit_for_lang, is_valid_lang, is_valid_ui_lang};
use supertonic_reader::preprocess::{
    preprocess_normalized, preprocess_text, sanitize_filename, text_to_unicode_values,
    PreprocessError,
};

fn ok(text: &str, lang: &str) -> String {
    match preprocess_text(text, lang) {
        Ok(s) => s,
        Err(PreprocessError::InvalidLanguage(l)) => panic!("unexpected invalid language {}", l),
    }
}

#[test]
fn plain_text_gets_period_and_tags() {
    assert_eq!(ok("Hello world", "en"), "<en>Hello world.</en>");
    assert_eq!(ok("Is it?", "de"), "<de>Is it?</de>");
}

#[test]
fn blank_text_gets_only_tags() {
    assert_eq!(ok("   \n ", "en"), "<en></en>");
}

#[test]
fn invalid_language_is_reported() {
    match preprocess_text("Hi", "xx") {
        Err(PreprocessError::InvalidLanguage(l)) => assert_eq!(l, "xx"),
        Ok(s) => panic!("unexpected success {}", s),
    }
    assert_eq!(ok("Hi", "zh"), "<zh>Hi.</zh>");
    assert!(preprocess_text("Hi", "EN").is_err());
}

#[test]
fn quotes_and_dashes_are_normalized() {
    assert_eq!(ok("He said \u{201C}hi\u{201D} \u{2014} ok", "en"), "<en>He said hi - ok.</en>");
    assert_eq!(ok("it\u{2019}s a_b [c] d/e #f", "en"), "<en>it's a b c d e f.</en>");
}

#[test]
fn abbreviations_and_at_sign_are_spelled_out() {
    assert_eq!(ok("e.g., this @ home", "en"), "<en>for example, this at home.</en>");
    assert_eq!(ok("i.e., that", "en"), "<en>that is, that.</en>");
}

#[test]
fn space_before_punctuation_is_dropped() {
    assert_eq!(ok("Hello , world !", "en"), "<en>Hello, world!</en>");
    assert_eq!(ok("a ; b : c ?", "en"), "<en>a; b: c?</en>");
}

#[test]
fn emoji_and_symbols_are_removed() {
    assert_eq!(ok("Great \u{1F600} job \u{2665}\u{00A9}", "en"), "<en>Great job.</en>");
}

#[test]
fn repeated_quotes_collapse() {
    assert_eq!(ok("''quoted''", "en"), "<en>'quoted'</en>");
}

#[test]
fn whitespace_runs_collapse() {
    assert_eq!(ok("  a \t\n b\u{3000}c  ", "en"), "<en>a b c.</en>");
}

#[test]
fn compatibility_decomposition_is_applied() {
    // The ligature and the full-width letter decompose to plain letters.
    assert_eq!(ok("\u{FB01}ne \u{FF21}", "en"), "<en>fine A.</en>");
    // Without decomposition they stay as they are.
    match preprocess_normalized("\u{FB01}ne", "en") {
        Ok(s) => assert_eq!(s, "<en>\u{FB01}ne.</en>"),
        Err(_) => panic!("unexpected error"),
    }
}

#[test]
fn closing_punctuation_of_other_scripts_is_kept() {
    assert_eq!(ok("\u{3053}\u{3093}\u{306B}\u{3061}\u{306F}\u{3002}", "ja"), "<ja>\u{3053}\u{3093}\u{306B}\u{3061}\u{306F}\u{3002}</ja>");
    assert_eq!(ok("(note)", "en"), "<en>(note)</en>");
}

#[test]
fn code_points_of_text() {
    assert_eq!(text_to_unicode_values("a\u{e9}\u{1F600}"), vec![97, 233, 0x1F600]);
    assert_eq!(text_to_unicode_values(""), Vec::<usize>::new());
}

#[test]
fn file_names_are_sanitized() {
    assert_eq!(sanitize_filename("Hello, World!", 8), "Hello__W");
    assert_eq!(sanitize_filename("abc", 10), "abc");
    assert_eq!(sanitize_filename("\u{65E5}\u{672C} 1", 10), "\u{65E5}\u{672C}_1");
    assert_eq!(sanitize_filename("abc", 0), "");
}

#[test]
fn languages_are_checked() {
    assert!(is_valid_lang("en"));
    assert!(is_valid_lang("vi"));
    assert!(is_valid_lang("zh"));
    assert!(!is_valid_lang(""));
    assert!(is_valid_ui_lang("zh"));
    assert!(!is_valid_ui_lang("de"));
}

#[test]
fn chunk_limit_depends_on_language() {
    assert_eq!(chunk_limit_for_lang("ko"), 120);
    assert_eq!(chunk_limit_for_lang("ja"), 120);
    assert_eq!(chunk_limit_for_lang("en"), 300);
}

#[test]
fn thirty_two_reading_languages_and_nine_interface_languages() {
    let codes = supertonic_reader::lang::available_lang_codes();
    assert_eq!(codes.len(), 32);
    assert!(codes.contains(&"zh"));
    for c in &codes {
        assert!(is_valid_lang(c));
    }
    let ui = ["en", "zh", "ja", "ko", "es", "fr", "ms", "vi", "ru"];
    for c in ui {
        assert!(is_valid_ui_lang(c));
    }
}

#[test]
fn cleaned_text_is_single_spaced_and_ends_with_punctuation() {
    for text in ["a  b\t\tc", "x !  y", "  \u{2014} hi \u{2014}  ", "end;"] {
        let out = ok(text, "en");
        let body = out.trim_start_matches("<en>").trim_end_matches("</en>");
        assert!(!body.contains("  "));
        assert_eq!(body.trim(), body);
        assert!(body.ends_with(|c: char| ".!?;:,'\")]}".contains(c)));
    }
}

#[test]
fn replacement_scans_left_to_right_without_overlap() {
    let c = |s: &str| s.chars().collect::<Vec<char>>();
    assert_eq!(replace_chars(&c("aaaa"), &c("aa"), &c("b")), c("bb"));
    assert_eq!(replace_chars(&c("aaa"), &c("aa"), &c("b")), c("ba"));
    assert_eq!(replace_chars(&c("x"), &c(""), &c("y")), c("x"));
    assert_eq!(replace_chars(&c("a@b"), &c("@"), &c(" at ")), c("a at b"));
}
