//! The languages the synthesizer reads and the interface languages the
//! application offers.
use vstd::prelude::*;
use crate::text::str_eq;

verus! {

/// The languages the synthesizer reads, by code.
pub open spec fn available_langs() -> Seq<Seq<char>> {
    seq![
        "en"@, "ko"@, "ja"@, "ar"@, "bg"@, "cs"@, "da"@, "de"@, "el"@, "es"@, "et"@,
        "fi"@, "fr"@, "hi"@, "hr"@, "hu"@, "id"@, "it"@, "lt"@, "lv"@, "nl"@, "pl"@,
        "pt"@, "ro"@, "ru"@, "sk"@, "sl"@, "sv"@, "tr"@, "uk"@, "vi"@, "zh"@,
    ]
}

/// Whether `lang` names a language the synthesizer reads.
pub open spec fn is_valid_lang_code(lang: Seq<char>) -> bool {
    available_langs().contains(lang)
}

/// The language codes the synthesizer reads, in order.
pub fn available_lang_codes() -> (r: Vec<&'static str>)
    ensures
        r@.len() == available_langs().len(),
        forall|k: int| 0 <= k < r@.len() ==> #[trigger] r@[k]@ == available_langs()[k],
{
    let codes: [&'static str; 32] = [
        "en", "ko", "ja", "ar", "bg", "cs", "da", "de", "el", "es", "et",
        "fi", "fr", "hi", "hr", "hu", "id", "it", "lt", "lv", "nl", "pl",
        "pt", "ro", "ru", "sk", "sl", "sv", "tr", "uk", "vi", "zh",
    ];
    assert(forall|k: int| 0 <= k < 32 ==> #[trigger] codes@[k]@ == available_langs()[k]);
    let mut r: Vec<&'static str> = Vec::new();
    let mut i: usize = 0;
    while i < 32
        invariant
            i <= 32,
            r@.len() == i,
            forall|k: int| 0 <= k < 32 ==> #[trigger] codes@[k]@ == available_langs()[k],
            forall|k: int| 0 <= k < i ==> #[trigger] r@[k]@ == available_langs()[k],
        decreases 32 - i,
    {
        r.push(codes[i]);
        i = i + 1;
    }
    r
}

/// Whether a code is among the given ones.
fn contains_code(codes: &Vec<&'static str>, lang: &str) -> (r: bool)
    ensures
        r == exists|k: int| 0 <= k < codes@.len() && #[trigger] codes@[k]@ == lang@,
{
    let mut i: usize = 0;
    while i < codes.len()
        invariant
            i <= codes@.len(),
            forall|k: int| 0 <= k < i ==> #[trigger] codes@[k]@ != lang@,
        decreases codes@.len() - i,
    {
        if str_eq(codes[i], lang) {
            return true;
        }
        i = i + 1;
    }
    false
}

/// Whether the synthesizer reads the language with this code.
pub fn is_valid_lang(lang: &str) -> (r: bool)
    ensures
        r == is_valid_lang_code(lang@),
{
    let codes = available_lang_codes();
    let r = contains_code(&codes, lang);
    proof {
        if r {
            let k = choose|k: int| 0 <= k < codes@.len() && #[trigger] codes@[k]@ == lang@;
            assert(available_langs()[k] == lang@);
        } else {
            assert forall|k: int| 0 <= k < available_langs().len() implies available_langs()[k]
                != lang@ by {
                assert(codes@[k]@ == available_langs()[k]);
            }
        }
    }
    r
}

/// The interface languages the application offers.
pub open spec fn ui_langs() -> Seq<Seq<char>> {
    seq!["en"@, "zh"@, "ja"@, "ko"@, "es"@, "fr"@, "ms"@, "vi"@, "ru"@]
}

/// Whether the application offers this interface language.
pub fn is_valid_ui_lang(lang: &str) -> (r: bool)
    ensures
        r == ui_langs().contains(lang@),
{
    let codes: [&'static str; 9] = ["en", "zh", "ja", "ko", "es", "fr", "ms", "vi", "ru"];
    assert(forall|k: int| 0 <= k < 9 ==> #[trigger] codes@[k]@ == ui_langs()[k]);
    let mut i: usize = 0;
    while i < 9
        invariant
            i <= 9,
            forall|k: int| 0 <= k < 9 ==> #[trigger] codes@[k]@ == ui_langs()[k],
            forall|k: int| 0 <= k < i ==> ui_langs()[k] != lang@,
        decreases 9 - i,
    {
        if str_eq(codes[i], lang) {
            assert(ui_langs()[i as int] == lang@);
            return true;
        }
        i = i + 1;
    }
    false
}

/// The chunk limit in bytes for a language: Korean and Japanese text is
/// chunked more finely.
pub open spec fn chunk_limit(lang: Seq<char>) -> usize {
    if lang == "ko"@ || lang == "ja"@ {
        120
    } else {
        300
    }
}

/// The chunk limit in bytes used when synthesizing text in this language.
pub fn chunk_limit_for_lang(lang: &str) -> (r: usize)
    ensures
        r == chunk_limit(lang@),
{
    if str_eq(lang, "ko") || str_eq(lang, "ja") {
        120
    } else {
        300
    }
}

} // verus!
