//! Text normalization before synthesis, the mapping of text to code points,
//! and file names derived from text.
use vstd::prelude::*;
use unicode_normalization::UnicodeNormalization;
use crate::text::{
    is_white_space, is_alphanumeric, char_is_whitespace, char_is_alphanumeric, chars_of,
    string_of, trim, trim_chars, string_push, lemma_trim_shape, lemma_trim_fixed,
};
use crate::lang::{is_valid_lang, is_valid_lang_code};

verus! {

/// The Unicode compatibility decomposition (NFKD) of a text.
pub uninterp spec fn nfkd(text: Seq<char>) -> Seq<char>;

/// Collects `UnicodeNormalization::nfkd` over the text's characters into a
/// string; the result is named `nfkd(text)` and nothing more is claimed.
#[verifier::external_body]
fn nfkd_string(text: &str) -> (r: String)
    ensures
        r@ == nfkd(text@),
{
    text.nfkd().collect()
}

/// Whether a character is in one of the emoji and symbol blocks that are
/// dropped before synthesis.
pub open spec fn is_emoji(c: char) -> bool {
    let u = c as u32;
    ||| 0x1F600 <= u <= 0x1F64F
    ||| 0x1F300 <= u <= 0x1F5FF
    ||| 0x1F680 <= u <= 0x1F6FF
    ||| 0x1F700 <= u <= 0x1F77F
    ||| 0x1F780 <= u <= 0x1F7FF
    ||| 0x1F800 <= u <= 0x1F8FF
    ||| 0x1F900 <= u <= 0x1F9FF
    ||| 0x1FA00 <= u <= 0x1FA6F
    ||| 0x1FA70 <= u <= 0x1FAFF
    ||| 0x2600 <= u <= 0x26FF
    ||| 0x2700 <= u <= 0x27BF
    ||| 0x1F1E6 <= u <= 0x1F1FF
}

/// `s` without its emoji characters.
pub open spec fn remove_emoji(s: Seq<char>) -> Seq<char>
    decreases s.len(),
{
    if s.len() == 0 {
        s
    } else if is_emoji(s.last()) {
        remove_emoji(s.drop_last())
    } else {
        remove_emoji(s.drop_last()).push(s.last())
    }
}

/// `s` with every occurrence of `from` replaced by `to`, scanning left to
/// right without overlap, as `str::replace` does (an empty `from` replaces
/// nothing here).
pub open spec fn replace_all(s: Seq<char>, from: Seq<char>, to: Seq<char>) -> Seq<char>
    decreases s.len(),
{
    if from.len() == 0 || s.len() < from.len() {
        s
    } else if s.take(from.len() as int) == from {
        to + replace_all(s.skip(from.len() as int), from, to)
    } else {
        seq![s[0]] + replace_all(s.skip(1), from, to)
    }
}

/// The literal replacements applied before synthesis, in order: dashes,
/// quotes and brackets to plain forms, a few symbols removed, `@` and two
/// Latin abbreviations spelled out, and spaces before punctuation dropped.
pub open spec fn replacement_table() -> Seq<(Seq<char>, Seq<char>)> {
    seq![
        ("\u{2013}"@, "-"@), ("\u{2011}"@, "-"@), ("\u{2014}"@, "-"@), ("_"@, " "@),
        ("\u{201C}"@, "\""@), ("\u{201D}"@, "\""@), ("\u{2018}"@, "'"@), ("\u{2019}"@, "'"@),
        ("\u{00B4}"@, "'"@), ("`"@, "'"@), ("["@, " "@), ("]"@, " "@),
        ("|"@, " "@), ("/"@, " "@), ("#"@, " "@), ("\u{2192}"@, " "@), ("\u{2190}"@, " "@),
        ("\u{2665}"@, ""@), ("\u{2606}"@, ""@), ("\u{2661}"@, ""@), ("\u{00A9}"@, ""@), ("\""@, ""@),
        ("@"@, " at "@), ("e.g.,"@, "for example, "@), ("i.e.,"@, "that is, "@),
        (" ,"@, ","@), (" ."@, "."@), (" !"@, "!"@), (" ?"@, "?"@), (" ;"@, ";"@),
        (" :"@, ":"@), (" '"@, "'"@),
    ]
}

/// `s` after the replacements of the table, applied one after the other.
pub open spec fn apply_table(s: Seq<char>, table: Seq<(Seq<char>, Seq<char>)>) -> Seq<char>
    decreases table.len(),
{
    if table.len() == 0 {
        s
    } else {
        replace_all(apply_table(s, table.drop_last()), table.last().0, table.last().1)
    }
}

/// `s` with every run of `c` reduced to a single `c`.
pub open spec fn collapse_repeats(s: Seq<char>, c: char) -> Seq<char>
    decreases s.len(),
{
    if s.len() == 0 {
        s
    } else {
        let p = collapse_repeats(s.drop_last(), c);
        if s.last() == c && p.len() > 0 && p.last() == c {
            p
        } else {
            p.push(s.last())
        }
    }
}

/// `s` with every run of whitespace replaced by one space.
pub open spec fn collapse_white_space(s: Seq<char>) -> Seq<char>
    decreases s.len(),
{
    if s.len() == 0 {
        s
    } else {
        let p = collapse_white_space(s.drop_last());
        if is_white_space(s.last()) {
            if p.len() > 0 && p.last() == ' ' {
                p
            } else {
                p.push(' ')
            }
        } else {
            p.push(s.last())
        }
    }
}

/// The characters that may end a text without a period being added.
pub open spec fn is_closing_punctuation(c: char) -> bool {
    ||| c == '.' || c == '!' || c == '?' || c == ';' || c == ':' || c == ','
    ||| c == '\'' || c == '"' || c == '\u{201C}' || c == '\u{201D}' || c == '\u{2018}'
    ||| c == '\u{2019}' || c == ')' || c == ']' || c == '}' || c == '\u{2026}'
    ||| c == '\u{3002}' || c == '\u{300D}' || c == '\u{300F}' || c == '\u{3011}'
    ||| c == '\u{3009}' || c == '\u{300B}' || c == '\u{203A}' || c == '\u{00BB}'
}

/// The text as it is read aloud: emoji dropped, the table of replacements
/// applied, repeated quotes and backticks reduced, whitespace runs made one
/// space, ends trimmed, and a period added when a non-empty text does not end
/// with punctuation.
pub open spec fn clean_text(s: Seq<char>) -> Seq<char> {
    let t = apply_table(remove_emoji(s), replacement_table());
    let t = collapse_repeats(t, '"');
    let t = collapse_repeats(t, '\'');
    let t = collapse_repeats(t, '`');
    let t = trim(collapse_white_space(t));
    if t.len() > 0 && !is_closing_punctuation(t.last()) {
        t.push('.')
    } else {
        t
    }
}

/// The text wrapped in language tags: `<lang>text</lang>`.
pub open spec fn tagged(lang: Seq<char>, body: Seq<char>) -> Seq<char> {
    seq!['<'] + lang + seq!['>'] + body + seq!['<', '/'] + lang + seq!['>']
}

/// Why text cannot be prepared for synthesis.
pub enum PreprocessError {
    /// The language code is not one the synthesizer reads.
    InvalidLanguage(String),
}

fn remove_emoji_chars(v: &[char]) -> (r: Vec<char>)
    ensures
        r@ == remove_emoji(v@),
{
    let mut r: Vec<char> = Vec::new();
    let mut i: usize = 0;
    assert(v@.take(0) =~= Seq::<char>::empty());
    while i < v.len()
        invariant
            i <= v@.len(),
            r@ == remove_emoji(v@.take(i as int)),
        decreases v@.len() - i,
    {
        assert(v@.take(i + 1).drop_last() =~= v@.take(i as int));
        let c = v[i];
        let u = c as u32;
        let emoji = (0x1F600 <= u && u <= 0x1F64F) || (0x1F300 <= u && u <= 0x1F5FF)
            || (0x1F680 <= u && u <= 0x1F6FF) || (0x1F700 <= u && u <= 0x1F77F)
            || (0x1F780 <= u && u <= 0x1F7FF) || (0x1F800 <= u && u <= 0x1F8FF)
            || (0x1F900 <= u && u <= 0x1F9FF) || (0x1FA00 <= u && u <= 0x1FA6F)
            || (0x1FA70 <= u && u <= 0x1FAFF) || (0x2600 <= u && u <= 0x26FF)
            || (0x2700 <= u && u <= 0x27BF) || (0x1F1E6 <= u && u <= 0x1F1FF);
        if !emoji {
            r.push(c);
        }
        i = i + 1;
    }
    assert(v@.take(v@.len() as int) =~= v@);
    r
}

/// Whether `from` occurs in `v` at position `i`.
fn matches_at(v: &[char], i: usize, from: &[char]) -> (r: bool)
    requires
        i <= v@.len(),
    ensures
        r == (i + from@.len() <= v@.len() && v@.subrange(i as int, i + from@.len()) == from@),
{
    if from.len() > v.len() - i {
        return false;
    }
    let mut k: usize = 0;
    while k < from.len()
        invariant
            i + from@.len() <= v@.len(),
            v@.len() <= usize::MAX,
            k <= from@.len(),
            forall|j: int| 0 <= j < k ==> v@[i + j] == from@[j],
        decreases from@.len() - k,
    {
        if v[i + k] != from[k] {
            assert(v@.subrange(i as int, i + from@.len())[k as int] != from@[k as int]);
            return false;
        }
        k = k + 1;
    }
    assert(v@.subrange(i as int, i + from@.len()) =~= from@);
    true
}

/// Replaces every occurrence of `from` by `to`, left to right.
pub fn replace_chars(v: &[char], from: &[char], to: &[char]) -> (r: Vec<char>)
    ensures
        r@ == replace_all(v@, from@, to@),
{
    let mut r: Vec<char> = Vec::new();
    if from.len() == 0 {
        crate::text::append_chars(&mut r, v);
        return r;
    }
    let mut i: usize = 0;
    assert(v@.skip(0) =~= v@);
    while i < v.len()
        invariant
            from@.len() > 0,
            i <= v@.len(),
            r@ + replace_all(v@.skip(i as int), from@, to@) == replace_all(v@, from@, to@),
        decreases v@.len() - i,
    {
        let ghost rest = v@.skip(i as int);
        if matches_at(v, i, from) {
            assert(rest.take(from@.len() as int) =~= v@.subrange(i as int, i + from@.len()));
            assert(rest.skip(from@.len() as int) =~= v@.skip(i + from@.len()));
            let ghost before = r@;
            crate::text::append_chars(&mut r, to);
            assert(before + (to@ + replace_all(v@.skip(i + from@.len()), from@, to@)) =~= r@
                + replace_all(v@.skip(i + from@.len()), from@, to@));
            i = i + from.len();
        } else {
            proof {
                if rest.len() >= from@.len() {
                    assert(rest.take(from@.len() as int) =~= v@.subrange(i as int, i + from@.len()));
                }
            }
            assert(rest.skip(1) =~= v@.skip(i + 1));
            assert(rest[0] == v@[i as int]);
            let ghost before = r@;
            r.push(v[i]);
            proof {
                if rest.len() < from@.len() {
                    assert(replace_all(rest.skip(1), from@, to@) == rest.skip(1));
                    assert(seq![rest[0]] + rest.skip(1) =~= rest);
                }
            }
            assert(before + (seq![v@[i as int]] + replace_all(v@.skip(i + 1), from@, to@)) =~= r@
                + replace_all(v@.skip(i + 1), from@, to@));
            i = i + 1;
        }
    }
    assert(v@.skip(v@.len() as int) =~= Seq::<char>::empty());
    assert(r@ + Seq::<char>::empty() =~= r@);
    r
}

/// Applies the table of replacements in order.
fn apply_replacement_table(v: Vec<char>) -> (r: Vec<char>)
    ensures
        r@ == apply_table(v@, replacement_table()),
{
    let table: [(&str, &str); 32] = [
        ("\u{2013}", "-"), ("\u{2011}", "-"), ("\u{2014}", "-"), ("_", " "),
        ("\u{201C}", "\""), ("\u{201D}", "\""), ("\u{2018}", "'"), ("\u{2019}", "'"),
        ("\u{00B4}", "'"), ("`", "'"), ("[", " "), ("]", " "),
        ("|", " "), ("/", " "), ("#", " "), ("\u{2192}", " "), ("\u{2190}", " "),
        ("\u{2665}", ""), ("\u{2606}", ""), ("\u{2661}", ""), ("\u{00A9}", ""), ("\"", ""),
        ("@", " at "), ("e.g.,", "for example, "), ("i.e.,", "that is, "),
        (" ,", ","), (" .", "."), (" !", "!"), (" ?", "?"), (" ;", ";"),
        (" :", ":"), (" '", "'"),
    ];
    let ghost tbl = replacement_table();
    assert(forall|k: int| 0 <= k < 32 ==> (#[trigger] table@[k]).0@ == tbl[k].0 && table@[k].1@ == tbl[k].1);
    let mut cur = v;
    let mut k: usize = 0;
    assert(tbl.take(0) =~= Seq::<(Seq<char>, Seq<char>)>::empty());
    while k < 32
        invariant
            k <= 32,
            tbl == replacement_table(),
            forall|j: int| 0 <= j < 32 ==> (#[trigger] table@[j]).0@ == tbl[j].0 && table@[j].1@ == tbl[j].1,
            cur@ == apply_table(v@, tbl.take(k as int)),
        decreases 32 - k,
    {
        assert(tbl.take(k + 1).drop_last() =~= tbl.take(k as int));
        let (from, to) = table[k];
        let from_chars = chars_of(from);
        let to_chars = chars_of(to);
        cur = replace_chars(cur.as_slice(), from_chars.as_slice(), to_chars.as_slice());
        k = k + 1;
    }
    assert(tbl.take(32) =~= tbl);
    cur
}

/// Reduces every run of `c` to one `c`.
fn collapse_repeats_chars(v: &[char], c: char) -> (r: Vec<char>)
    ensures
        r@ == collapse_repeats(v@, c),
{
    let mut r: Vec<char> = Vec::new();
    let mut i: usize = 0;
    assert(v@.take(0) =~= Seq::<char>::empty());
    while i < v.len()
        invariant
            i <= v@.len(),
            r@ == collapse_repeats(v@.take(i as int), c),
        decreases v@.len() - i,
    {
        assert(v@.take(i + 1).drop_last() =~= v@.take(i as int));
        let d = v[i];
        let n = r.len();
        if !(d == c && n > 0 && r[n - 1] == c) {
            r.push(d);
        }
        i = i + 1;
    }
    assert(v@.take(v@.len() as int) =~= v@);
    r
}

/// Replaces every run of whitespace by one space.
fn collapse_white_space_chars(v: &[char]) -> (r: Vec<char>)
    ensures
        r@ == collapse_white_space(v@),
{
    let mut r: Vec<char> = Vec::new();
    let mut i: usize = 0;
    assert(v@.take(0) =~= Seq::<char>::empty());
    while i < v.len()
        invariant
            i <= v@.len(),
            r@ == collapse_white_space(v@.take(i as int)),
        decreases v@.len() - i,
    {
        assert(v@.take(i + 1).drop_last() =~= v@.take(i as int));
        let d = v[i];
        let n = r.len();
        if char_is_whitespace(d) {
            if !(n > 0 && r[n - 1] == ' ') {
                r.push(' ');
            }
        } else {
            r.push(d);
        }
        i = i + 1;
    }
    assert(v@.take(v@.len() as int) =~= v@);
    r
}

/// Whether a character may end a text without a period being added.
fn closing_punctuation(c: char) -> (r: bool)
    ensures
        r == is_closing_punctuation(c),
{
    c == '.' || c == '!' || c == '?' || c == ';' || c == ':' || c == ','
    || c == '\'' || c == '"' || c == '\u{201C}' || c == '\u{201D}' || c == '\u{2018}'
    || c == '\u{2019}' || c == ')' || c == ']' || c == '}' || c == '\u{2026}'
    || c == '\u{3002}' || c == '\u{300D}' || c == '\u{300F}' || c == '\u{3011}'
    || c == '\u{3009}' || c == '\u{300B}' || c == '\u{203A}' || c == '\u{00BB}'
}

/// The text as it is read aloud (see `clean_text`).
pub fn clean_text_chars(v: &[char]) -> (r: Vec<char>)
    ensures
        r@ == clean_text(v@),
{
    let t = remove_emoji_chars(v);
    let t = apply_replacement_table(t);
    let t = collapse_repeats_chars(t.as_slice(), '"');
    let t = collapse_repeats_chars(t.as_slice(), '\'');
    let t = collapse_repeats_chars(t.as_slice(), '`');
    let t = collapse_white_space_chars(t.as_slice());
    let mut t = trim_chars(t.as_slice());
    let n = t.len();
    if n > 0 && !closing_punctuation(t[n - 1]) {
        t.push('.');
    }
    t
}

/// Prepares text that is already in compatibility decomposition for the
/// synthesizer: cleans it (see `clean_text`) and wraps it in tags of its
/// language, or reports a language the synthesizer does not read.
pub fn preprocess_normalized(decomposed: &str, lang: &str) -> (r: Result<String, PreprocessError>)
    ensures
        match r {
            Ok(s) => is_valid_lang_code(lang@) && s@ == tagged(lang@, clean_text(decomposed@)),
            Err(PreprocessError::InvalidLanguage(l)) => !is_valid_lang_code(lang@) && l@ == lang@,
        },
{
    let chars = chars_of(decomposed);
    let body = clean_text_chars(chars.as_slice());
    if !is_valid_lang(lang) {
        return Err(PreprocessError::InvalidLanguage(string_of(chars_of(lang).as_slice())));
    }
    let lang_chars = chars_of(lang);
    let mut out: Vec<char> = Vec::new();
    out.push('<');
    crate::text::append_chars(&mut out, lang_chars.as_slice());
    out.push('>');
    crate::text::append_chars(&mut out, body.as_slice());
    out.push('<');
    out.push('/');
    crate::text::append_chars(&mut out, lang_chars.as_slice());
    out.push('>');
    assert(out@ =~= tagged(lang@, clean_text(decomposed@)));
    Ok(string_of(out.as_slice()))
}

/// The text as the synthesizer reads it: the compatibility decomposition
/// (NFKD) of `text`, cleaned and wrapped in language tags, or an error for a
/// language the synthesizer does not read.
pub fn preprocess_text(text: &str, lang: &str) -> (r: Result<String, PreprocessError>)
    ensures
        match r {
            Ok(s) => is_valid_lang_code(lang@) && s@ == tagged(lang@, clean_text(nfkd(text@))),
            Err(PreprocessError::InvalidLanguage(l)) => !is_valid_lang_code(lang@) && l@ == lang@,
        },
{
    let decomposed = nfkd_string(text);
    preprocess_normalized(decomposed.as_str(), lang)
}

/// The code points of the text's characters, in order.
pub fn text_to_unicode_values(text: &str) -> (r: Vec<usize>)
    ensures
        r@.len() == text@.len(),
        forall|i: int| 0 <= i < r@.len() ==> #[trigger] r@[i] == text@[i] as usize,
{
    let chars = chars_of(text);
    let mut r: Vec<usize> = Vec::new();
    let mut i: usize = 0;
    while i < chars.len()
        invariant
            i <= chars@.len(),
            chars@ == text@,
            r@.len() == i,
            forall|k: int| 0 <= k < i ==> #[trigger] r@[k] == text@[k] as usize,
        decreases chars@.len() - i,
    {
        r.push(chars[i] as usize);
        i = i + 1;
    }
    r
}

/// The first `max` characters of `s` (all of them if there are fewer), with
/// every character that is not alphanumeric replaced by `_`.
pub open spec fn sanitized(s: Seq<char>, max: int) -> Seq<char> {
    let t = if s.len() <= max { s } else { s.take(max) };
    t.map_values(|c: char| if is_alphanumeric(c) { c } else { '_' })
}

/// A file name made from the first `max_len` characters of the text, with
/// every character that is not alphanumeric replaced by `_`.
pub fn sanitize_filename(text: &str, max_len: usize) -> (r: String)
    ensures
        r@ == sanitized(text@, max_len as int),
{
    let chars = chars_of(text);
    let mut r = String::new();
    let mut i: usize = 0;
    let ghost t = if text@.len() <= max_len { text@ } else { text@.take(max_len as int) };
    let n = if chars.len() <= max_len { chars.len() } else { max_len };
    assert(t.len() == n);
    while i < n
        invariant
            i <= n == t.len(),
            chars@ == text@,
            t == (if text@.len() <= max_len { text@ } else { text@.take(max_len as int) }),
            r@ == t.take(i as int).map_values(|c: char| if is_alphanumeric(c) { c } else { '_' }),
        decreases n - i,
    {
        let c = chars[i];
        let d = if char_is_alphanumeric(c) { c } else { '_' };
        string_push(&mut r, d);
        assert(t.take(i + 1).map_values(|c: char| if is_alphanumeric(c) { c } else { '_' }) =~= t.take(i as int).map_values(|c: char| if is_alphanumeric(c) { c } else { '_' }).push(d));
        i = i + 1;
    }
    assert(t.take(n as int) =~= t);
    r
}

/// Whitespace in `s` is only single spaces: no other whitespace character and
/// no two spaces in a row.
pub open spec fn single_spaced(s: Seq<char>) -> bool {
    &&& forall|k: int| 0 <= k < s.len() && is_white_space(#[trigger] s[k]) ==> s[k] == ' '
    &&& forall|k: int| 0 <= k < s.len() - 1 && #[trigger] s[k] == ' ' ==> s[k + 1] != ' '
}

proof fn lemma_collapse_single_spaced(s: Seq<char>)
    ensures
        single_spaced(collapse_white_space(s)),
    decreases s.len(),
{
    if s.len() > 0 {
        lemma_collapse_single_spaced(s.drop_last());
        let p = collapse_white_space(s.drop_last());
        let r = collapse_white_space(s);
        if is_white_space(s.last()) {
            if !(p.len() > 0 && p.last() == ' ') {
                assert forall|k: int| 0 <= k < r.len() - 1 && #[trigger] r[k] == ' ' implies r[k + 1]
                    != ' ' by {
                    if k < p.len() - 1 {
                        assert(r[k] == p[k] && r[k + 1] == p[k + 1]);
                    }
                }
                assert forall|k: int| 0 <= k < r.len() && is_white_space(#[trigger] r[k]) implies r[k]
                    == ' ' by {
                    if k < p.len() {
                        assert(r[k] == p[k]);
                    }
                }
            }
        } else {
            assert(s.last() != ' ');
            assert forall|k: int| 0 <= k < r.len() - 1 && #[trigger] r[k] == ' ' implies r[k + 1]
                != ' ' by {
                if k < p.len() - 1 {
                    assert(r[k] == p[k] && r[k + 1] == p[k + 1]);
                }
            }
            assert forall|k: int| 0 <= k < r.len() && is_white_space(#[trigger] r[k]) implies r[k]
                == ' ' by {
                if k < p.len() {
                    assert(r[k] == p[k]);
                }
            }
        }
    }
}

/// The cleaned text is trimmed, its whitespace is single spaces, and when it
/// is not empty it ends with punctuation.
pub proof fn lemma_clean_text_shape(s: Seq<char>)
    ensures
        trim(clean_text(s)) == clean_text(s),
        single_spaced(clean_text(s)),
        clean_text(s).len() > 0 ==> is_closing_punctuation(clean_text(s).last()),
{
    let t0 = apply_table(remove_emoji(s), replacement_table());
    let t1 = collapse_repeats(collapse_repeats(collapse_repeats(t0, '"'), '\''), '`');
    let c = collapse_white_space(t1);
    let t = trim(c);
    lemma_collapse_single_spaced(t1);
    lemma_trim_shape(c);
    let (a, b) = choose|a: int, b: int| 0 <= a <= b <= c.len() && t == c.subrange(a, b);
    assert forall|k: int| 0 <= k < t.len() && is_white_space(#[trigger] t[k]) implies t[k] == ' ' by {
        assert(t[k] == c[a + k]);
    }
    assert forall|k: int| 0 <= k < t.len() - 1 && #[trigger] t[k] == ' ' implies t[k + 1] != ' ' by {
        assert(t[k] == c[a + k] && t[k + 1] == c[a + k + 1]);
    }
    let r = clean_text(s);
    if t.len() > 0 && !is_closing_punctuation(t.last()) {
        assert(r == t.push('.'));
        assert(r[0] == t[0]);
        lemma_trim_fixed(r);
        assert forall|k: int| 0 <= k < r.len() && is_white_space(#[trigger] r[k]) implies r[k] == ' ' by {
            if k < t.len() {
                assert(r[k] == t[k]);
            }
        }
        assert forall|k: int| 0 <= k < r.len() - 1 && #[trigger] r[k] == ' ' implies r[k + 1] != ' ' by {
            if k < t.len() - 1 {
                assert(r[k] == t[k] && r[k + 1] == t[k + 1]);
            }
        }
    } else {
        lemma_trim_fixed(t);
    }
}

/// A sanitized name is as long as the text or `max`, whichever is shorter,
/// and holds only alphanumeric characters and `_`.
pub proof fn lemma_sanitized_shape(s: Seq<char>, max: int)
    requires
        max >= 0,
    ensures
        sanitized(s, max).len() == if s.len() <= max { s.len() as int } else { max },
        forall|k: int| 0 <= k < sanitized(s, max).len() ==> is_alphanumeric(#[trigger] sanitized(s, max)[k])
            || sanitized(s, max)[k] == '_',
{
}


/// Whether no character of `s` is an emoji.
spec fn emoji_free(s: Seq<char>) -> bool {
    forall|k: int| 0 <= k < s.len() ==> !is_emoji(#[trigger] s[k])
}

proof fn lemma_remove_emoji_free(s: Seq<char>)
    ensures
        emoji_free(remove_emoji(s)),
    decreases s.len(),
{
    if s.len() > 0 {
        lemma_remove_emoji_free(s.drop_last());
        let p = remove_emoji(s.drop_last());
        if !is_emoji(s.last()) {
            assert forall|k: int| 0 <= k < p.push(s.last()).len() implies !is_emoji(
                #[trigger] p.push(s.last())[k],
            ) by {
                if k < p.len() {
                    assert(p.push(s.last())[k] == p[k]);
                }
            }
        }
    }
}

proof fn lemma_replace_all_free(s: Seq<char>, from: Seq<char>, to: Seq<char>)
    requires
        emoji_free(s),
        emoji_free(to),
    ensures
        emoji_free(replace_all(s, from, to)),
    decreases s.len(),
{
    if from.len() == 0 || s.len() < from.len() {
    } else if s.take(from.len() as int) == from {
        let rest = s.skip(from.len() as int);
        assert forall|k: int| 0 <= k < rest.len() implies !is_emoji(#[trigger] rest[k]) by {
            assert(rest[k] == s[k + from.len()]);
        }
        lemma_replace_all_free(rest, from, to);
        let r = replace_all(rest, from, to);
        assert forall|k: int| 0 <= k < (to + r).len() implies !is_emoji(#[trigger] (to + r)[k]) by {
            if k >= to.len() {
                assert((to + r)[k] == r[k - to.len()]);
            }
        }
    } else {
        let rest = s.skip(1);
        assert forall|k: int| 0 <= k < rest.len() implies !is_emoji(#[trigger] rest[k]) by {
            assert(rest[k] == s[k + 1]);
        }
        lemma_replace_all_free(rest, from, to);
        let r = replace_all(rest, from, to);
        assert(!is_emoji(s[0]));
        assert forall|k: int| 0 <= k < (seq![s[0]] + r).len() implies !is_emoji(
            #[trigger] (seq![s[0]] + r)[k],
        ) by {
            if k >= 1 {
                assert((seq![s[0]] + r)[k] == r[k - 1]);
            }
        }
    }
}

proof fn lemma_apply_table_free(s: Seq<char>, table: Seq<(Seq<char>, Seq<char>)>)
    requires
        emoji_free(s),
        forall|k: int| 0 <= k < table.len() ==> emoji_free(#[trigger] table[k].1),
    ensures
        emoji_free(apply_table(s, table)),
    decreases table.len(),
{
    if table.len() > 0 {
        let prev = table.drop_last();
        assert forall|k: int| 0 <= k < prev.len() implies emoji_free(#[trigger] prev[k].1) by {
            assert(prev[k] == table[k]);
        }
        lemma_apply_table_free(s, prev);
        assert(emoji_free(table[table.len() - 1].1));
        lemma_replace_all_free(apply_table(s, prev), table.last().0, table.last().1);
    }
}

proof fn lemma_replacements_free()
    ensures
        forall|k: int| 0 <= k < replacement_table().len() ==> emoji_free(
            #[trigger] replacement_table()[k].1,
        ),
{
    reveal_strlit("-");
    assert("-"@.len() == 1 && "-"@[0] == '-');
    reveal_strlit(" ");
    assert(" "@.len() == 1 && " "@[0] == ' ');
    reveal_strlit("\"");
    assert("\""@.len() == 1 && "\""@[0] == '"');
    reveal_strlit("'");
    assert("'"@.len() == 1 && "'"@[0] == '\'');
    reveal_strlit("");
    assert(""@.len() == 0);
    reveal_strlit(" at ");
    assert(" at "@.len() == 4 && " at "@[0] == ' ' && " at "@[1] == 'a' && " at "@[2] == 't' && " at "@[3] == ' ');
    reveal_strlit("for example, ");
    assert("for example, "@.len() == 13 && "for example, "@[0] == 'f' && "for example, "@[1] == 'o' && "for example, "@[2] == 'r' && "for example, "@[3] == ' ' && "for example, "@[4] == 'e' && "for example, "@[5] == 'x' && "for example, "@[6] == 'a' && "for example, "@[7] == 'm' && "for example, "@[8] == 'p' && "for example, "@[9] == 'l' && "for example, "@[10] == 'e' && "for example, "@[11] == ',' && "for example, "@[12] == ' ');
    reveal_strlit("that is, ");
    assert("that is, "@.len() == 9 && "that is, "@[0] == 't' && "that is, "@[1] == 'h' && "that is, "@[2] == 'a' && "that is, "@[3] == 't' && "that is, "@[4] == ' ' && "that is, "@[5] == 'i' && "that is, "@[6] == 's' && "that is, "@[7] == ',' && "that is, "@[8] == ' ');
    reveal_strlit(",");
    assert(","@.len() == 1 && ","@[0] == ',');
    reveal_strlit(".");
    assert("."@.len() == 1 && "."@[0] == '.');
    reveal_strlit("!");
    assert("!"@.len() == 1 && "!"@[0] == '!');
    reveal_strlit("?");
    assert("?"@.len() == 1 && "?"@[0] == '?');
    reveal_strlit(";");
    assert(";"@.len() == 1 && ";"@[0] == ';');
    reveal_strlit(":");
    assert(":"@.len() == 1 && ":"@[0] == ':');
    let tbl = replacement_table();
    assert forall|k: int| 0 <= k < tbl.len() implies emoji_free(#[trigger] tbl[k].1) by {
        let t = tbl[k].1;
        assert forall|j: int| 0 <= j < t.len() implies !is_emoji(#[trigger] t[j]) by {
            assert((t[j] as u32) < 0x80);
        }
    }
}

proof fn lemma_collapse_repeats_free(s: Seq<char>, c: char)
    requires
        emoji_free(s),
    ensures
        emoji_free(collapse_repeats(s, c)),
    decreases s.len(),
{
    if s.len() > 0 {
        let prev = s.drop_last();
        assert forall|k: int| 0 <= k < prev.len() implies !is_emoji(#[trigger] prev[k]) by {
            assert(prev[k] == s[k]);
        }
        lemma_collapse_repeats_free(prev, c);
        let p = collapse_repeats(prev, c);
        assert(!is_emoji(s[s.len() - 1]));
        assert forall|k: int| 0 <= k < p.push(s.last()).len() implies !is_emoji(
            #[trigger] p.push(s.last())[k],
        ) by {
            if k < p.len() {
                assert(p.push(s.last())[k] == p[k]);
            }
        }
    }
}

proof fn lemma_collapse_white_space_free(s: Seq<char>)
    requires
        emoji_free(s),
    ensures
        emoji_free(collapse_white_space(s)),
    decreases s.len(),
{
    if s.len() > 0 {
        let prev = s.drop_last();
        assert forall|k: int| 0 <= k < prev.len() implies !is_emoji(#[trigger] prev[k]) by {
            assert(prev[k] == s[k]);
        }
        lemma_collapse_white_space_free(prev);
        let p = collapse_white_space(prev);
        assert(!is_emoji(s[s.len() - 1]));
        assert forall|k: int| 0 <= k < p.push(' ').len() implies !is_emoji(#[trigger] p.push(' ')[k]) by {
            if k < p.len() {
                assert(p.push(' ')[k] == p[k]);
            }
        }
        assert forall|k: int| 0 <= k < p.push(s.last()).len() implies !is_emoji(
            #[trigger] p.push(s.last())[k],
        ) by {
            if k < p.len() {
                assert(p.push(s.last())[k] == p[k]);
            }
        }
    }
}

/// The text read aloud holds no character of the emoji and symbol blocks:
/// emoticons, miscellaneous symbols and pictographs, transport and map
/// symbols, alchemical symbols, geometric shapes, supplemental arrows,
/// supplemental symbols and pictographs, chess symbols, symbols and
/// pictographs extended, miscellaneous symbols, dingbats and regional
/// indicators, whatever the input.
pub proof fn lemma_clean_text_has_no_emoji(s: Seq<char>)
    ensures
        forall|k: int| 0 <= k < clean_text(s).len() ==> {
            let u = #[trigger] clean_text(s)[k] as u32;
            &&& !(0x1F600 <= u <= 0x1F64F)
            &&& !(0x1F300 <= u <= 0x1F5FF)
            &&& !(0x1F680 <= u <= 0x1F6FF)
            &&& !(0x1F700 <= u <= 0x1F77F)
            &&& !(0x1F780 <= u <= 0x1F7FF)
            &&& !(0x1F800 <= u <= 0x1F8FF)
            &&& !(0x1F900 <= u <= 0x1F9FF)
            &&& !(0x1FA00 <= u <= 0x1FA6F)
            &&& !(0x1FA70 <= u <= 0x1FAFF)
            &&& !(0x2600 <= u <= 0x26FF)
            &&& !(0x2700 <= u <= 0x27BF)
            &&& !(0x1F1E6 <= u <= 0x1F1FF)
        },
{
    lemma_remove_emoji_free(s);
    lemma_replacements_free();
    lemma_apply_table_free(remove_emoji(s), replacement_table());
    let t0 = apply_table(remove_emoji(s), replacement_table());
    lemma_collapse_repeats_free(t0, '"');
    let t1 = collapse_repeats(t0, '"');
    lemma_collapse_repeats_free(t1, '\'');
    let t2 = collapse_repeats(t1, '\'');
    lemma_collapse_repeats_free(t2, '`');
    let t3 = collapse_repeats(t2, '`');
    lemma_collapse_white_space_free(t3);
    let w = collapse_white_space(t3);
    lemma_trim_shape(w);
    let t = trim(w);
    let (a, b) = choose|a: int, b: int| 0 <= a <= b <= w.len() && trim(w) == w.subrange(a, b);
    assert forall|k: int| 0 <= k < t.len() implies !is_emoji(#[trigger] t[k]) by {
        assert(t[k] == w[a + k]);
    }
    let r = clean_text(s);
    assert forall|k: int| 0 <= k < r.len() implies !is_emoji(#[trigger] r[k]) by {
        if k < t.len() {
            assert(r[k] == t[k]);
        }
    }
}
} // verus!
