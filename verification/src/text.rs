//! Character-level building blocks: the two Unicode character classes the
//! library relies on, conversions between `str` and character vectors, and
//! trimming, splitting and UTF-8 lengths over character sequences.
use vstd::prelude::*;
use vstd::utf8::{encode_utf8, encode_scalar, char_is_scalar};

verus! {

/// The Unicode `White_Space` property of a character: tab, line feed,
/// vertical tab, form feed, carriage return, space, next line, no-break space,
/// ogham space mark, the spaces from en quad to hair space, line and
/// paragraph separators, narrow no-break space, medium mathematical space and
/// ideographic space. This is the class that `char::is_whitespace` and the
/// `\s` of regular expressions test.
pub open spec fn is_white_space(c: char) -> bool {
    let u = c as u32;
    ||| 0x9 <= u <= 0xD
    ||| u == 0x20 || u == 0x85 || u == 0xA0 || u == 0x1680
    ||| 0x2000 <= u <= 0x200A
    ||| u == 0x2028 || u == 0x2029 || u == 0x202F || u == 0x205F || u == 0x3000
}

/// The Unicode `Alphabetic` or `Numeric` property of a character.
pub uninterp spec fn is_alphanumeric(c: char) -> bool;

/// Whether a character has the `White_Space` property.
pub fn char_is_whitespace(c: char) -> (r: bool)
    ensures
        r == is_white_space(c),
{
    let u = c as u32;
    (0x9 <= u && u <= 0xD) || u == 0x20 || u == 0x85 || u == 0xA0 || u == 0x1680 || (0x2000
        <= u && u <= 0x200A) || u == 0x2028 || u == 0x2029 || u == 0x202F || u == 0x205F || u
        == 0x3000
}

/// Calls `char::is_alphanumeric` (alphabetic or numeric); the result is named
/// `is_alphanumeric(c)` and nothing more is claimed.
#[verifier::external_body]
pub(crate) fn char_is_alphanumeric(c: char) -> (r: bool)
    ensures
        r == is_alphanumeric(c),
{
    c.is_alphanumeric()
}

/// Calls `String::push`, which appends one character to the string.
#[verifier::external_body]
pub(crate) fn string_push(s: &mut String, c: char)
    ensures
        final(s)@ == old(s)@.push(c),
{
    s.push(c)
}

/// The characters of a string slice, in order.
pub fn chars_of(s: &str) -> (v: Vec<char>)
    ensures
        v@ == s@,
{
    let mut v: Vec<char> = Vec::new();
    for c in it: s.chars()
        invariant
            v@ == it.seq().take(it.index() as int),
    {
        v.push(c);
    }
    v
}

/// A string made of the given characters.
pub fn string_of(v: &[char]) -> (s: String)
    ensures
        s@ == v@,
{
    let mut s = String::new();
    let mut i: usize = 0;
    while i < v.len()
        invariant
            i <= v@.len(),
            s@ == v@.take(i as int),
        decreases v@.len() - i,
    {
        string_push(&mut s, v[i]);
        i = i + 1;
        assert(s@ =~= v@.take(i as int));
    }
    assert(v@.take(v@.len() as int) =~= v@);
    s
}

/// The characters `v[a..b]` as a new vector.
pub fn copy_range(v: &[char], a: usize, b: usize) -> (r: Vec<char>)
    requires
        a <= b <= v@.len(),
    ensures
        r@ == v@.subrange(a as int, b as int),
{
    let mut r: Vec<char> = Vec::new();
    let mut i: usize = a;
    while i < b
        invariant
            a <= i <= b <= v@.len(),
            r@ == v@.subrange(a as int, i as int),
        decreases b - i,
    {
        r.push(v[i]);
        i = i + 1;
        assert(r@ =~= v@.subrange(a as int, i as int));
    }
    r
}

/// Appends the characters of `src` to `dst`.
pub fn append_chars(dst: &mut Vec<char>, src: &[char])
    ensures
        final(dst)@ == old(dst)@ + src@,
{
    let mut i: usize = 0;
    while i < src.len()
        invariant
            i <= src@.len(),
            dst@ == old(dst)@ + src@.take(i as int),
        decreases src@.len() - i,
    {
        dst.push(src[i]);
        i = i + 1;
        assert(dst@ =~= old(dst)@ + src@.take(i as int));
    }
    assert(src@.take(src@.len() as int) =~= src@);
}

/// Whether two character sequences are equal.
pub fn chars_eq(a: &[char], b: &[char]) -> (r: bool)
    ensures
        r == (a@ == b@),
{
    if a.len() != b.len() {
        return false;
    }
    let mut i: usize = 0;
    while i < a.len()
        invariant
            a@.len() == b@.len(),
            i <= a@.len(),
            forall|k: int| 0 <= k < i ==> a@[k] == b@[k],
        decreases a@.len() - i,
    {
        if a[i] != b[i] {
            return false;
        }
        i = i + 1;
    }
    assert(a@ =~= b@);
    true
}

/// Whether the characters of a string slice equal the given sequence.
pub fn str_eq_chars(s: &str, b: &[char]) -> (r: bool)
    ensures
        r == (s@ == b@),
{
    let a = chars_of(s);
    chars_eq(a.as_slice(), b)
}

/// Whether two string slices hold the same characters.
pub fn str_eq(s: &str, t: &str) -> (r: bool)
    ensures
        r == (s@ == t@),
{
    let b = chars_of(t);
    str_eq_chars(s, b.as_slice())
}

/// `s` with leading whitespace removed.
pub open spec fn trim_start(s: Seq<char>) -> Seq<char>
    decreases s.len(),
{
    if s.len() > 0 && is_white_space(s[0]) {
        trim_start(s.drop_first())
    } else {
        s
    }
}

/// `s` with trailing whitespace removed.
pub open spec fn trim_end(s: Seq<char>) -> Seq<char>
    decreases s.len(),
{
    if s.len() > 0 && is_white_space(s.last()) {
        trim_end(s.drop_last())
    } else {
        s
    }
}

/// `s` with leading and trailing whitespace removed, as `str::trim` does.
pub open spec fn trim(s: Seq<char>) -> Seq<char> {
    trim_end(trim_start(s))
}

/// The characters of `v` without leading and trailing whitespace.
pub fn trim_chars(v: &[char]) -> (r: Vec<char>)
    ensures
        r@ == trim(v@),
{
    let n = v.len();
    let mut i: usize = 0;
    assert(v@.subrange(0, n as int) =~= v@);
    while i < n && char_is_whitespace(v[i])
        invariant
            i <= n == v@.len(),
            trim_start(v@.subrange(i as int, n as int)) == trim_start(v@),
        decreases n - i,
    {
        assert(v@.subrange(i as int, n as int).drop_first() =~= v@.subrange(i + 1, n as int));
        i = i + 1;
    }
    let ghost start = v@.subrange(i as int, n as int);
    assert(trim_start(start) == start);
    let mut j: usize = n;
    while j > i && char_is_whitespace(v[j - 1])
        invariant
            i <= j <= n == v@.len(),
            start == v@.subrange(i as int, n as int),
            trim_end(v@.subrange(i as int, j as int)) == trim_end(start),
        decreases j - i,
    {
        assert(v@.subrange(i as int, j as int).drop_last() =~= v@.subrange(i as int, j - 1));
        j = j - 1;
    }
    assert(trim_end(v@.subrange(i as int, j as int)) == v@.subrange(i as int, j as int));
    copy_range(v, i, j)
}

/// Whether a sequence holds only whitespace (the empty sequence does).
pub open spec fn all_white_space(s: Seq<char>) -> bool {
    forall|k: int| 0 <= k < s.len() ==> is_white_space(#[trigger] s[k])
}

/// Trimming leaves nothing exactly when every character is whitespace.
pub proof fn lemma_trim_empty_iff(s: Seq<char>)
    ensures
        (trim(s).len() == 0) == all_white_space(s),
    decreases s.len(),
{
    lemma_trim_start_empty_iff(s);
    lemma_trim_end_empty_iff(trim_start(s));
}

proof fn lemma_trim_start_empty_iff(s: Seq<char>)
    ensures
        (trim_start(s).len() == 0) == all_white_space(s),
        trim_start(s).len() > 0 ==> !is_white_space(trim_start(s)[0]),
    decreases s.len(),
{
    if s.len() > 0 && is_white_space(s[0]) {
        lemma_trim_start_empty_iff(s.drop_first());
        if all_white_space(s.drop_first()) {
            assert forall|k: int| 0 <= k < s.len() implies is_white_space(#[trigger] s[k]) by {
                if k > 0 {
                    assert(s[k] == s.drop_first()[k - 1]);
                }
            }
        } else {
            let k = choose|k: int| 0 <= k < s.drop_first().len() && !is_white_space(#[trigger] s.drop_first()[k]);
            assert(s[k + 1] == s.drop_first()[k]);
        }
    }
}

proof fn lemma_trim_end_empty_iff(s: Seq<char>)
    ensures
        trim_end(s).len() == 0 <==> all_white_space(s),
    decreases s.len(),
{
    if s.len() > 0 && is_white_space(s.last()) {
        lemma_trim_end_empty_iff(s.drop_last());
        if all_white_space(s.drop_last()) {
            assert forall|k: int| 0 <= k < s.len() implies is_white_space(#[trigger] s[k]) by {
                if k < s.len() - 1 {
                    assert(s[k] == s.drop_last()[k]);
                }
            }
        } else {
            let k = choose|k: int| 0 <= k < s.drop_last().len() && !is_white_space(#[trigger] s.drop_last()[k]);
            assert(s[k] == s.drop_last()[k]);
        }
    } else if s.len() > 0 {
        assert(!is_white_space(s[s.len() - 1]));
    }
}

/// The number of bytes of the UTF-8 encoding of `s`, which is what `str::len` reports.
pub open spec fn utf8_len(s: Seq<char>) -> nat {
    encode_utf8(s).len()
}

/// The UTF-8 width of one character, by code point range.
pub open spec fn char_utf8_len(c: char) -> nat {
    if (c as u32) < 0x80 {
        1
    } else if (c as u32) < 0x800 {
        2
    } else if (c as u32) < 0x10000 {
        3
    } else {
        4
    }
}

proof fn lemma_char_utf8_len(c: char)
    ensures
        encode_scalar(c as u32).len() == char_utf8_len(c),
{
    char_is_scalar(c);
}

/// The UTF-8 length of a sequence is the sum of its characters' widths.
pub proof fn lemma_utf8_len_push(s: Seq<char>, c: char)
    ensures
        utf8_len(s.push(c)) == utf8_len(s) + char_utf8_len(c),
    decreases s.len(),
{
    lemma_char_utf8_len(c);
    if s.len() == 0 {
        assert(s.push(c).drop_first() =~= Seq::<char>::empty());
        assert(encode_utf8(Seq::<char>::empty()) =~= Seq::<u8>::empty());
        assert(encode_utf8(s.push(c)) =~= encode_scalar(c as u32) + encode_utf8(Seq::<char>::empty()));
    } else {
        assert(s.push(c).drop_first() =~= s.drop_first().push(c));
        lemma_utf8_len_push(s.drop_first(), c);
        assert(s.push(c)[0] == s[0]);
    }
}

/// UTF-8 length is additive over concatenation.
pub proof fn lemma_utf8_len_concat(a: Seq<char>, b: Seq<char>)
    ensures
        utf8_len(a + b) == utf8_len(a) + utf8_len(b),
    decreases b.len(),
{
    if b.len() == 0 {
        assert(a + b =~= a);
        assert(encode_utf8(b) =~= Seq::<u8>::empty());
    } else {
        lemma_utf8_len_concat(a, b.drop_last());
        assert(a + b =~= (a + b.drop_last()).push(b.last()));
        assert(b =~= b.drop_last().push(b.last()));
        lemma_utf8_len_push(a + b.drop_last(), b.last());
        lemma_utf8_len_push(b.drop_last(), b.last());
    }
}

/// The UTF-8 width of one character.
pub fn char_width(c: char) -> (w: u128)
    ensures
        w == char_utf8_len(c),
{
    let u = c as u32;
    if u < 0x80 {
        1
    } else if u < 0x800 {
        2
    } else if u < 0x10000 {
        3
    } else {
        4
    }
}

/// The UTF-8 length in bytes of the given characters.
pub fn utf8_len_of(v: &[char]) -> (n: u128)
    ensures
        n == utf8_len(v@),
        n <= 4 * v@.len(),
        n <= 4 * usize::MAX,
{
    let mut n: u128 = 0;
    let mut i: usize = 0;
    assert(v@.take(0) =~= Seq::<char>::empty());
    assert(encode_utf8(Seq::<char>::empty()) =~= Seq::<u8>::empty());
    while i < v.len()
        invariant
            i <= v@.len(),
            n == utf8_len(v@.take(i as int)),
            n <= 4 * i,
        decreases v@.len() - i,
    {
        proof {
            assert(v@.take(i + 1) =~= v@.take(i as int).push(v@[i as int]));
            lemma_utf8_len_push(v@.take(i as int), v@[i as int]);
        }
        n = n + char_width(v[i]);
        i = i + 1;
    }
    assert(v@.take(v@.len() as int) =~= v@);
    n
}

/// The views of a sequence of character vectors.
pub open spec fn seqs_of(v: Seq<Vec<char>>) -> Seq<Seq<char>> {
    v.map_values(|x: Vec<char>| x@)
}

/// Pushing a vector pushes its view.
pub proof fn lemma_seqs_of_push(v: Seq<Vec<char>>, x: Vec<char>)
    ensures
        seqs_of(v.push(x)) == seqs_of(v).push(x@),
{
    assert(seqs_of(v.push(x)) =~= seqs_of(v).push(x@));
}

/// The views of a sequence of strings.
pub open spec fn strings_of(v: Seq<String>) -> Seq<Seq<char>> {
    v.map_values(|x: String| x@)
}

/// Pushing a string pushes its view.
pub proof fn lemma_strings_of_push(v: Seq<String>, x: String)
    ensures
        strings_of(v.push(x)) == strings_of(v).push(x@),
{
    assert(strings_of(v.push(x)) =~= strings_of(v).push(x@));
}

/// Pieces of `s` before the last separator, and the piece being read.
pub open spec fn split_state(s: Seq<char>, sep: char) -> (Seq<Seq<char>>, Seq<char>)
    decreases s.len(),
{
    if s.len() == 0 {
        (Seq::empty(), Seq::empty())
    } else {
        let (done, cur) = split_state(s.drop_last(), sep);
        if s.last() == sep {
            (done.push(cur), Seq::empty())
        } else {
            (done, cur.push(s.last()))
        }
    }
}

/// The pieces of `s` between occurrences of `sep`, empty pieces included, as
/// `str::split` with a character pattern yields them.
pub open spec fn split_on(s: Seq<char>, sep: char) -> Seq<Seq<char>> {
    split_state(s, sep).0.push(split_state(s, sep).1)
}

/// Splits the characters at every occurrence of `sep`.
pub fn split_on_char(v: &[char], sep: char) -> (r: Vec<Vec<char>>)
    ensures
        seqs_of(r@) == split_on(v@, sep),
{
    let mut done: Vec<Vec<char>> = Vec::new();
    let mut cur: Vec<char> = Vec::new();
    let mut i: usize = 0;
    assert(v@.take(0) =~= Seq::<char>::empty());
    while i < v.len()
        invariant
            i <= v@.len(),
            (seqs_of(done@), cur@) == split_state(v@.take(i as int), sep),
        decreases v@.len() - i,
    {
        assert(v@.take(i + 1).drop_last() =~= v@.take(i as int));
        let c = v[i];
        if c == sep {
            let piece = cur;
            cur = Vec::new();
            proof { lemma_seqs_of_push(done@, piece); }
            done.push(piece);
        } else {
            cur.push(c);
        }
        i = i + 1;
    }
    assert(v@.take(v@.len() as int) =~= v@);
    proof { lemma_seqs_of_push(done@, cur); }
    done.push(cur);
    done
}

/// Words found so far in `s`, and the word being read.
pub open spec fn words_state(s: Seq<char>) -> (Seq<Seq<char>>, Seq<char>)
    decreases s.len(),
{
    if s.len() == 0 {
        (Seq::empty(), Seq::empty())
    } else {
        let (done, cur) = words_state(s.drop_last());
        if is_white_space(s.last()) {
            if cur.len() > 0 {
                (done.push(cur), Seq::empty())
            } else {
                (done, cur)
            }
        } else {
            (done, cur.push(s.last()))
        }
    }
}

/// The maximal runs of non-whitespace characters of `s`, as
/// `str::split_whitespace` yields them.
pub open spec fn split_words(s: Seq<char>) -> Seq<Seq<char>> {
    let (done, cur) = words_state(s);
    if cur.len() > 0 {
        done.push(cur)
    } else {
        done
    }
}

/// Splits the characters into words separated by whitespace.
pub fn split_whitespace_chars(v: &[char]) -> (r: Vec<Vec<char>>)
    ensures
        seqs_of(r@) == split_words(v@),
{
    let mut done: Vec<Vec<char>> = Vec::new();
    let mut cur: Vec<char> = Vec::new();
    let mut i: usize = 0;
    assert(v@.take(0) =~= Seq::<char>::empty());
    while i < v.len()
        invariant
            i <= v@.len(),
            (seqs_of(done@), cur@) == words_state(v@.take(i as int)),
        decreases v@.len() - i,
    {
        assert(v@.take(i + 1).drop_last() =~= v@.take(i as int));
        let c = v[i];
        if char_is_whitespace(c) {
            if cur.len() > 0 {
                let piece = cur;
                cur = Vec::new();
                proof { lemma_seqs_of_push(done@, piece); }
                done.push(piece);
            }
        } else {
            cur.push(c);
        }
        i = i + 1;
    }
    assert(v@.take(v@.len() as int) =~= v@);
    if cur.len() > 0 {
        proof { lemma_seqs_of_push(done@, cur); }
        done.push(cur);
    }
    done
}

/// Whether `s` ends with `suffix`.
pub open spec fn ends_with(s: Seq<char>, suffix: Seq<char>) -> bool {
    suffix.len() <= s.len() && s.subrange(s.len() - suffix.len(), s.len() as int) == suffix
}

/// Whether the characters end with the given suffix.
pub fn ends_with_chars(s: &[char], suffix: &[char]) -> (r: bool)
    ensures
        r == ends_with(s@, suffix@),
{
    if suffix.len() > s.len() {
        return false;
    }
    let off = s.len() - suffix.len();
    let mut i: usize = 0;
    while i < suffix.len()
        invariant
            off + suffix@.len() == s@.len(),
            s@.len() <= usize::MAX,
            i <= suffix@.len(),
            forall|k: int| 0 <= k < i ==> s@[off + k] == suffix@[k],
        decreases suffix@.len() - i,
    {
        assert(off + i < s@.len());
        if s[off + i] != suffix[i] {
            assert(s@.subrange(off as int, s@.len() as int)[i as int] != suffix@[i as int]);
            return false;
        }
        i = i + 1;
    }
    assert(s@.subrange(off as int, s@.len() as int) =~= suffix@);
    true
}

/// Whether no character of `s` is whitespace.
pub open spec fn no_white_space(s: Seq<char>) -> bool {
    forall|k: int| 0 <= k < s.len() ==> !is_white_space(#[trigger] s[k])
}

/// Trimming removes a prefix of whitespace.
pub proof fn lemma_trim_start_suffix(s: Seq<char>)
    ensures
        trim_start(s).len() <= s.len(),
        trim_start(s) == s.skip(s.len() - trim_start(s).len()),
        trim_start(s).len() > 0 ==> !is_white_space(trim_start(s)[0]),
    decreases s.len(),
{
    if s.len() > 0 && is_white_space(s[0]) {
        lemma_trim_start_suffix(s.drop_first());
        assert(s.drop_first().skip(s.drop_first().len() - trim_start(s).len()) =~= s.skip(
            s.len() - trim_start(s).len(),
        ));
    } else {
        assert(s.skip(0) =~= s);
    }
}

/// Trimming removes a suffix of whitespace.
pub proof fn lemma_trim_end_prefix(s: Seq<char>)
    ensures
        trim_end(s).len() <= s.len(),
        trim_end(s) == s.take(trim_end(s).len() as int),
        trim_end(s).len() > 0 ==> !is_white_space(trim_end(s).last()),
    decreases s.len(),
{
    if s.len() > 0 && is_white_space(s.last()) {
        lemma_trim_end_prefix(s.drop_last());
        assert(s.drop_last().take(trim_end(s).len() as int) =~= s.take(trim_end(s).len() as int));
    } else {
        assert(s.take(s.len() as int) =~= s);
    }
}

/// A trimmed text is a piece of the text that neither starts nor ends with whitespace.
pub proof fn lemma_trim_shape(s: Seq<char>)
    ensures
        exists|a: int, b: int| 0 <= a <= b <= s.len() && trim(s) == s.subrange(a, b),
        trim(s).len() > 0 ==> !is_white_space(trim(s)[0]) && !is_white_space(trim(s).last()),
{
    lemma_trim_start_suffix(s);
    let t = trim_start(s);
    lemma_trim_end_prefix(t);
    let a = s.len() - t.len();
    let b = a + trim_end(t).len();
    assert(trim(s) =~= s.subrange(a, b));
    if trim(s).len() > 0 {
        assert(trim(s)[0] == t[0]);
    }
}

/// A text that neither starts nor ends with whitespace is its own trim.
pub proof fn lemma_trim_fixed(s: Seq<char>)
    requires
        s.len() > 0 ==> !is_white_space(s[0]) && !is_white_space(s.last()),
    ensures
        trim(s) == s,
{
}

/// Trimming twice is trimming once.
pub proof fn lemma_trim_idempotent(s: Seq<char>)
    ensures
        trim(trim(s)) == trim(s),
{
    lemma_trim_shape(s);
    lemma_trim_fixed(trim(s));
}

/// The words of a text are not empty and hold no whitespace.
pub proof fn lemma_split_words(s: Seq<char>)
    ensures
        forall|k: int| 0 <= k < split_words(s).len() ==> (#[trigger] split_words(s)[k]).len() > 0
            && no_white_space(split_words(s)[k]),
{
    lemma_words_state(s);
}

proof fn lemma_words_state(s: Seq<char>)
    ensures
        forall|k: int| 0 <= k < words_state(s).0.len() ==> (#[trigger] words_state(s).0[k]).len() > 0
            && no_white_space(words_state(s).0[k]),
        no_white_space(words_state(s).1),
    decreases s.len(),
{
    if s.len() > 0 {
        lemma_words_state(s.drop_last());
        let (done, cur) = words_state(s.drop_last());
        if !is_white_space(s.last()) {
            assert forall|k: int| 0 <= k < cur.push(s.last()).len() implies !is_white_space(
                #[trigger] cur.push(s.last())[k],
            ) by {
                if k < cur.len() {
                    assert(cur.push(s.last())[k] == cur[k]);
                }
            }
        }
    }
}

} // verus!
