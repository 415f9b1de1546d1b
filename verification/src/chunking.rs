//! Splitting long text into chunks that the synthesizer handles one at a
//! time: paragraphs at blank lines, sentences after `.`, `!` or `?`, then
//! clauses at commas and finally words.
use vstd::prelude::*;
use crate::text::{
    is_white_space, char_is_whitespace, seqs_of, lemma_seqs_of_push, copy_range, append_chars,
    trim, trim_chars, ends_with, ends_with_chars, chars_of, utf8_len, utf8_len_of,
    lemma_utf8_len_concat, lemma_utf8_len_push, split_on, split_on_char, split_words,
    split_whitespace_chars, string_of, strings_of, lemma_strings_of_push, no_white_space,
    lemma_trim_shape, lemma_trim_fixed, lemma_split_words, trim_start,
    trim_end, split_state, words_state,
};
use vstd::utf8::encode_utf8;

verus! {

/// Number of line feeds in `s`.
pub open spec fn nl_count(s: Seq<char>) -> nat
    decreases s.len(),
{
    if s.len() == 0 {
        0
    } else {
        nl_count(s.drop_last()) + if s.last() == '\n' { 1nat } else { 0nat }
    }
}

/// Index of the first line feed in `s`, or -1.
pub open spec fn first_nl(s: Seq<char>) -> int
    decreases s.len(),
{
    if s.len() == 0 {
        -1
    } else if first_nl(s.drop_last()) >= 0 {
        first_nl(s.drop_last())
    } else if s.last() == '\n' {
        s.len() - 1
    } else {
        -1
    }
}

/// Index of the last line feed in `s`, or -1.
pub open spec fn last_nl(s: Seq<char>) -> int
    decreases s.len(),
{
    if s.len() == 0 {
        -1
    } else if s.last() == '\n' {
        s.len() - 1
    } else {
        last_nl(s.drop_last())
    }
}

/// One character of paragraph splitting. The state holds the finished
/// paragraphs, the paragraph being read and the run of whitespace that
/// follows it. A whitespace run that holds two or more line feeds separates
/// paragraphs; the separator runs from its first to its last line feed, and
/// the whitespace around those stays with the paragraphs on either side.
pub open spec fn para_step(
    st: (Seq<Seq<char>>, Seq<char>, Seq<char>),
    c: char,
) -> (Seq<Seq<char>>, Seq<char>, Seq<char>) {
    let (done, cur, pending) = st;
    if is_white_space(c) {
        (done, cur, pending.push(c))
    } else if nl_count(pending) >= 2 {
        (
            done.push(cur + pending.take(first_nl(pending))),
            pending.skip(last_nl(pending) + 1).push(c),
            Seq::empty(),
        )
    } else {
        (done, (cur + pending).push(c), Seq::empty())
    }
}

/// The paragraph-splitting state after reading all of `s`.
pub open spec fn para_state(s: Seq<char>) -> (Seq<Seq<char>>, Seq<char>, Seq<char>)
    decreases s.len(),
{
    if s.len() == 0 {
        (Seq::empty(), Seq::empty(), Seq::empty())
    } else {
        para_step(para_state(s.drop_last()), s.last())
    }
}

/// The pieces of `s` between blank-line separators (a line feed, then any
/// whitespace, then a line feed), empty pieces included.
pub open spec fn paragraphs(s: Seq<char>) -> Seq<Seq<char>> {
    let (done, cur, pending) = para_state(s);
    if nl_count(pending) >= 2 {
        done.push(cur + pending.take(first_nl(pending))).push(
            pending.skip(last_nl(pending) + 1),
        )
    } else {
        done.push(cur + pending)
    }
}

/// Splits text into paragraphs at blank lines.
pub fn split_paragraphs(v: &[char]) -> (r: Vec<Vec<char>>)
    ensures
        seqs_of(r@) == paragraphs(v@),
{
    let mut done: Vec<Vec<char>> = Vec::new();
    let mut cur: Vec<char> = Vec::new();
    let mut pending: Vec<char> = Vec::new();
    let mut nlc: usize = 0;
    let mut fnl: usize = 0;
    let mut lnl: usize = 0;
    let mut i: usize = 0;
    assert(v@.take(0) =~= Seq::<char>::empty());
    while i < v.len()
        invariant
            i <= v@.len(),
            (seqs_of(done@), cur@, pending@) == para_state(v@.take(i as int)),
            nlc == nl_count(pending@),
            nlc <= pending@.len() <= i,
            nlc > 0 ==> fnl == first_nl(pending@) && lnl == last_nl(pending@) && fnl <= lnl
                < pending@.len(),
            nlc == 0 ==> first_nl(pending@) == -1 && last_nl(pending@) == -1,
        decreases v@.len() - i,
    {
        assert(v@.take(i + 1).drop_last() =~= v@.take(i as int));
        let c = v[i];
        if char_is_whitespace(c) {
            let len = pending.len();
            let ghost before = pending@;
            if c == '\n' {
                if nlc == 0 {
                    fnl = len;
                }
                lnl = len;
                nlc = nlc + 1;
            }
            pending.push(c);
            assert(pending@.drop_last() =~= before);
        } else if nlc >= 2 {
            let head = copy_range(pending.as_slice(), 0, fnl);
            let mut piece = cur;
            append_chars(&mut piece, head.as_slice());
            assert(head@ =~= pending@.take(fnl as int));
            proof { lemma_seqs_of_push(done@, piece); }
            done.push(piece);
            cur = copy_range(pending.as_slice(), lnl + 1, pending.len());
            assert(cur@ =~= pending@.skip(lnl + 1));
            cur.push(c);
            pending = Vec::new();
            nlc = 0;
        } else {
            append_chars(&mut cur, pending.as_slice());
            cur.push(c);
            pending = Vec::new();
            nlc = 0;
        }
        i = i + 1;
    }
    assert(v@.take(v@.len() as int) =~= v@);
    if nlc >= 2 {
        let head = copy_range(pending.as_slice(), 0, fnl);
        let mut piece = cur;
        append_chars(&mut piece, head.as_slice());
        assert(head@ =~= pending@.take(fnl as int));
        proof { lemma_seqs_of_push(done@, piece); }
        done.push(piece);
        let tail = copy_range(pending.as_slice(), lnl + 1, pending.len());
        assert(tail@ =~= pending@.skip(lnl + 1));
        proof { lemma_seqs_of_push(done@, tail); }
        done.push(tail);
    } else {
        let mut piece = cur;
        append_chars(&mut piece, pending.as_slice());
        proof { lemma_seqs_of_push(done@, piece); }
        done.push(piece);
    }
    done
}

/// The characters after which a sentence may end.
pub open spec fn is_sentence_end(c: char) -> bool {
    c == '.' || c == '!' || c == '?'
}

/// The sentence breaks of `s`: each is `(start, end)` where `s[start]` ends a
/// sentence and `s[start + 1..end]` is the maximal run of whitespace after it.
pub open spec fn breaks(s: Seq<char>) -> Seq<(int, int)>
    decreases s.len(),
{
    if s.len() == 0 {
        Seq::empty()
    } else {
        let prev = breaks(s.drop_last());
        let k = s.len() - 1;
        if is_white_space(s.last()) {
            if prev.len() > 0 && prev.last().1 == k {
                prev.update(prev.len() - 1, (prev.last().0, k + 1))
            } else if k >= 1 && is_sentence_end(s[k - 1]) {
                prev.push((k - 1, k + 1))
            } else {
                prev
            }
        } else {
            prev
        }
    }
}

/// Breaks lie within `s`, in order, without overlap.
pub open spec fn breaks_wf(s: Seq<char>, b: Seq<(int, int)>) -> bool {
    &&& forall|k: int| 0 <= k < b.len() ==> 0 <= #[trigger] b[k].0 < b[k].1 <= s.len()
    &&& forall|k: int, j: int| 0 <= k < j < b.len() ==> #[trigger] b[k].1 <= #[trigger] b[j].0
}

/// The breaks of any text are well formed.
pub proof fn lemma_breaks_wf(s: Seq<char>)
    ensures
        breaks_wf(s, breaks(s)),
        breaks(s).len() > 0 ==> breaks(s).last().1 <= s.len(),
    decreases s.len(),
{
    if s.len() > 0 {
        lemma_breaks_wf(s.drop_last());
        let prev = breaks(s.drop_last());
        let b = breaks(s);
        let k = s.len() - 1;
        if is_white_space(s.last()) && prev.len() > 0 && prev.last().1 == k {
            assert forall|i: int, j: int| 0 <= i < j < b.len() implies #[trigger] b[i].1
                <= #[trigger] b[j].0 by {
                assert(prev[i].1 <= prev[j].0);
            }
        } else if is_white_space(s.last()) && k >= 1 && is_sentence_end(s[k - 1]) {
            assert forall|i: int, j: int| 0 <= i < j < b.len() implies #[trigger] b[i].1
                <= #[trigger] b[j].0 by {
                if j == b.len() - 1 {
                    if i < prev.len() - 1 {
                        assert(prev[i].1 <= prev[prev.len() - 1].0);
                    }
                } else {
                    assert(prev[i].1 <= prev[j].0);
                }
            }
        }
    }
}

/// The abbreviations whose final period does not end a sentence.
pub open spec fn abbreviations() -> Seq<Seq<char>> {
    seq![
        "Dr."@, "Mr."@, "Mrs."@, "Ms."@, "Prof."@, "Sr."@, "Jr."@,
        "St."@, "Ave."@, "Rd."@, "Blvd."@, "Dept."@, "Inc."@, "Ltd."@,
        "Co."@, "Corp."@, "etc."@, "vs."@, "i.e."@, "e.g."@, "Ph.D."@,
    ]
}

/// Whether `s` ends with one of the abbreviations.
pub open spec fn ends_with_abbreviation(s: Seq<char>) -> bool {
    exists|k: int| 0 <= k < abbreviations().len() && ends_with(s, #[trigger] abbreviations()[k])
}

/// Whether the characters end with one of the abbreviations.
pub fn ends_with_abbreviation_chars(s: &[char]) -> (r: bool)
    ensures
        r == ends_with_abbreviation(s@),
{
    let abbrs: [&str; 21] = [
        "Dr.", "Mr.", "Mrs.", "Ms.", "Prof.", "Sr.", "Jr.",
        "St.", "Ave.", "Rd.", "Blvd.", "Dept.", "Inc.", "Ltd.",
        "Co.", "Corp.", "etc.", "vs.", "i.e.", "e.g.", "Ph.D.",
    ];
    assert(forall|k: int| 0 <= k < 21 ==> #[trigger] abbrs@[k]@ == abbreviations()[k]);
    let mut k: usize = 0;
    while k < 21
        invariant
            k <= 21,
            forall|j: int| 0 <= j < 21 ==> #[trigger] abbrs@[j]@ == abbreviations()[j],
            forall|j: int| 0 <= j < k ==> !ends_with(s@, #[trigger] abbreviations()[j]),
        decreases 21 - k,
    {
        let a = chars_of(abbrs[k]);
        if ends_with_chars(s, a.as_slice()) {
            return true;
        }
        k = k + 1;
    }
    false
}

/// Sentence splitting over the first breaks: the sentences so far and where
/// the next sentence starts. A break ends a sentence unless the text since the
/// previous sentence, trimmed and followed by the break's punctuation, ends
/// with an abbreviation.
pub open spec fn sentence_fold(s: Seq<char>, ms: Seq<(int, int)>) -> (Seq<Seq<char>>, int)
    decreases ms.len(),
{
    if ms.len() == 0 {
        (Seq::empty(), 0)
    } else {
        let (ss, last) = sentence_fold(s, ms.drop_last());
        let m = ms.last();
        if ends_with_abbreviation(trim(s.subrange(last, m.0)).push(s[m.0])) {
            (ss, last)
        } else {
            (ss.push(s.subrange(last, m.1)), m.1)
        }
    }
}

/// The sentences of `s`; each keeps its punctuation and the whitespace after it.
pub open spec fn sentences(s: Seq<char>) -> Seq<Seq<char>> {
    let (ss, last) = sentence_fold(s, breaks(s));
    let ss2 = if last < s.len() {
        ss.push(s.subrange(last, s.len() as int))
    } else {
        ss
    };
    if ss2.len() == 0 {
        seq![s]
    } else {
        ss2
    }
}

/// The concatenation of a sequence of pieces.
pub open spec fn concat_all(ss: Seq<Seq<char>>) -> Seq<char>
    decreases ss.len(),
{
    if ss.len() == 0 {
        Seq::empty()
    } else {
        concat_all(ss.drop_last()) + ss.last()
    }
}

/// The sentence fold over a prefix of the breaks covers `s` up to where it stopped.
proof fn lemma_sentence_fold(s: Seq<char>, j: int)
    requires
        breaks_wf(s, breaks(s)),
        0 <= j <= breaks(s).len(),
    ensures
        ({
            let (ss, last) = sentence_fold(s, breaks(s).take(j));
            &&& 0 <= last <= s.len()
            &&& j < breaks(s).len() ==> last <= breaks(s)[j].0
            &&& concat_all(ss) == s.subrange(0, last)
        }),
    decreases j,
{
    let b = breaks(s);
    if j == 0 {
        assert(b.take(0) =~= Seq::<(int, int)>::empty());
        assert(s.subrange(0, 0) =~= Seq::<char>::empty());
    } else {
        lemma_sentence_fold(s, j - 1);
        assert(b.take(j).drop_last() =~= b.take(j - 1));
        assert(b.take(j).last() == b[j - 1]);
        let (ss, last) = sentence_fold(s, b.take(j - 1));
        let m = b[j - 1];
        assert(0 <= m.0 < m.1 <= s.len());
        if j < b.len() {
            assert(b[j - 1].1 <= b[j].0);
        }
        if !ends_with_abbreviation(trim(s.subrange(last, m.0)).push(s[m.0])) {
            let piece = s.subrange(last, m.1);
            assert(ss.push(piece).drop_last() =~= ss);
            assert(s.subrange(0, last) + piece =~= s.subrange(0, m.1));
        }
    }
}

/// Splitting into sentences loses and adds nothing: the sentences concatenate
/// back to the text.
pub proof fn lemma_sentences_concat(s: Seq<char>)
    ensures
        concat_all(sentences(s)) == s,
{
    lemma_breaks_wf(s);
    let b = breaks(s);
    lemma_sentence_fold(s, b.len() as int);
    assert(b.take(b.len() as int) =~= b);
    let (ss, last) = sentence_fold(s, b);
    if last < s.len() {
        let rest = s.subrange(last, s.len() as int);
        assert(ss.push(rest).drop_last() =~= ss);
        assert(s.subrange(0, last) + rest =~= s);
    } else if ss.len() > 0 {
        assert(s.subrange(0, last) =~= s);
    } else {
        assert(seq![s].drop_last() =~= Seq::<Seq<char>>::empty());
        assert(Seq::<char>::empty() + s =~= s);
    }
}

/// The sentence breaks of the characters, as `(start, end)` pairs.
pub fn find_breaks(v: &[char]) -> (r: Vec<(usize, usize)>)
    ensures
        r@.map_values(|p: (usize, usize)| (p.0 as int, p.1 as int)) == breaks(v@),
{
    let mut r: Vec<(usize, usize)> = Vec::new();
    let mut i: usize = 0;
    assert(v@.take(0) =~= Seq::<char>::empty());
    assert(r@.map_values(|p: (usize, usize)| (p.0 as int, p.1 as int)) =~= Seq::<(int, int)>::empty());
    while i < v.len()
        invariant
            i <= v@.len(),
            r@.map_values(|p: (usize, usize)| (p.0 as int, p.1 as int)) == breaks(v@.take(i as int)),
        decreases v@.len() - i,
    {
        let ghost t = v@.take(i + 1);
        assert(t.drop_last() =~= v@.take(i as int));
        let ghost before = r@;
        let c = v[i];
        if char_is_whitespace(c) {
            let n = r.len();
            if n > 0 && r[n - 1].1 == i {
                let start = r[n - 1].0;
                r.set(n - 1, (start, i + 1));
                assert(r@.map_values(|p: (usize, usize)| (p.0 as int, p.1 as int)) =~= breaks(t));
            } else if i >= 1 && (v[i - 1] == '.' || v[i - 1] == '!' || v[i - 1] == '?') {
                r.push((i - 1, i + 1));
                assert(r@.map_values(|p: (usize, usize)| (p.0 as int, p.1 as int)) =~= breaks(t));
            } else {
                assert(r@.map_values(|p: (usize, usize)| (p.0 as int, p.1 as int)) =~= breaks(t));
            }
        } else {
            assert(r@.map_values(|p: (usize, usize)| (p.0 as int, p.1 as int)) =~= breaks(t));
        }
        i = i + 1;
    }
    assert(v@.take(v@.len() as int) =~= v@);
    r
}

/// Splits text into sentences after `.`, `!` or `?` followed by whitespace,
/// except after the abbreviations.
pub fn split_sentences(v: &[char]) -> (r: Vec<Vec<char>>)
    ensures
        seqs_of(r@) == sentences(v@),
{
    let bs = find_breaks(v);
    let ghost b = breaks(v@);
    proof { lemma_breaks_wf(v@); }
    let mut out: Vec<Vec<char>> = Vec::new();
    let mut last: usize = 0;
    let mut j: usize = 0;
    assert(b.take(0) =~= Seq::<(int, int)>::empty());
    while j < bs.len()
        invariant
            bs@.map_values(|p: (usize, usize)| (p.0 as int, p.1 as int)) == b,
            b == breaks(v@),
            breaks_wf(v@, b),
            j <= bs@.len(),
            (seqs_of(out@), last as int) == sentence_fold(v@, b.take(j as int)),
        decreases bs@.len() - j,
    {
        proof { lemma_sentence_fold(v@, j as int); }
        assert(b.take(j + 1).drop_last() =~= b.take(j as int));
        let m = bs[j];
        assert(b[j as int] == (m.0 as int, m.1 as int));
        let before = copy_range(v, last, m.0);
        let mut combined = trim_chars(before.as_slice());
        combined.push(v[m.0]);
        if !ends_with_abbreviation_chars(combined.as_slice()) {
            let piece = copy_range(v, last, m.1);
            proof { lemma_seqs_of_push(out@, piece); }
            out.push(piece);
            last = m.1;
        }
        j = j + 1;
    }
    assert(b.take(bs@.len() as int) =~= b);
    proof { lemma_sentence_fold(v@, bs@.len() as int); }
    if last < v.len() {
        let piece = copy_range(v, last, v.len());
        proof { lemma_seqs_of_push(out@, piece); }
        out.push(piece);
    }
    if out.len() == 0 {
        let whole = copy_range(v, 0, v.len());
        assert(whole@ =~= v@);
        let mut single: Vec<Vec<char>> = Vec::new();
        proof { lemma_seqs_of_push(single@, whole); }
        single.push(whole);
        assert(seqs_of(Seq::<Vec<char>>::empty()) =~= Seq::<Seq<char>>::empty());
        return single;
    }
    out
}

/// Adds a piece to the chunk being built, after closing that chunk when the
/// piece and one separator byte would not fit within `max` bytes; `sep` joins
/// the piece to a chunk that is not empty.
pub open spec fn add_piece(
    st: (Seq<Seq<char>>, Seq<char>),
    piece: Seq<char>,
    max: int,
    sep: Seq<char>,
) -> (Seq<Seq<char>>, Seq<char>) {
    let (out, cur) = st;
    let (out2, cur2) = if utf8_len(cur) + utf8_len(piece) + 1 > max && cur.len() > 0 {
        (out.push(trim(cur)), Seq::<char>::empty())
    } else {
        (out, cur)
    };
    let cur3 = if cur2.len() > 0 {
        cur2 + sep
    } else {
        cur2
    };
    (out2, cur3 + piece)
}

/// The chunks with the chunk being built closed, if it is not empty.
pub open spec fn close_chunk(st: (Seq<Seq<char>>, Seq<char>)) -> Seq<Seq<char>> {
    if st.1.len() > 0 {
        st.0.push(trim(st.1))
    } else {
        st.0
    }
}

/// Packs words into chunks, joined by a space.
pub open spec fn words_fold(
    ws: Seq<Seq<char>>,
    max: int,
    st: (Seq<Seq<char>>, Seq<char>),
) -> (Seq<Seq<char>>, Seq<char>)
    decreases ws.len(),
{
    if ws.len() == 0 {
        st
    } else {
        add_piece(words_fold(ws.drop_last(), max, st), ws.last(), max, seq![' '])
    }
}

/// One comma-separated part of an over-long sentence: a part that fits is
/// packed into the chunk being built, joined by a comma and a space; a part
/// that does not fit is cut into chunks of words of its own.
pub open spec fn part_step(
    st: (Seq<Seq<char>>, Seq<char>),
    part: Seq<char>,
    max: int,
) -> (Seq<Seq<char>>, Seq<char>) {
    let p = trim(part);
    if p.len() == 0 {
        st
    } else if utf8_len(p) > max {
        (close_chunk(words_fold(split_words(p), max, (st.0, Seq::empty()))), st.1)
    } else {
        add_piece(st, p, max, seq![',', ' '])
    }
}

/// Packs the comma-separated parts of an over-long sentence.
pub open spec fn parts_fold(
    ps: Seq<Seq<char>>,
    max: int,
    st: (Seq<Seq<char>>, Seq<char>),
) -> (Seq<Seq<char>>, Seq<char>)
    decreases ps.len(),
{
    if ps.len() == 0 {
        st
    } else {
        part_step(parts_fold(ps.drop_last(), max, st), ps.last(), max)
    }
}

/// One sentence of a long paragraph: a sentence that fits is packed, joined
/// by a space; an over-long one closes the chunk being built and is packed
/// part by part.
pub open spec fn sentence_step(
    st: (Seq<Seq<char>>, Seq<char>),
    sentence: Seq<char>,
    max: int,
) -> (Seq<Seq<char>>, Seq<char>) {
    let t = trim(sentence);
    if t.len() == 0 {
        st
    } else if utf8_len(t) > max {
        parts_fold(split_on(t, ','), max, (close_chunk(st), Seq::empty()))
    } else {
        add_piece(st, t, max, seq![' '])
    }
}

/// Packs the sentences of a long paragraph.
pub open spec fn sentences_fold(
    ss: Seq<Seq<char>>,
    max: int,
    st: (Seq<Seq<char>>, Seq<char>),
) -> (Seq<Seq<char>>, Seq<char>)
    decreases ss.len(),
{
    if ss.len() == 0 {
        st
    } else {
        sentence_step(sentences_fold(ss.drop_last(), max, st), ss.last(), max)
    }
}

/// The chunks of one paragraph: none if it is blank, the trimmed paragraph if
/// it fits within `max` bytes, else its sentences packed.
pub open spec fn paragraph_chunks(p: Seq<char>, max: int) -> Seq<Seq<char>> {
    let t = trim(p);
    if t.len() == 0 {
        Seq::empty()
    } else if utf8_len(t) <= max {
        seq![t]
    } else {
        close_chunk(sentences_fold(sentences(t), max, (Seq::empty(), Seq::empty())))
    }
}

/// The chunks of a sequence of paragraphs, in order.
pub open spec fn paragraphs_fold(ps: Seq<Seq<char>>, max: int) -> Seq<Seq<char>>
    decreases ps.len(),
{
    if ps.len() == 0 {
        Seq::empty()
    } else {
        paragraphs_fold(ps.drop_last(), max) + paragraph_chunks(ps.last(), max)
    }
}

/// The chunks of a text for a limit of `max` bytes: a single empty chunk for
/// a blank text, else the chunks of its paragraphs.
pub open spec fn chunks(text: Seq<char>, max: int) -> Seq<Seq<char>> {
    let t = trim(text);
    let cs = paragraphs_fold(paragraphs(t), max);
    if t.len() == 0 || cs.len() == 0 {
        seq![Seq::empty()]
    } else {
        cs
    }
}

/// The limit used when none is given.
pub const MAX_CHUNK_LENGTH: usize = 300;

/// The separator that joins a piece to a chunk.
pub open spec fn separator(comma: bool) -> Seq<char> {
    if comma {
        seq![',', ' ']
    } else {
        seq![' ']
    }
}

proof fn lemma_separator_len(comma: bool)
    ensures
        utf8_len(separator(comma)) == if comma { 2int } else { 1int },
{
    assert(encode_utf8(Seq::<char>::empty()) =~= Seq::<u8>::empty());
    lemma_utf8_len_push(Seq::<char>::empty(), ',');
    lemma_utf8_len_push(Seq::<char>::empty(), ' ');
    assert(Seq::<char>::empty().push(' ') =~= seq![' ']);
    assert(Seq::<char>::empty().push(',') =~= seq![',']);
    lemma_utf8_len_push(seq![','], ' ');
    assert(seq![','].push(' ') =~= seq![',', ' ']);
}

/// Closes the chunk being built into `out`.
fn close_chunk_exec(out: &mut Vec<Vec<char>>, cur: &Vec<char>)
    ensures
        seqs_of(final(out)@) == close_chunk((seqs_of(old(out)@), cur@)),
{
    if cur.len() > 0 {
        let t = trim_chars(cur.as_slice());
        proof { lemma_seqs_of_push(out@, t); }
        out.push(t);
    }
}

/// Adds a piece to the chunk being built.
fn add_piece_exec(
    out: &mut Vec<Vec<char>>,
    cur: &mut Vec<char>,
    cur_len: &mut u128,
    piece: &[char],
    max: usize,
    comma: bool,
)
    requires
        *old(cur_len) == utf8_len(old(cur)@),
        *old(cur_len) <= 4 * usize::MAX,
    ensures
        (seqs_of(final(out)@), final(cur)@) == add_piece(
            (seqs_of(old(out)@), old(cur)@),
            piece@,
            max as int,
            separator(comma),
        ),
        *final(cur_len) == utf8_len(final(cur)@),
        *final(cur_len) <= 4 * usize::MAX,
{
    let piece_len = utf8_len_of(piece);
    assert(encode_utf8(Seq::<char>::empty()) =~= Seq::<u8>::empty());
    if *cur_len + piece_len + 1 > max as u128 && cur.len() > 0 {
        let t = trim_chars(cur.as_slice());
        proof { lemma_seqs_of_push(out@, t); }
        out.push(t);
        *cur = Vec::new();
        *cur_len = 0;
        assert(encode_utf8(Seq::<char>::empty()) =~= Seq::<u8>::empty());
    }
    let ghost mid = cur@;
    if cur.len() > 0 {
        proof { lemma_separator_len(comma); lemma_utf8_len_concat(mid, separator(comma)); }
        if comma {
            cur.push(',');
            cur.push(' ');
            *cur_len = *cur_len + 2;
        } else {
            cur.push(' ');
            *cur_len = *cur_len + 1;
        }
        assert(cur@ =~= mid + separator(comma));
    }
    let ghost mid2 = cur@;
    append_chars(cur, piece);
    proof { lemma_utf8_len_concat(mid2, piece@); }
    *cur_len = *cur_len + piece_len;
}

/// Packs words into chunks of their own, appended to `out`.
fn pack_words(out: &mut Vec<Vec<char>>, words: &Vec<Vec<char>>, max: usize)
    ensures
        seqs_of(final(out)@) == close_chunk(
            words_fold(seqs_of(words@), max as int, (seqs_of(old(out)@), Seq::empty())),
        ),
{
    let mut wc: Vec<char> = Vec::new();
    let mut wc_len: u128 = 0;
    let mut i: usize = 0;
    let ghost ws = seqs_of(words@);
    assert(ws.take(0) =~= Seq::<Seq<char>>::empty());
    assert(encode_utf8(Seq::<char>::empty()) =~= Seq::<u8>::empty());
    while i < words.len()
        invariant
            i <= words@.len(),
            ws == seqs_of(words@),
            (seqs_of(out@), wc@) == words_fold(ws.take(i as int), max as int, (seqs_of(old(out)@), Seq::empty())),
            wc_len == utf8_len(wc@),
            wc_len <= 4 * usize::MAX,
        decreases words@.len() - i,
    {
        assert(ws.take(i + 1).drop_last() =~= ws.take(i as int));
        add_piece_exec(out, &mut wc, &mut wc_len, words[i].as_slice(), max, false);
        i = i + 1;
    }
    assert(ws.take(words@.len() as int) =~= ws);
    close_chunk_exec(out, &wc);
}

/// Packs the comma-separated parts of an over-long sentence.
fn pack_parts(
    out: &mut Vec<Vec<char>>,
    cur: &mut Vec<char>,
    cur_len: &mut u128,
    parts: &Vec<Vec<char>>,
    max: usize,
)
    requires
        *old(cur_len) == utf8_len(old(cur)@),
        *old(cur_len) <= 4 * usize::MAX,
    ensures
        (seqs_of(final(out)@), final(cur)@) == parts_fold(
            seqs_of(parts@),
            max as int,
            (seqs_of(old(out)@), old(cur)@),
        ),
        *final(cur_len) == utf8_len(final(cur)@),
        *final(cur_len) <= 4 * usize::MAX,
{
    let mut i: usize = 0;
    let ghost ps = seqs_of(parts@);
    let ghost st0 = (seqs_of(out@), cur@);
    assert(ps.take(0) =~= Seq::<Seq<char>>::empty());
    while i < parts.len()
        invariant
            i <= parts@.len(),
            ps == seqs_of(parts@),
            (seqs_of(out@), cur@) == parts_fold(ps.take(i as int), max as int, st0),
            *cur_len == utf8_len(cur@),
            *cur_len <= 4 * usize::MAX,
        decreases parts@.len() - i,
    {
        assert(ps.take(i + 1).drop_last() =~= ps.take(i as int));
        let p = trim_chars(parts[i].as_slice());
        if p.len() > 0 {
            let p_len = utf8_len_of(p.as_slice());
            if p_len > max as u128 {
                let words = split_whitespace_chars(p.as_slice());
                pack_words(out, &words, max);
            } else {
                add_piece_exec(out, cur, cur_len, p.as_slice(), max, true);
            }
        }
        i = i + 1;
    }
    assert(ps.take(parts@.len() as int) =~= ps);
}

/// Packs the sentences of a long paragraph into chunks.
fn pack_sentences(sentences: &Vec<Vec<char>>, max: usize) -> (r: Vec<Vec<char>>)
    ensures
        seqs_of(r@) == close_chunk(
            sentences_fold(seqs_of(sentences@), max as int, (Seq::empty(), Seq::empty())),
        ),
{
    let mut out: Vec<Vec<char>> = Vec::new();
    let mut cur: Vec<char> = Vec::new();
    let mut cur_len: u128 = 0;
    let mut i: usize = 0;
    let ghost ss = seqs_of(sentences@);
    assert(ss.take(0) =~= Seq::<Seq<char>>::empty());
    assert(encode_utf8(Seq::<char>::empty()) =~= Seq::<u8>::empty());
    assert(seqs_of(out@) =~= Seq::<Seq<char>>::empty());
    while i < sentences.len()
        invariant
            i <= sentences@.len(),
            ss == seqs_of(sentences@),
            (seqs_of(out@), cur@) == sentences_fold(ss.take(i as int), max as int, (Seq::empty(), Seq::empty())),
            cur_len == utf8_len(cur@),
            cur_len <= 4 * usize::MAX,
        decreases sentences@.len() - i,
    {
        assert(ss.take(i + 1).drop_last() =~= ss.take(i as int));
        let t = trim_chars(sentences[i].as_slice());
        if t.len() > 0 {
            let t_len = utf8_len_of(t.as_slice());
            if t_len > max as u128 {
                close_chunk_exec(&mut out, &cur);
                cur = Vec::new();
                cur_len = 0;
                assert(encode_utf8(Seq::<char>::empty()) =~= Seq::<u8>::empty());
                let parts = split_on_char(t.as_slice(), ',');
                pack_parts(&mut out, &mut cur, &mut cur_len, &parts, max);
            } else {
                add_piece_exec(&mut out, &mut cur, &mut cur_len, t.as_slice(), max, false);
            }
        }
        i = i + 1;
    }
    assert(ss.take(sentences@.len() as int) =~= ss);
    close_chunk_exec(&mut out, &cur);
    out
}

/// The chunks of one paragraph.
pub fn paragraph_chunks_exec(p: &[char], max: usize) -> (r: Vec<Vec<char>>)
    ensures
        seqs_of(r@) == paragraph_chunks(p@, max as int),
{
    let t = trim_chars(p);
    if t.len() == 0 {
        let r: Vec<Vec<char>> = Vec::new();
        assert(seqs_of(r@) =~= Seq::<Seq<char>>::empty());
        return r;
    }
    let t_len = utf8_len_of(t.as_slice());
    if t_len <= max as u128 {
        let mut r: Vec<Vec<char>> = Vec::new();
        proof { lemma_seqs_of_push(r@, t); }
        r.push(t);
        assert(seqs_of(Seq::<Vec<char>>::empty()) =~= Seq::<Seq<char>>::empty());
        return r;
    }
    let ss = split_sentences(t.as_slice());
    pack_sentences(&ss, max)
}

/// Splits text into chunks of at most `max_len` bytes (300 when `None`) where
/// the text allows it: paragraphs that fit stay whole, longer ones are packed
/// sentence by sentence, over-long sentences clause by clause and over-long
/// clauses word by word. A blank text gives one empty chunk.
pub fn chunk_text(text: &str, max_len: Option<usize>) -> (r: Vec<String>)
    ensures
        strings_of(r@) == chunks(
            text@,
            match max_len {
                Some(m) => m as int,
                None => MAX_CHUNK_LENGTH as int,
            },
        ),
{
    let max = match max_len {
        Some(m) => m,
        None => MAX_CHUNK_LENGTH,
    };
    let chars = chars_of(text);
    let t = trim_chars(chars.as_slice());
    let ghost ps_spec = paragraphs(t@);
    let mut all: Vec<Vec<char>> = Vec::new();
    if t.len() > 0 {
        let ps = split_paragraphs(t.as_slice());
        let mut i: usize = 0;
        assert(ps_spec.take(0) =~= Seq::<Seq<char>>::empty());
        assert(seqs_of(all@) =~= Seq::<Seq<char>>::empty());
        while i < ps.len()
            invariant
                i <= ps@.len(),
                seqs_of(ps@) == ps_spec,
                seqs_of(all@) == paragraphs_fold(ps_spec.take(i as int), max as int),
            decreases ps@.len() - i,
        {
            assert(ps_spec.take(i + 1).drop_last() =~= ps_spec.take(i as int));
            let cs = paragraph_chunks_exec(ps[i].as_slice(), max);
            let ghost before = seqs_of(all@);
            let mut k: usize = 0;
            while k < cs.len()
                invariant
                    k <= cs@.len(),
                    seqs_of(all@) == before + seqs_of(cs@).take(k as int),
                decreases cs@.len() - k,
            {
                let piece = copy_range(cs[k].as_slice(), 0, cs[k].len());
                assert(piece@ =~= cs@[k as int]@);
                proof { lemma_seqs_of_push(all@, piece); }
                all.push(piece);
                assert(seqs_of(cs@).take(k + 1) =~= seqs_of(cs@).take(k as int).push(cs@[k as int]@));
                assert(seqs_of(all@) =~= before + seqs_of(cs@).take(k + 1));
                k = k + 1;
            }
            assert(seqs_of(cs@).take(cs@.len() as int) =~= seqs_of(cs@));
            i = i + 1;
        }
        assert(ps_spec.take(ps@.len() as int) =~= ps_spec);
    }
    let mut r: Vec<String> = Vec::new();
    if all.len() == 0 {
        r.push(String::new());
        assert(strings_of(r@) =~= seq![Seq::<char>::empty()]);
        return r;
    }
    let mut k: usize = 0;
    assert(strings_of(r@) =~= Seq::<Seq<char>>::empty());
    while k < all.len()
        invariant
            k <= all@.len(),
            strings_of(r@) == seqs_of(all@).take(k as int),
        decreases all@.len() - k,
    {
        let s = string_of(all[k].as_slice());
        proof { lemma_strings_of_push(r@, s); }
        r.push(s);
        assert(seqs_of(all@).take(k + 1) =~= seqs_of(all@).take(k as int).push(all@[k as int]@));
        k = k + 1;
    }
    assert(seqs_of(all@).take(all@.len() as int) =~= seqs_of(all@));
    r
}

/// A finished chunk: not empty, without surrounding whitespace, and within
/// `max + 1` bytes unless it is a single word (a separator `, ` may push a
/// chunk one byte past `max`).
pub open spec fn chunk_ok(c: Seq<char>, max: int) -> bool {
    &&& c.len() > 0
    &&& trim(c) == c
    &&& (utf8_len(c) <= max + 1 || no_white_space(c))
}

/// Every chunk of a sequence is a finished chunk.
pub open spec fn all_ok(cs: Seq<Seq<char>>, max: int) -> bool {
    forall|k: int| 0 <= k < cs.len() ==> chunk_ok(#[trigger] cs[k], max)
}

/// The chunk being built, if not empty, starts and ends without whitespace
/// and keeps the size bound of finished chunks.
pub open spec fn building_ok(cur: Seq<char>, max: int) -> bool {
    cur.len() > 0 ==> {
        &&& !is_white_space(cur[0])
        &&& !is_white_space(cur.last())
        &&& (utf8_len(cur) <= max + 1 || no_white_space(cur))
    }
}

/// A piece that may be packed: not empty, without surrounding whitespace,
/// and within `max` bytes unless it is a single word.
pub open spec fn piece_ok(p: Seq<char>, max: int) -> bool {
    &&& p.len() > 0
    &&& !is_white_space(p[0])
    &&& !is_white_space(p.last())
    &&& (utf8_len(p) <= max || no_white_space(p))
}

proof fn lemma_push_ok(cs: Seq<Seq<char>>, c: Seq<char>, max: int)
    requires
        all_ok(cs, max),
        chunk_ok(c, max),
    ensures
        all_ok(cs.push(c), max),
{
    assert forall|k: int| 0 <= k < cs.push(c).len() implies chunk_ok(#[trigger] cs.push(c)[k], max) by {
        if k < cs.len() {
            assert(cs.push(c)[k] == cs[k]);
        }
    }
}

proof fn lemma_close_ok(st: (Seq<Seq<char>>, Seq<char>), max: int)
    requires
        all_ok(st.0, max),
        building_ok(st.1, max),
    ensures
        all_ok(close_chunk(st), max),
{
    if st.1.len() > 0 {
        lemma_trim_fixed(st.1);
        lemma_push_ok(st.0, trim(st.1), max);
    }
}

proof fn lemma_add_piece_ok(
    st: (Seq<Seq<char>>, Seq<char>),
    piece: Seq<char>,
    max: int,
    comma: bool,
)
    requires
        all_ok(st.0, max),
        building_ok(st.1, max),
        piece_ok(piece, max),
    ensures
        all_ok(add_piece(st, piece, max, separator(comma)).0, max),
        building_ok(add_piece(st, piece, max, separator(comma)).1, max),
{
    let (out, cur) = st;
    let sep = separator(comma);
    lemma_separator_len(comma);
    if utf8_len(cur) + utf8_len(piece) + 1 > max && cur.len() > 0 {
        lemma_trim_fixed(cur);
        lemma_push_ok(out, trim(cur), max);
        assert(Seq::<char>::empty() + piece =~= piece);
    } else if cur.len() > 0 {
        let c = cur + sep + piece;
        lemma_utf8_len_concat(cur, sep);
        lemma_utf8_len_concat(cur + sep, piece);
        assert(c[0] == cur[0]);
        assert(c.last() == piece.last());
    } else {
        assert(cur + piece =~= piece);
    }
}

proof fn lemma_words_fold_ok(ws: Seq<Seq<char>>, max: int, st: (Seq<Seq<char>>, Seq<char>))
    requires
        all_ok(st.0, max),
        building_ok(st.1, max),
        forall|k: int| 0 <= k < ws.len() ==> (#[trigger] ws[k]).len() > 0 && no_white_space(ws[k]),
    ensures
        all_ok(words_fold(ws, max, st).0, max),
        building_ok(words_fold(ws, max, st).1, max),
    decreases ws.len(),
{
    if ws.len() > 0 {
        lemma_words_fold_ok(ws.drop_last(), max, st);
        let w = ws.last();
        assert(ws[ws.len() - 1] == w);
        assert(!is_white_space(w[0]) && !is_white_space(w.last()));
        lemma_add_piece_ok(words_fold(ws.drop_last(), max, st), w, max, false);
    }
}

proof fn lemma_parts_fold_ok(ps: Seq<Seq<char>>, max: int, st: (Seq<Seq<char>>, Seq<char>))
    requires
        all_ok(st.0, max),
        building_ok(st.1, max),
    ensures
        all_ok(parts_fold(ps, max, st).0, max),
        building_ok(parts_fold(ps, max, st).1, max),
    decreases ps.len(),
{
    if ps.len() > 0 {
        lemma_parts_fold_ok(ps.drop_last(), max, st);
        let prev = parts_fold(ps.drop_last(), max, st);
        let p = trim(ps.last());
        lemma_trim_shape(ps.last());
        if p.len() > 0 {
            if utf8_len(p) > max {
                lemma_split_words(p);
                lemma_words_fold_ok(split_words(p), max, (prev.0, Seq::empty()));
                lemma_close_ok(words_fold(split_words(p), max, (prev.0, Seq::empty())), max);
            } else {
                lemma_add_piece_ok(prev, p, max, true);
            }
        }
    }
}

proof fn lemma_sentences_fold_ok(ss: Seq<Seq<char>>, max: int, st: (Seq<Seq<char>>, Seq<char>))
    requires
        all_ok(st.0, max),
        building_ok(st.1, max),
    ensures
        all_ok(sentences_fold(ss, max, st).0, max),
        building_ok(sentences_fold(ss, max, st).1, max),
    decreases ss.len(),
{
    if ss.len() > 0 {
        lemma_sentences_fold_ok(ss.drop_last(), max, st);
        let prev = sentences_fold(ss.drop_last(), max, st);
        let t = trim(ss.last());
        lemma_trim_shape(ss.last());
        if t.len() > 0 {
            if utf8_len(t) > max {
                lemma_close_ok(prev, max);
                lemma_parts_fold_ok(split_on(t, ','), max, (close_chunk(prev), Seq::empty()));
            } else {
                lemma_add_piece_ok(prev, t, max, false);
            }
        }
    }
}

proof fn lemma_paragraph_chunks_ok(p: Seq<char>, max: int)
    ensures
        all_ok(paragraph_chunks(p, max), max),
{
    let t = trim(p);
    lemma_trim_shape(p);
    if t.len() > 0 {
        if utf8_len(t) <= max {
            lemma_trim_fixed(t);
            lemma_push_ok(Seq::empty(), t, max);
            assert(Seq::<Seq<char>>::empty().push(t) =~= seq![t]);
        } else {
            lemma_sentences_fold_ok(sentences(t), max, (Seq::empty(), Seq::empty()));
            lemma_close_ok(sentences_fold(sentences(t), max, (Seq::empty(), Seq::empty())), max);
        }
    }
}

proof fn lemma_paragraphs_fold_ok(ps: Seq<Seq<char>>, max: int)
    ensures
        all_ok(paragraphs_fold(ps, max), max),
    decreases ps.len(),
{
    if ps.len() > 0 {
        lemma_paragraphs_fold_ok(ps.drop_last(), max);
        lemma_paragraph_chunks_ok(ps.last(), max);
        let a = paragraphs_fold(ps.drop_last(), max);
        let b = paragraph_chunks(ps.last(), max);
        assert forall|k: int| 0 <= k < (a + b).len() implies chunk_ok(#[trigger] (a + b)[k], max) by {
            if k < a.len() {
                assert((a + b)[k] == a[k]);
            } else {
                assert((a + b)[k] == b[k - a.len()]);
            }
        }
    }
}

/// Chunking always yields at least one chunk; a blank text yields exactly one
/// empty chunk; any other result holds only finished chunks: none empty, none
/// with surrounding whitespace, and each within `max + 1` bytes unless it is a
/// single word longer than that.
pub proof fn lemma_chunks_shape(text: Seq<char>, max: int)
    ensures
        chunks(text, max).len() >= 1,
        trim(text).len() == 0 ==> chunks(text, max) == seq![Seq::<char>::empty()],
        chunks(text, max) == seq![Seq::<char>::empty()] || all_ok(chunks(text, max), max),
{
    lemma_paragraphs_fold_ok(paragraphs(trim(text)), max);
}

/// A text whose trimmed form has no blank-line break and fits within `max`
/// bytes is a single chunk: the trimmed text.
pub proof fn lemma_short_text_single_chunk(text: Seq<char>, max: int)
    requires
        trim(text).len() > 0,
        utf8_len(trim(text)) <= max,
        paragraphs(trim(text)) == seq![trim(text)],
    ensures
        chunks(text, max) == seq![trim(text)],
{
    let t = trim(text);
    crate::text::lemma_trim_idempotent(text);
    let ps = seq![t];
    assert(ps.drop_last() =~= Seq::<Seq<char>>::empty());
    assert(ps.last() == t);
    assert(paragraphs_fold(Seq::<Seq<char>>::empty(), max) == Seq::<Seq<char>>::empty());
    assert(trim(t) == t);
    assert(paragraph_chunks(t, max) == seq![t]);
    assert(paragraphs_fold(ps, max) == paragraphs_fold(ps.drop_last(), max) + paragraph_chunks(t, max));
    assert(Seq::<Seq<char>>::empty() + seq![t] =~= seq![t]);
}

/// A character that carries text: neither whitespace nor a comma.
pub open spec fn is_content(c: char) -> bool {
    !is_white_space(c) && c != ','
}

/// Whether `s` holds a character that carries text.
pub open spec fn has_content(s: Seq<char>) -> bool {
    exists|k: int| 0 <= k < s.len() && is_content(#[trigger] s[k])
}

proof fn lemma_content_concat(a: Seq<char>, b: Seq<char>)
    ensures
        has_content(a + b) == (has_content(a) || has_content(b)),
{
    if has_content(a) {
        let k = choose|k: int| 0 <= k < a.len() && is_content(#[trigger] a[k]);
        assert((a + b)[k] == a[k]);
    }
    if has_content(b) {
        let k = choose|k: int| 0 <= k < b.len() && is_content(#[trigger] b[k]);
        assert((a + b)[a.len() + k] == b[k]);
    }
    if has_content(a + b) {
        let k = choose|k: int| 0 <= k < (a + b).len() && is_content(#[trigger] (a + b)[k]);
        if k < a.len() {
            assert(a[k] == (a + b)[k]);
        } else {
            assert(b[k - a.len()] == (a + b)[k]);
        }
    }
}

proof fn lemma_content_push(a: Seq<char>, c: char)
    ensures
        has_content(a.push(c)) == (has_content(a) || is_content(c)),
{
    assert(a.push(c) =~= a + seq![c]);
    lemma_content_concat(a, seq![c]);
    if is_content(c) {
        assert(seq![c][0] == c);
    }
    if has_content(seq![c]) {
        let k = choose|k: int| 0 <= k < 1 && is_content(#[trigger] seq![c][k]);
        assert(seq![c][k] == c);
    }
}

/// Trimming keeps the characters that carry text.
pub proof fn lemma_trim_content(s: Seq<char>)
    ensures
        has_content(s) ==> has_content(trim(s)),
{
    lemma_trim_start_content(s);
    lemma_trim_end_content(trim_start(s));
}

proof fn lemma_trim_start_content(s: Seq<char>)
    ensures
        has_content(s) ==> has_content(trim_start(s)),
    decreases s.len(),
{
    if s.len() > 0 && is_white_space(s[0]) {
        lemma_trim_start_content(s.drop_first());
        if has_content(s) {
            let k = choose|k: int| 0 <= k < s.len() && is_content(#[trigger] s[k]);
            assert(k > 0);
            assert(s.drop_first()[k - 1] == s[k]);
        }
    }
}

proof fn lemma_trim_end_content(s: Seq<char>)
    ensures
        has_content(s) ==> has_content(trim_end(s)),
    decreases s.len(),
{
    if s.len() > 0 && is_white_space(s.last()) {
        lemma_trim_end_content(s.drop_last());
        if has_content(s) {
            let k = choose|k: int| 0 <= k < s.len() && is_content(#[trigger] s[k]);
            assert(k < s.len() - 1);
            assert(s.drop_last()[k] == s[k]);
        }
    }
}

/// Whether some piece of `ss` carries text.
pub open spec fn some_content(ss: Seq<Seq<char>>) -> bool {
    exists|k: int| 0 <= k < ss.len() && has_content(#[trigger] ss[k])
}

proof fn lemma_some_content_push(ss: Seq<Seq<char>>, x: Seq<char>)
    ensures
        some_content(ss.push(x)) == (some_content(ss) || has_content(x)),
{
    if some_content(ss) {
        let k = choose|k: int| 0 <= k < ss.len() && has_content(#[trigger] ss[k]);
        assert(ss.push(x)[k] == ss[k]);
    }
    if has_content(x) {
        assert(ss.push(x)[ss.len() as int] == x);
    }
    if some_content(ss.push(x)) {
        let k = choose|k: int| 0 <= k < ss.push(x).len() && has_content(#[trigger] ss.push(x)[k]);
        if k < ss.len() {
            assert(ss.push(x)[k] == ss[k]);
        }
    }
}

proof fn lemma_para_state_content(s: Seq<char>)
    ensures
        !has_content(para_state(s).2),
        has_content(s) ==> has_content(para_state(s).1) || some_content(para_state(s).0),
    decreases s.len(),
{
    if s.len() > 0 {
        let prev = s.drop_last();
        lemma_para_state_content(prev);
        let (done, cur, pending) = para_state(prev);
        let c = s.last();
        assert(s =~= prev.push(c));
        lemma_content_push(prev, c);
        if is_white_space(c) {
            lemma_content_push(pending, c);
        } else if nl_count(pending) >= 2 {
            let f = first_nl(pending);
            let l = last_nl(pending);
            lemma_nl_bounds(pending);
            lemma_some_content_push(done, cur + pending.take(f));
            lemma_content_concat(cur, pending.take(f));
            lemma_content_push(pending.skip(l + 1), c);
        } else {
            lemma_content_concat(cur, pending);
            lemma_content_push(cur + pending, c);
        }
    }
}

proof fn lemma_nl_bounds(s: Seq<char>)
    requires
        nl_count(s) >= 1,
    ensures
        0 <= first_nl(s) <= last_nl(s) < s.len(),
    decreases s.len(),
{
    if s.len() > 0 {
        if nl_count(s.drop_last()) >= 1 {
            lemma_nl_bounds(s.drop_last());
        } else {
            lemma_nl_none(s.drop_last());
        }
    }
}

proof fn lemma_nl_none(s: Seq<char>)
    requires
        nl_count(s) == 0,
    ensures
        first_nl(s) == -1,
    decreases s.len(),
{
    if s.len() > 0 {
        lemma_nl_none(s.drop_last());
    }
}

/// Some paragraph of a text that carries text carries text.
pub proof fn lemma_paragraphs_content(s: Seq<char>)
    ensures
        has_content(s) ==> some_content(paragraphs(s)),
{
    lemma_para_state_content(s);
    let (done, cur, pending) = para_state(s);
    if nl_count(pending) >= 2 {
        lemma_nl_bounds(pending);
        let f = first_nl(pending);
        lemma_content_concat(cur, pending.take(f));
        lemma_some_content_push(done, cur + pending.take(f));
        lemma_some_content_push(done.push(cur + pending.take(f)), pending.skip(last_nl(pending) + 1));
    } else {
        lemma_content_concat(cur, pending);
        lemma_some_content_push(done, cur + pending);
    }
}

proof fn lemma_concat_content(ss: Seq<Seq<char>>)
    ensures
        has_content(concat_all(ss)) ==> some_content(ss),
    decreases ss.len(),
{
    if ss.len() > 0 {
        lemma_concat_content(ss.drop_last());
        lemma_content_concat(concat_all(ss.drop_last()), ss.last());
        lemma_some_content_push(ss.drop_last(), ss.last());
        assert(ss.drop_last().push(ss.last()) =~= ss);
    }
}

proof fn lemma_split_state_content(s: Seq<char>)
    ensures
        has_content(s) ==> has_content(split_state(s, ',').1) || some_content(split_state(s, ',').0),
    decreases s.len(),
{
    if s.len() > 0 {
        let prev = s.drop_last();
        lemma_split_state_content(prev);
        let (done, cur) = split_state(prev, ',');
        assert(s =~= prev.push(s.last()));
        lemma_content_push(prev, s.last());
        if s.last() == ',' {
            lemma_some_content_push(done, cur);
        } else {
            lemma_content_push(cur, s.last());
        }
    }
}

proof fn lemma_split_on_content(s: Seq<char>)
    ensures
        has_content(s) ==> some_content(split_on(s, ',')),
{
    lemma_split_state_content(s);
    lemma_some_content_push(split_state(s, ',').0, split_state(s, ',').1);
}

proof fn lemma_words_nonempty(s: Seq<char>)
    requires
        has_content(s),
    ensures
        split_words(s).len() > 0,
    decreases s.len(),
{
    lemma_words_state_nonempty(s);
}

proof fn lemma_words_state_nonempty(s: Seq<char>)
    ensures
        has_content(s) ==> words_state(s).0.len() > 0 || words_state(s).1.len() > 0,
    decreases s.len(),
{
    if s.len() > 0 {
        let prev = s.drop_last();
        lemma_words_state_nonempty(prev);
        assert(s =~= prev.push(s.last()));
        lemma_content_push(prev, s.last());
    }
}

/// Something was produced: a finished chunk or a chunk being built.
pub open spec fn produced(st: (Seq<Seq<char>>, Seq<char>)) -> bool {
    st.0.len() > 0 || st.1.len() > 0
}

proof fn lemma_add_piece_produced(st: (Seq<Seq<char>>, Seq<char>), piece: Seq<char>, max: int, sep: Seq<char>)
    requires
        piece.len() > 0,
    ensures
        add_piece(st, piece, max, sep).1.len() > 0,
        add_piece(st, piece, max, sep).0.len() >= st.0.len(),
{
}

proof fn lemma_close_len(st: (Seq<Seq<char>>, Seq<char>))
    ensures
        close_chunk(st).len() >= st.0.len(),
        produced(st) ==> close_chunk(st).len() > 0,
{
}

proof fn lemma_words_fold_produced(ws: Seq<Seq<char>>, max: int, st: (Seq<Seq<char>>, Seq<char>))
    requires
        forall|k: int| 0 <= k < ws.len() ==> (#[trigger] ws[k]).len() > 0,
    ensures
        words_fold(ws, max, st).0.len() >= st.0.len(),
        produced(st) || ws.len() > 0 ==> produced(words_fold(ws, max, st)),
    decreases ws.len(),
{
    if ws.len() > 0 {
        lemma_words_fold_produced(ws.drop_last(), max, st);
        assert(ws[ws.len() - 1] == ws.last());
        lemma_add_piece_produced(words_fold(ws.drop_last(), max, st), ws.last(), max, seq![' ']);
    }
}

proof fn lemma_parts_fold_produced(ps: Seq<Seq<char>>, max: int, st: (Seq<Seq<char>>, Seq<char>))
    ensures
        parts_fold(ps, max, st).0.len() >= st.0.len(),
        produced(st) || some_content(ps) ==> produced(parts_fold(ps, max, st)),
    decreases ps.len(),
{
    if ps.len() > 0 {
        let prev_ps = ps.drop_last();
        lemma_parts_fold_produced(prev_ps, max, st);
        let prev = parts_fold(prev_ps, max, st);
        let part = ps.last();
        let p = trim(part);
        lemma_trim_content(part);
        lemma_some_content_push(prev_ps, part);
        assert(prev_ps.push(part) =~= ps);
        if p.len() > 0 {
            if utf8_len(p) > max {
                lemma_split_words(p);
                lemma_words_fold_produced(split_words(p), max, (prev.0, Seq::empty()));
                if has_content(p) {
                    lemma_words_nonempty(p);
                }
                lemma_close_len(words_fold(split_words(p), max, (prev.0, Seq::empty())));
            } else {
                lemma_add_piece_produced(prev, p, max, seq![',', ' ']);
            }
        }
    }
}

proof fn lemma_sentences_fold_produced(ss: Seq<Seq<char>>, max: int, st: (Seq<Seq<char>>, Seq<char>))
    ensures
        produced(st) || some_content(ss) ==> produced(sentences_fold(ss, max, st)),
    decreases ss.len(),
{
    if ss.len() > 0 {
        let prev_ss = ss.drop_last();
        lemma_sentences_fold_produced(prev_ss, max, st);
        let prev = sentences_fold(prev_ss, max, st);
        let sentence = ss.last();
        let t = trim(sentence);
        lemma_trim_content(sentence);
        lemma_some_content_push(prev_ss, sentence);
        assert(prev_ss.push(sentence) =~= ss);
        if t.len() > 0 {
            if utf8_len(t) > max {
                lemma_close_len(prev);
                lemma_split_on_content(t);
                lemma_parts_fold_produced(split_on(t, ','), max, (close_chunk(prev), Seq::empty()));
            } else {
                lemma_add_piece_produced(prev, t, max, seq![' ']);
            }
        }
    }
}

proof fn lemma_paragraph_chunks_content(p: Seq<char>, max: int)
    requires
        has_content(p),
    ensures
        paragraph_chunks(p, max).len() > 0,
{
    let t = trim(p);
    lemma_trim_content(p);
    if utf8_len(t) > max {
        lemma_sentences_concat(t);
        lemma_concat_content(sentences(t));
        lemma_sentences_fold_produced(sentences(t), max, (Seq::empty(), Seq::empty()));
        lemma_close_len(sentences_fold(sentences(t), max, (Seq::empty(), Seq::empty())));
    }
}

proof fn lemma_paragraphs_fold_content(ps: Seq<Seq<char>>, max: int)
    requires
        some_content(ps),
    ensures
        paragraphs_fold(ps, max).len() > 0,
    decreases ps.len(),
{
    let k = choose|k: int| 0 <= k < ps.len() && has_content(#[trigger] ps[k]);
    if k == ps.len() - 1 {
        lemma_paragraph_chunks_content(ps.last(), max);
    } else {
        assert(ps.drop_last()[k] == ps[k]);
        lemma_paragraphs_fold_content(ps.drop_last(), max);
    }
}

/// A text that holds a character other than whitespace and commas yields only
/// finished chunks: not empty, trimmed, and within `max + 1` bytes unless a
/// single word. (A text of only whitespace and commas can yield the single
/// empty chunk.)
pub proof fn lemma_chunks_of_content(text: Seq<char>, max: int)
    requires
        has_content(text),
    ensures
        chunks(text, max).len() >= 1,
        all_ok(chunks(text, max), max),
{
    lemma_trim_content(text);
    let t = trim(text);
    lemma_paragraphs_content(t);
    lemma_paragraphs_fold_content(paragraphs(t), max);
    lemma_paragraphs_fold_ok(paragraphs(t), max);
}


/// A packing state with chunks `a` closed before its own.
spec fn after_chunks(
    a: Seq<Seq<char>>,
    st: (Seq<Seq<char>>, Seq<char>),
) -> (Seq<Seq<char>>, Seq<char>) {
    (a + st.0, st.1)
}

proof fn lemma_add_piece_after(
    a: Seq<Seq<char>>,
    st: (Seq<Seq<char>>, Seq<char>),
    piece: Seq<char>,
    max: int,
    sep: Seq<char>,
)
    ensures
        add_piece(after_chunks(a, st), piece, max, sep) == after_chunks(a, add_piece(st, piece, max, sep)),
{
    assert((a + st.0).push(trim(st.1)) =~= a + st.0.push(trim(st.1)));
}

proof fn lemma_close_chunk_after(a: Seq<Seq<char>>, st: (Seq<Seq<char>>, Seq<char>))
    ensures
        close_chunk(after_chunks(a, st)) == a + close_chunk(st),
{
    assert((a + st.0).push(trim(st.1)) =~= a + st.0.push(trim(st.1)));
}

proof fn lemma_words_fold_after(
    ws: Seq<Seq<char>>,
    max: int,
    a: Seq<Seq<char>>,
    st: (Seq<Seq<char>>, Seq<char>),
)
    ensures
        words_fold(ws, max, after_chunks(a, st)) == after_chunks(a, words_fold(ws, max, st)),
    decreases ws.len(),
{
    if ws.len() > 0 {
        lemma_words_fold_after(ws.drop_last(), max, a, st);
        lemma_add_piece_after(a, words_fold(ws.drop_last(), max, st), ws.last(), max, seq![' ']);
    }
}

proof fn lemma_part_step_after(
    a: Seq<Seq<char>>,
    st: (Seq<Seq<char>>, Seq<char>),
    part: Seq<char>,
    max: int,
)
    ensures
        part_step(after_chunks(a, st), part, max) == after_chunks(a, part_step(st, part, max)),
{
    let p = trim(part);
    if p.len() > 0 {
        if utf8_len(p) > max {
            let e = Seq::<char>::empty();
            lemma_words_fold_after(split_words(p), max, a, (st.0, e));
            lemma_close_chunk_after(a, words_fold(split_words(p), max, (st.0, e)));
        } else {
            lemma_add_piece_after(a, st, p, max, seq![',', ' ']);
        }
    }
}

proof fn lemma_parts_fold_after(
    ps: Seq<Seq<char>>,
    max: int,
    a: Seq<Seq<char>>,
    st: (Seq<Seq<char>>, Seq<char>),
)
    ensures
        parts_fold(ps, max, after_chunks(a, st)) == after_chunks(a, parts_fold(ps, max, st)),
    decreases ps.len(),
{
    if ps.len() > 0 {
        lemma_parts_fold_after(ps.drop_last(), max, a, st);
        lemma_part_step_after(a, parts_fold(ps.drop_last(), max, st), ps.last(), max);
    }
}

proof fn lemma_sentence_step_after(
    a: Seq<Seq<char>>,
    st: (Seq<Seq<char>>, Seq<char>),
    sentence: Seq<char>,
    max: int,
)
    ensures
        sentence_step(after_chunks(a, st), sentence, max) == after_chunks(a, sentence_step(st, sentence, max)),
{
    let t = trim(sentence);
    if t.len() > 0 {
        if utf8_len(t) > max {
            lemma_close_chunk_after(a, st);
            lemma_parts_fold_after(split_on(t, ','), max, a, (close_chunk(st), Seq::empty()));
        } else {
            lemma_add_piece_after(a, st, t, max, seq![' ']);
        }
    }
}

proof fn lemma_sentences_fold_after(
    ss: Seq<Seq<char>>,
    max: int,
    a: Seq<Seq<char>>,
    st: (Seq<Seq<char>>, Seq<char>),
)
    ensures
        sentences_fold(ss, max, after_chunks(a, st)) == after_chunks(a, sentences_fold(ss, max, st)),
    decreases ss.len(),
{
    if ss.len() > 0 {
        lemma_sentences_fold_after(ss.drop_last(), max, a, st);
        lemma_sentence_step_after(a, sentences_fold(ss.drop_last(), max, st), ss.last(), max);
    }
}

proof fn lemma_sentences_fold_concat(
    xs: Seq<Seq<char>>,
    ys: Seq<Seq<char>>,
    max: int,
    st: (Seq<Seq<char>>, Seq<char>),
)
    ensures
        sentences_fold(xs + ys, max, st) == sentences_fold(ys, max, sentences_fold(xs, max, st)),
    decreases ys.len(),
{
    if ys.len() == 0 {
        assert(xs + ys =~= xs);
    } else {
        assert((xs + ys).drop_last() =~= xs + ys.drop_last());
        assert((xs + ys).last() == ys.last());
        lemma_sentences_fold_concat(xs, ys.drop_last(), max, st);
    }
}

/// A sentence longer than the limit never shares a chunk with the text before
/// it: the sentences are packed as if they were two runs, those before it and
/// those from it on, so the chunks end where the over-long sentence begins.
pub proof fn lemma_long_sentence_starts_chunk(ss: Seq<Seq<char>>, max: int, k: int)
    requires
        0 <= max,
        0 <= k < ss.len(),
        utf8_len(trim(ss[k])) > max,
    ensures
        close_chunk(sentences_fold(ss, max, (Seq::empty(), Seq::empty()))) == close_chunk(
            sentences_fold(ss.take(k), max, (Seq::empty(), Seq::empty())),
        ) + close_chunk(sentences_fold(ss.skip(k), max, (Seq::empty(), Seq::empty()))),
{
    let e: (Seq<Seq<char>>, Seq<char>) = (Seq::empty(), Seq::empty());
    let t = ss[k];
    let before = sentences_fold(ss.take(k), max, e);
    let c = close_chunk(before);
    let rest = ss.skip(k + 1);
    let parts = split_on(trim(t), ',');
    let p = parts_fold(parts, max, e);
    assert(trim(t).len() > 0) by {
        if trim(t).len() == 0 {
            assert(trim(t) =~= Seq::<char>::empty());
            assert(encode_utf8(Seq::<char>::empty()) =~= Seq::<u8>::empty());
        }
    }
    assert(sentence_step(before, t, max) == after_chunks(c, p)) by {
        assert(after_chunks(c, e) == (c, Seq::<char>::empty())) by {
            assert(c + Seq::<Seq<char>>::empty() =~= c);
        }
        lemma_parts_fold_after(parts, max, c, e);
    }
    assert(sentence_step(e, t, max) == p) by {
        assert(close_chunk(e) =~= Seq::<Seq<char>>::empty());
    }
    assert(sentences_fold(seq![t], max, before) == sentence_step(before, t, max)) by {
        assert(seq![t].drop_last() =~= Seq::<Seq<char>>::empty());
        reveal_with_fuel(sentences_fold, 2);
    }
    assert(sentences_fold(seq![t], max, e) == sentence_step(e, t, max)) by {
        assert(seq![t].drop_last() =~= Seq::<Seq<char>>::empty());
        reveal_with_fuel(sentences_fold, 2);
    }
    assert(sentences_fold(ss, max, e) == sentences_fold(rest, max, after_chunks(c, p))) by {
        assert(ss =~= ss.take(k) + ss.skip(k));
        lemma_sentences_fold_concat(ss.take(k), ss.skip(k), max, e);
        assert(ss.skip(k) =~= seq![t] + rest);
        lemma_sentences_fold_concat(seq![t], rest, max, before);
    }
    assert(sentences_fold(ss.skip(k), max, e) == sentences_fold(rest, max, p)) by {
        assert(ss.skip(k) =~= seq![t] + rest);
        lemma_sentences_fold_concat(seq![t], rest, max, e);
    }
    lemma_sentences_fold_after(rest, max, c, p);
    lemma_close_chunk_after(c, sentences_fold(rest, max, p));
}

} // verus!
