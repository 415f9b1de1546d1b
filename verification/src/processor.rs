//! Turning prepared text into the model's inputs: character ids padded to a
//! common length, the masks that mark real positions, the model
//! configuration and the layout of the noisy latent.
use vstd::prelude::*;
use crate::preprocess::{preprocess_text, PreprocessError, nfkd, clean_text, tagged};
use crate::lang::is_valid_lang_code;

verus! {

/// Autoencoder settings of the model.
#[derive(Clone, Copy, Debug)]
pub struct AEConfig {
    pub sample_rate: i32,
    pub base_chunk_size: i32,
}

/// Text-to-latent settings of the model.
#[derive(Clone, Copy, Debug)]
pub struct TTLConfig {
    pub chunk_compress_factor: i32,
    pub latent_dim: i32,
}

/// The model configuration.
#[derive(Clone, Copy, Debug)]
pub struct Config {
    pub ae: AEConfig,
    pub ttl: TTLConfig,
}

/// The largest element of `s`, or 0 for an empty sequence.
pub open spec fn seq_max(s: Seq<usize>) -> nat
    decreases s.len(),
{
    if s.len() == 0 {
        0
    } else {
        let m = seq_max(s.drop_last());
        if s.last() > m {
            s.last() as nat
        } else {
            m
        }
    }
}

/// Every element is at most the maximum, and a non-empty sequence attains it.
pub proof fn lemma_seq_max(s: Seq<usize>)
    ensures
        forall|i: int| 0 <= i < s.len() ==> #[trigger] s[i] <= seq_max(s),
        s.len() > 0 ==> exists|i: int| 0 <= i < s.len() && #[trigger] s[i] == seq_max(s),
        seq_max(s) <= usize::MAX,
    decreases s.len(),
{
    if s.len() > 0 {
        lemma_seq_max(s.drop_last());
        assert forall|i: int| 0 <= i < s.len() implies #[trigger] s[i] <= seq_max(s) by {
            if i < s.len() - 1 {
                assert(s[i] == s.drop_last()[i]);
            }
        }
        if s.last() <= seq_max(s.drop_last()) && s.len() > 1 {
            let i = choose|i: int| 0 <= i < s.drop_last().len() && #[trigger] s.drop_last()[i] == seq_max(s.drop_last());
            assert(s[i] == s.drop_last()[i]);
        }
    }
}

/// The largest of the lengths, or 0 when there are none.
pub fn max_length(lengths: &[usize]) -> (m: usize)
    ensures
        m == seq_max(lengths@),
{
    let mut m: usize = 0;
    let mut i: usize = 0;
    assert(lengths@.take(0) =~= Seq::<usize>::empty());
    while i < lengths.len()
        invariant
            i <= lengths@.len(),
            m == seq_max(lengths@.take(i as int)),
        decreases lengths@.len() - i,
    {
        assert(lengths@.take(i + 1).drop_last() =~= lengths@.take(i as int));
        if lengths[i] > m {
            m = lengths[i];
        }
        i = i + 1;
    }
    assert(lengths@.take(lengths@.len() as int) =~= lengths@);
    m
}

/// The mask rows for the given lengths: row `i` has `width` entries, of which
/// the first `min(lengths[i], width)` are set.
pub open spec fn mask_of(lengths: Seq<usize>, width: int, mask: Seq<Seq<bool>>) -> bool {
    &&& mask.len() == lengths.len()
    &&& forall|i: int| 0 <= i < mask.len() ==> (#[trigger] mask[i]).len() == width
    &&& forall|i: int, j: int| 0 <= i < mask.len() && 0 <= j < width ==> #[trigger] mask[i][j] == (j < lengths[i])
}

/// The views of a vector of mask rows.
pub open spec fn rows_of(v: Seq<Vec<bool>>) -> Seq<Seq<bool>> {
    v.map_values(|r: Vec<bool>| r@)
}

/// A mask row per length, `max_len` wide (the largest length when `None`),
/// with the first `length` positions set.
pub fn length_to_mask(lengths: &[usize], max_len: Option<usize>) -> (r: Vec<Vec<bool>>)
    ensures
        mask_of(
            lengths@,
            match max_len {
                Some(m) => m as int,
                None => seq_max(lengths@) as int,
            },
            rows_of(r@),
        ),
{
    let width = match max_len {
        Some(m) => m,
        None => max_length(lengths),
    };
    let mut r: Vec<Vec<bool>> = Vec::new();
    let mut i: usize = 0;
    while i < lengths.len()
        invariant
            i <= lengths@.len(),
            r@.len() == i,
            forall|k: int| 0 <= k < i ==> (#[trigger] r@[k])@.len() == width,
            forall|k: int, j: int| 0 <= k < i && 0 <= j < width ==> #[trigger] r@[k]@[j] == (j < lengths@[k]),
        decreases lengths@.len() - i,
    {
        let mut row: Vec<bool> = Vec::new();
        let mut j: usize = 0;
        while j < width
            invariant
                i < lengths@.len(),
                j <= width,
                row@.len() == j,
                forall|t: int| 0 <= t < j ==> #[trigger] row@[t] == (t < lengths@[i as int]),
            decreases width - j,
        {
            row.push(j < lengths[i]);
            j = j + 1;
        }
        r.push(row);
        i = i + 1;
    }
    r
}

/// The mask of text positions: one row per text, as wide as the longest.
pub fn get_text_mask(text_ids_lengths: &[usize]) -> (r: Vec<Vec<bool>>)
    ensures
        mask_of(text_ids_lengths@, seq_max(text_ids_lengths@) as int, rows_of(r@)),
{
    let m = max_length(text_ids_lengths);
    length_to_mask(text_ids_lengths, Some(m))
}

/// The text as the synthesizer reads it, in the given language.
pub open spec fn prepared(text: Seq<char>, lang: Seq<char>) -> Seq<char> {
    tagged(lang, clean_text(nfkd(text)))
}

/// The id of a character: the indexer's entry at its code point, or -1 when
/// the indexer is shorter.
pub open spec fn char_id(indexer: Seq<i64>, c: char) -> i64 {
    if (c as usize) < indexer.len() {
        indexer[c as usize as int]
    } else {
        -1i64
    }
}

/// Maps characters to the ids the model was trained on.
pub struct UnicodeProcessor {
    indexer: Vec<i64>,
}

impl View for UnicodeProcessor {
    type V = Seq<i64>;

    closed spec fn view(&self) -> Seq<i64> {
        self.indexer@
    }
}

/// Whether `ids` and `mask` are what the processor yields for the first `n`
/// texts.
pub open spec fn ids_for(
    indexer: Seq<i64>,
    texts: Seq<Seq<char>>,
    langs: Seq<Seq<char>>,
    n: int,
    ids: Seq<Seq<i64>>,
    mask: Seq<Seq<bool>>,
) -> bool {
    let lengths = Seq::new(n as nat, |i: int| prepared(texts[i], langs[i]).len() as usize);
    let width = seq_max(lengths) as int;
    &&& forall|i: int| 0 <= i < n ==> prepared(texts[i], langs[i]).len() <= usize::MAX
    &&& ids.len() == n
    &&& forall|i: int| 0 <= i < n ==> (#[trigger] ids[i]).len() == width
    &&& forall|i: int, j: int| 0 <= i < n && 0 <= j < width ==> #[trigger] ids[i][j] == if j
        < prepared(texts[i], langs[i]).len() {
        char_id(indexer, prepared(texts[i], langs[i])[j])
    } else {
        0i64
    }
    &&& mask_of(lengths, width, mask)
}

impl UnicodeProcessor {
    /// A processor with the given table from code points to ids.
    pub fn new(indexer: Vec<i64>) -> (r: Self)
        ensures
            r@ == indexer@,
    {
        UnicodeProcessor { indexer }
    }

    /// The id of one character.
    fn id_of(&self, c: char) -> (r: i64)
        ensures
            r == char_id(self@, c),
    {
        let v = c as usize;
        if v < self.indexer.len() {
            self.indexer[v]
        } else {
            -1
        }
    }

    /// Prepares each text in its language (texts and languages are paired in
    /// order, as far as the shorter list goes) and maps the characters to ids,
    /// padded with 0 to the longest; also returns the mask of real positions.
    /// Fails with the first pair whose language the synthesizer does not read.
    pub fn call(&self, text_list: &[String], lang_list: &[String]) -> (r: Result<
        (Vec<Vec<i64>>, Vec<Vec<bool>>),
        PreprocessError,
    >)
        ensures
            ({
                let n = if text_list@.len() <= lang_list@.len() {
                    text_list@.len() as int
                } else {
                    lang_list@.len() as int
                };
                let texts = text_list@.map_values(|s: String| s@);
                let langs = lang_list@.map_values(|s: String| s@);
                match r {
                    Ok((ids, mask)) => {
                        &&& forall|i: int| 0 <= i < n ==> is_valid_lang_code(#[trigger] langs[i])
                        &&& ids_for(
                            self@,
                            texts,
                            langs,
                            n,
                            ids@.map_values(|v: Vec<i64>| v@),
                            rows_of(mask@),
                        )
                    },
                    Err(PreprocessError::InvalidLanguage(l)) => exists|k: int|
                        0 <= k < n && !is_valid_lang_code(#[trigger] langs[k]) && l@ == langs[k]
                            && forall|j: int| 0 <= j < k ==> is_valid_lang_code(#[trigger] langs[j]),
                }
            }),
    {
        let n = if text_list.len() <= lang_list.len() {
            text_list.len()
        } else {
            lang_list.len()
        };
        let ghost texts = text_list@.map_values(|s: String| s@);
        let ghost langs = lang_list@.map_values(|s: String| s@);
        let mut processed: Vec<Vec<char>> = Vec::new();
        let mut lengths: Vec<usize> = Vec::new();
        let mut i: usize = 0;
        while i < n
            invariant
                n <= text_list@.len(),
                n <= lang_list@.len(),
                texts == text_list@.map_values(|s: String| s@),
                langs == lang_list@.map_values(|s: String| s@),
                i <= n,
                processed@.len() == i,
                lengths@.len() == i,
                forall|k: int| 0 <= k < i ==> is_valid_lang_code(#[trigger] langs[k]),
                forall|k: int| 0 <= k < i ==> (#[trigger] processed@[k])@ == prepared(texts[k], langs[k]),
                forall|k: int| 0 <= k < i ==> #[trigger] lengths@[k] == processed@[k]@.len(),
            decreases n - i,
        {
            match preprocess_text(text_list[i].as_str(), lang_list[i].as_str()) {
                Ok(s) => {
                    let chars = crate::text::chars_of(s.as_str());
                    lengths.push(chars.len());
                    processed.push(chars);
                },
                Err(e) => {
                    assert(langs[i as int] == lang_list@[i as int]@);
                    return Err(e);
                },
            }
            i = i + 1;
        }
        let ghost spec_lengths = Seq::new(n as nat, |k: int| prepared(texts[k], langs[k]).len() as usize);
        assert(lengths@ =~= spec_lengths);
        let width = max_length(lengths.as_slice());
        proof { lemma_seq_max(lengths@); }
        let mut ids: Vec<Vec<i64>> = Vec::new();
        let mut k: usize = 0;
        while k < n
            invariant
                k <= n == processed@.len() == lengths@.len(),
                lengths@ == spec_lengths,
                width == seq_max(spec_lengths),
                forall|t: int| 0 <= t < n ==> #[trigger] lengths@[t] <= width,
                forall|t: int| 0 <= t < n ==> (#[trigger] processed@[t])@ == prepared(texts[t], langs[t]),
                forall|t: int| 0 <= t < n ==> #[trigger] lengths@[t] == processed@[t]@.len(),
                ids@.len() == k,
                forall|t: int| 0 <= t < k ==> (#[trigger] ids@[t])@.len() == width,
                forall|t: int, j: int| 0 <= t < k && 0 <= j < width ==> #[trigger] ids@[t]@[j]
                    == if j < processed@[t]@.len() {
                    char_id(self@, processed@[t]@[j])
                } else {
                    0i64
                },
            decreases n - k,
        {
            let text = &processed[k];
            assert(lengths@[k as int] <= width);
            let mut row: Vec<i64> = Vec::new();
            let mut j: usize = 0;
            while j < width
                invariant
                    j <= width,
                    text@ == processed@[k as int]@,
                    text@.len() <= width,
                    row@.len() == j,
                    forall|t: int| 0 <= t < j ==> #[trigger] row@[t] == if t < text@.len() {
                        char_id(self@, text@[t])
                    } else {
                        0i64
                    },
                decreases width - j,
            {
                if j < text.len() {
                    row.push(self.id_of(text[j]));
                } else {
                    row.push(0);
                }
                j = j + 1;
            }
            ids.push(row);
            k = k + 1;
        }
        let mask = length_to_mask(lengths.as_slice(), Some(width));
        let ghost idv = ids@.map_values(|v: Vec<i64>| v@);
        assert forall|t: int| 0 <= t < n implies prepared(texts[t], langs[t]).len() <= usize::MAX by {
            assert(lengths@[t] == processed@[t]@.len());
            assert(processed@[t]@ == prepared(texts[t], langs[t]));
        }
        assert forall|t: int| 0 <= t < n implies (#[trigger] idv[t]).len() == width by {
            assert(idv[t] == ids@[t]@);
        }
        assert forall|t: int, j: int| 0 <= t < n && 0 <= j < width implies #[trigger] idv[t][j]
            == if j < prepared(texts[t], langs[t]).len() {
            char_id(self@, prepared(texts[t], langs[t])[j])
        } else {
            0i64
        } by {
            assert(idv[t] == ids@[t]@);
            assert(processed@[t]@ == prepared(texts[t], langs[t]));
        }
        Ok((ids, mask))
    }
}

/// The ceiling of `a / b`, computed as `(a + b - 1) / b`.
pub open spec fn ceil_div(a: int, b: int) -> int {
    (a + b - 1) / b
}

/// How the noisy latent is laid out for a batch.
pub struct LatentLayout {
    /// Samples per latent frame.
    pub chunk_size: usize,
    /// Frames of the longest item.
    pub latent_len: usize,
    /// Channels per frame.
    pub latent_dim: usize,
    /// Frames of each item.
    pub latent_lengths: Vec<usize>,
    /// Which frames of each item are real.
    pub mask: Vec<Vec<bool>>,
}

/// The layout of the noisy latent for items of the given lengths in samples,
/// the longest being `wav_len_max`: frames of `base_chunk_size *
/// chunk_compress` samples, rounded up, and `latent_dim * chunk_compress`
/// channels (both products taken as `usize`, as a cast from `i32` does).
pub fn noisy_latent_layout(
    wav_lengths: &[usize],
    wav_len_max: usize,
    base_chunk_size: i32,
    chunk_compress: i32,
    latent_dim: i32,
) -> (r: LatentLayout)
    requires
        i32::MIN <= base_chunk_size * chunk_compress <= i32::MAX,
        i32::MIN <= latent_dim * chunk_compress <= i32::MAX,
        base_chunk_size * chunk_compress != 0,
        wav_len_max + ((base_chunk_size * chunk_compress) as i32 as usize) <= usize::MAX + 1,
        forall|i: int| 0 <= i < wav_lengths@.len() ==> #[trigger] wav_lengths@[i] + ((base_chunk_size
            * chunk_compress) as i32 as usize) <= usize::MAX + 1,
    ensures
        r.chunk_size == (base_chunk_size * chunk_compress) as i32 as usize,
        r.latent_dim == (latent_dim * chunk_compress) as i32 as usize,
        r.latent_len == ceil_div(wav_len_max as int, r.chunk_size as int),
        r.latent_lengths@.len() == wav_lengths@.len(),
        forall|i: int| 0 <= i < wav_lengths@.len() ==> #[trigger] r.latent_lengths@[i] == ceil_div(
            wav_lengths@[i] as int,
            r.chunk_size as int,
        ),
        mask_of(r.latent_lengths@, r.latent_len as int, rows_of(r.mask@)),
{
    let product = base_chunk_size * chunk_compress;
    let chunk_size = product as usize;
    let dim = (latent_dim * chunk_compress) as usize;
    assert(chunk_size > 0) by (bit_vector)
        requires
            product != 0,
            chunk_size == product as usize,
    ;
    let latent_len = (wav_len_max + (chunk_size - 1)) / chunk_size;
    let mut lengths: Vec<usize> = Vec::new();
    let mut i: usize = 0;
    while i < wav_lengths.len()
        invariant
            chunk_size == product as usize,
            product == base_chunk_size * chunk_compress,
            chunk_size > 0,
            forall|k: int| 0 <= k < wav_lengths@.len() ==> #[trigger] wav_lengths@[k] + chunk_size
                <= usize::MAX + 1,
            i <= wav_lengths@.len(),
            lengths@.len() == i,
            forall|k: int| 0 <= k < i ==> #[trigger] lengths@[k] == ceil_div(wav_lengths@[k] as int, chunk_size as int),
        decreases wav_lengths@.len() - i,
    {
        assert(wav_lengths@[i as int] + chunk_size <= usize::MAX + 1);
        lengths.push((wav_lengths[i] + (chunk_size - 1)) / chunk_size);
        i = i + 1;
    }
    let mask = length_to_mask(lengths.as_slice(), Some(latent_len));
    LatentLayout { chunk_size, latent_len, latent_dim: dim, latent_lengths: lengths, mask }
}

} // verus!
