//! The model files the synthesizer needs, which of them are missing, and the
//! progress reported while they download.
use vstd::prelude::*;
use crate::text::{str_eq, chars_of, string_of, strings_of, lemma_strings_of_push, append_chars};

verus! {

/// Where the model files are downloaded from.
pub const HF_BASE_URL: &'static str = "https://huggingface.co/Supertone/supertonic-3/resolve/main";

/// A mirror of the model files.
pub const HF_MIRROR_URL: &'static str = "https://hf-mirror.com/Supertone/supertonic-3/resolve/main";

/// The files the synthesizer needs, relative to the model directory.
pub open spec fn required_files() -> Seq<Seq<char>> {
    seq![
        "onnx/duration_predictor.onnx"@,
        "onnx/text_encoder.onnx"@,
        "onnx/vector_estimator.onnx"@,
        "onnx/vocoder.onnx"@,
        "onnx/unicode_indexer.json"@,
        "onnx/tts.json"@,
        "voice_styles/M1.json"@,
        "voice_styles/M2.json"@,
        "voice_styles/M3.json"@,
        "voice_styles/M4.json"@,
        "voice_styles/M5.json"@,
        "voice_styles/F1.json"@,
        "voice_styles/F2.json"@,
        "voice_styles/F3.json"@,
        "voice_styles/F4.json"@,
        "voice_styles/F5.json"@,
    ]
}

/// The files the synthesizer needs, relative to the model directory, in order.
pub fn required_file_names() -> (r: Vec<&'static str>)
    ensures
        r@.len() == required_files().len(),
        forall|k: int| 0 <= k < r@.len() ==> #[trigger] r@[k]@ == required_files()[k],
{
    let names: [&'static str; 16] = [
        "onnx/duration_predictor.onnx",
        "onnx/text_encoder.onnx",
        "onnx/vector_estimator.onnx",
        "onnx/vocoder.onnx",
        "onnx/unicode_indexer.json",
        "onnx/tts.json",
        "voice_styles/M1.json",
        "voice_styles/M2.json",
        "voice_styles/M3.json",
        "voice_styles/M4.json",
        "voice_styles/M5.json",
        "voice_styles/F1.json",
        "voice_styles/F2.json",
        "voice_styles/F3.json",
        "voice_styles/F4.json",
        "voice_styles/F5.json",
    ];
    assert(forall|k: int| 0 <= k < 16 ==> #[trigger] names@[k]@ == required_files()[k]);
    let mut r: Vec<&'static str> = Vec::new();
    let mut i: usize = 0;
    while i < 16
        invariant
            i <= 16,
            r@.len() == i,
            forall|k: int| 0 <= k < 16 ==> #[trigger] names@[k]@ == required_files()[k],
            forall|k: int| 0 <= k < i ==> #[trigger] r@[k]@ == required_files()[k],
        decreases 16 - i,
    {
        r.push(names[i]);
        i = i + 1;
    }
    r
}

/// The files of `req` that are not in `present`, in the order of `req`.
pub open spec fn missing_of(req: Seq<Seq<char>>, present: Seq<Seq<char>>) -> Seq<Seq<char>>
    decreases req.len(),
{
    if req.len() == 0 {
        Seq::empty()
    } else if present.contains(req.last()) {
        missing_of(req.drop_last(), present)
    } else {
        missing_of(req.drop_last(), present).push(req.last())
    }
}

/// Whether a name is among the given strings.
fn contains_name(present: &[String], name: &str) -> (r: bool)
    ensures
        r == strings_of(present@).contains(name@),
{
    let mut i: usize = 0;
    while i < present.len()
        invariant
            i <= present@.len(),
            forall|k: int| 0 <= k < i ==> present@[k]@ != name@,
        decreases present@.len() - i,
    {
        if str_eq(present[i].as_str(), name) {
            assert(strings_of(present@)[i as int] == name@);
            return true;
        }
        i = i + 1;
    }
    assert forall|k: int| 0 <= k < strings_of(present@).len() implies strings_of(present@)[k]
        != name@ by {
        assert(strings_of(present@)[k] == present@[k]@);
    }
    false
}

/// The required files that are not among the files present, in the order
/// in which they are required.
pub fn missing_files(present: &[String]) -> (r: Vec<String>)
    ensures
        strings_of(r@) == missing_of(required_files(), strings_of(present@)),
{
    let names = required_file_names();
    let ghost req = required_files();
    let mut r: Vec<String> = Vec::new();
    let mut i: usize = 0;
    assert(req.take(0) =~= Seq::<Seq<char>>::empty());
    assert(strings_of(r@) =~= Seq::<Seq<char>>::empty());
    while i < names.len()
        invariant
            req == required_files(),
            names@.len() == req.len(),
            forall|k: int| 0 <= k < names@.len() ==> #[trigger] names@[k]@ == req[k],
            i <= names@.len(),
            strings_of(r@) == missing_of(req.take(i as int), strings_of(present@)),
        decreases names@.len() - i,
    {
        assert(req.take(i + 1).drop_last() =~= req.take(i as int));
        assert(req.take(i + 1).last() == names@[i as int]@);
        if !contains_name(present, names[i]) {
            let s = string_of(chars_of(names[i]).as_slice());
            proof { lemma_strings_of_push(r@, s); }
            r.push(s);
        }
        i = i + 1;
    }
    assert(req.take(16) =~= req);
    r
}

/// Whether every required file is present.
pub fn is_model_ready(present: &[String]) -> (r: bool)
    ensures
        r == (forall|k: int| 0 <= k < required_files().len() ==> strings_of(present@).contains(
            #[trigger] required_files()[k],
        )),
{
    let names = required_file_names();
    let mut i: usize = 0;
    while i < names.len()
        invariant
            names@.len() == required_files().len(),
            forall|k: int| 0 <= k < names@.len() ==> #[trigger] names@[k]@ == required_files()[k],
            i <= names@.len(),
            forall|k: int| 0 <= k < i ==> strings_of(present@).contains(#[trigger] required_files()[k]),
        decreases names@.len() - i,
    {
        if !contains_name(present, names[i]) {
            return false;
        }
        i = i + 1;
    }
    true
}

/// Nothing is missing exactly when every required file is present.
pub proof fn lemma_missing_empty_iff(req: Seq<Seq<char>>, present: Seq<Seq<char>>)
    ensures
        (missing_of(req, present).len() == 0) == (forall|k: int| 0 <= k < req.len() ==> present.contains(
            #[trigger] req[k],
        )),
    decreases req.len(),
{
    if req.len() > 0 {
        lemma_missing_empty_iff(req.drop_last(), present);
        if present.contains(req.last()) {
            if missing_of(req.drop_last(), present).len() == 0 {
                assert forall|k: int| 0 <= k < req.len() implies present.contains(#[trigger] req[k]) by {
                    if k < req.len() - 1 {
                        assert(req[k] == req.drop_last()[k]);
                    }
                }
            } else {
                let k = choose|k: int| 0 <= k < req.drop_last().len() && !present.contains(#[trigger] req.drop_last()[k]);
                assert(req[k] == req.drop_last()[k]);
            }
        }
    }
}

/// The model is ready exactly when no file is missing.
pub proof fn lemma_ready_iff_nothing_missing(present: Seq<Seq<char>>)
    ensures
        (missing_of(required_files(), present).len() == 0) == (forall|k: int|
            0 <= k < required_files().len() ==> present.contains(#[trigger] required_files()[k])),
{
    lemma_missing_empty_iff(required_files(), present);
}

/// A model directory is complete, with nothing missing, exactly when it holds
/// these sixteen files: the four models, the text indexer, the configuration
/// and the ten voice styles.
pub proof fn lemma_complete_model_directory(present: Seq<Seq<char>>)
    ensures
        (missing_of(required_files(), present).len() == 0) == ({
            &&& present.contains("onnx/duration_predictor.onnx"@)
            &&& present.contains("onnx/text_encoder.onnx"@)
            &&& present.contains("onnx/vector_estimator.onnx"@)
            &&& present.contains("onnx/vocoder.onnx"@)
            &&& present.contains("onnx/unicode_indexer.json"@)
            &&& present.contains("onnx/tts.json"@)
            &&& present.contains("voice_styles/M1.json"@)
            &&& present.contains("voice_styles/M2.json"@)
            &&& present.contains("voice_styles/M3.json"@)
            &&& present.contains("voice_styles/M4.json"@)
            &&& present.contains("voice_styles/M5.json"@)
            &&& present.contains("voice_styles/F1.json"@)
            &&& present.contains("voice_styles/F2.json"@)
            &&& present.contains("voice_styles/F3.json"@)
            &&& present.contains("voice_styles/F4.json"@)
            &&& present.contains("voice_styles/F5.json"@)
        }),
{
    let req = required_files();
    lemma_missing_empty_iff(req, present);
    if forall|k: int| 0 <= k < req.len() ==> present.contains(#[trigger] req[k]) {
        assert(present.contains(req[0]));
        assert(present.contains(req[1]));
        assert(present.contains(req[2]));
        assert(present.contains(req[3]));
        assert(present.contains(req[4]));
        assert(present.contains(req[5]));
        assert(present.contains(req[6]));
        assert(present.contains(req[7]));
        assert(present.contains(req[8]));
        assert(present.contains(req[9]));
        assert(present.contains(req[10]));
        assert(present.contains(req[11]));
        assert(present.contains(req[12]));
        assert(present.contains(req[13]));
        assert(present.contains(req[14]));
        assert(present.contains(req[15]));
    }
}

/// The address of a model file: the base address, a slash, the file.
pub fn download_url(base_url: &str, file: &str) -> (r: String)
    ensures
        r@ == base_url@ + seq!['/'] + file@,
{
    let mut v = chars_of(base_url);
    v.push('/');
    let f = chars_of(file);
    append_chars(&mut v, f.as_slice());
    string_of(v.as_slice())
}

/// The progress reported when the download of file `i` of `total` starts:
/// the share of files already done, in percent, but at least 1.
pub open spec fn start_progress(i: int, total: int) -> int {
    if i * 100 / total >= 1 {
        i * 100 / total
    } else {
        1
    }
}

/// The progress reported when the download of file `file_index` of
/// `total_files` starts.
pub fn initial_progress(file_index: u64, total_files: u64) -> (r: u64)
    requires
        total_files > 0,
        file_index * 100 <= u64::MAX,
    ensures
        r == start_progress(file_index as int, total_files as int),
{
    let p = file_index * 100 / total_files;
    if p >= 1 {
        p
    } else {
        1
    }
}

/// The share of one file downloaded, in percent: by the announced size when
/// there is one, else 50 once anything arrived.
pub open spec fn file_share(downloaded: int, total_size: int) -> int {
    if total_size > 0 {
        downloaded * 100 / total_size
    } else if downloaded > 0 {
        50
    } else {
        0
    }
}

/// The share of one file downloaded, in percent (see `file_share`).
pub fn file_progress(downloaded: u64, total_size: u64) -> (r: u64)
    requires
        total_size > 0 ==> downloaded * 100 <= u64::MAX,
    ensures
        r == file_share(downloaded as int, total_size as int),
{
    if total_size > 0 {
        downloaded * 100 / total_size
    } else if downloaded > 0 {
        50
    } else {
        0
    }
}

/// The progress to report after a piece of file `i` of `total` arrived,
/// given the last progress reported: the overall share, never below the last
/// and never above 99, reported only when it grew.
pub open spec fn progress_after(
    i: int,
    total: int,
    downloaded: int,
    total_size: int,
    last: int,
) -> Option<int> {
    let overall = (i * 100 + file_share(downloaded, total_size)) / total;
    let p0 = if overall >= last {
        overall
    } else {
        last
    };
    let p = if p0 <= 99 {
        p0
    } else {
        99
    };
    if p > last {
        Some(p)
    } else {
        None
    }
}

/// The progress to report, if any, after a piece of file `file_index` of
/// `total_files` arrived.
pub fn next_progress(
    file_index: u64,
    total_files: u64,
    downloaded: u64,
    total_size: u64,
    last: u64,
) -> (r: Option<u64>)
    requires
        total_files > 0,
        total_size > 0 ==> downloaded * 100 <= u64::MAX,
        file_index * 100 + file_share(downloaded as int, total_size as int) <= u64::MAX,
    ensures
        match r {
            Some(p) => progress_after(
                file_index as int,
                total_files as int,
                downloaded as int,
                total_size as int,
                last as int,
            ) == Some(p as int),
            None => progress_after(
                file_index as int,
                total_files as int,
                downloaded as int,
                total_size as int,
                last as int,
            ) is None,
        },
{
    let share = file_progress(downloaded, total_size);
    let overall = (file_index * 100 + share) / total_files;
    let p0 = if overall >= last {
        overall
    } else {
        last
    };
    let p = if p0 <= 99 {
        p0
    } else {
        99
    };
    if p > last {
        Some(p)
    } else {
        None
    }
}

/// Whether a download stopped short of the size the server announced.
pub fn download_incomplete(downloaded: u64, total_size: u64) -> (r: bool)
    ensures
        r == (total_size > 0 && downloaded < total_size),
{
    total_size > 0 && downloaded < total_size
}

/// Reported progress only grows and stays below 100 while files download.
pub proof fn lemma_progress_grows(i: int, total: int, downloaded: int, total_size: int, last: int)
    requires
        total > 0,
        i >= 0,
        downloaded >= 0,
        total_size >= 0,
    ensures
        progress_after(i, total, downloaded, total_size, last) matches Some(p) ==> last < p <= 99,
{
}

/// While a file downloads no further than its announced size, the progress
/// reported does not pass the share of the files up to and including it, so
/// the start of the next file never reports less.
pub proof fn lemma_progress_within_file(
    i: int,
    total: int,
    downloaded: int,
    total_size: int,
    last: int,
)
    requires
        total > 0,
        i >= 0,
        0 <= downloaded,
        total_size >= 0,
        total_size > 0 ==> downloaded <= total_size,
        last <= start_progress(i + 1, total),
    ensures
        progress_after(i, total, downloaded, total_size, last) matches Some(p) ==> p
            <= start_progress(i + 1, total),
{
    let share = file_share(downloaded, total_size);
    if total_size > 0 {
        assert(downloaded * 100 <= total_size * 100) by (nonlinear_arith)
            requires
                downloaded <= total_size,
        ;
        vstd::arithmetic::div_mod::lemma_div_is_ordered(downloaded * 100, total_size * 100, total_size);
        vstd::arithmetic::div_mod::lemma_div_multiples_vanish(100, total_size);
        assert(total_size * 100 == 100 * total_size) by (nonlinear_arith);
    }
    assert(share <= 100);
    vstd::arithmetic::div_mod::lemma_div_is_ordered(i * 100 + share, (i + 1) * 100, total);
}

} // verus!
