//! How inference sessions are set up: which models run on the GPU and how
//! many threads each uses.
use vstd::prelude::*;
use crate::text::str_eq;

verus! {

/// The four models of the synthesizer.
#[derive(Clone, Copy, Debug, PartialEq, Eq, Structural)]
pub enum SessionKind {
    DurationPredictor,
    TextEncoder,
    VectorEstimator,
    Vocoder,
}

/// Whether a model runs on DirectML: only on Windows, unless
/// `TTS_DISABLE_DML` is `1`, and only the vector estimator and the vocoder.
pub open spec fn runs_on_dml(kind: SessionKind, on_windows: bool, disable_dml: Option<Seq<char>>) -> bool {
    &&& on_windows
    &&& disable_dml != Some("1"@)
    &&& (kind == SessionKind::VectorEstimator || kind == SessionKind::Vocoder)
}

/// Whether the model of this kind runs on DirectML, given whether the
/// program runs on Windows and the value of `TTS_DISABLE_DML`, if set.
pub fn want_dml(kind: SessionKind, on_windows: bool, disable_dml: Option<&str>) -> (r: bool)
    ensures
        r == runs_on_dml(
            kind,
            on_windows,
            match disable_dml {
                Some(v) => Some(v@),
                None => None,
            },
        ),
{
    if !on_windows {
        return false;
    }
    match disable_dml {
        Some(v) => {
            if str_eq(v, "1") {
                return false;
            }
        },
        None => {},
    }
    match kind {
        SessionKind::VectorEstimator | SessionKind::Vocoder => true,
        _ => false,
    }
}

/// The value of a sequence of decimal digits.
pub open spec fn decimal_value(digits: Seq<char>) -> int
    decreases digits.len(),
{
    if digits.len() == 0 {
        0
    } else {
        decimal_value(digits.drop_last()) * 10 + (digits.last() as int - '0' as int)
    }
}

/// Whether every character is an ASCII digit.
pub open spec fn all_ascii_digits(s: Seq<char>) -> bool {
    forall|i: int| 0 <= i < s.len() ==> '0' <= #[trigger] s[i] <= '9'
}

/// What `str::parse::<usize>` gives for a text: an optional `+` followed by
/// one or more ASCII digits whose value fits in a `usize`; anything else
/// (an empty text, a sign alone, white space, other characters, overflow) is
/// an error.
pub open spec fn parsed_usize(s: Seq<char>) -> Option<usize> {
    let digits = if s.len() > 0 && s[0] == '+' {
        s.drop_first()
    } else {
        s
    };
    if digits.len() > 0 && all_ascii_digits(digits) && decimal_value(digits) <= usize::MAX {
        Some(decimal_value(digits) as usize)
    } else {
        None
    }
}

/// Calls `str::parse::<usize>`, which accepts exactly an optional `+` and
/// decimal digits whose value fits in a `usize`.
#[verifier::external_body]
fn parse_usize_str(s: &str) -> (r: Option<usize>)
    ensures
        r == parsed_usize(s@),
{
    s.parse::<usize>().ok()
}

/// The number of intra-op threads: a parsed `TTS_INTRA_THREADS`, at least 1;
/// otherwise the available parallelism (2 when unknown) bounded to 2..=4.
pub open spec fn intra_threads(parsed: Option<usize>, parallelism: Option<usize>) -> usize {
    match parsed {
        Some(n) => if n >= 1 {
            n
        } else {
            1
        },
        None => {
            let p = match parallelism {
                Some(p) => p,
                None => 2,
            };
            if p < 2 {
                2
            } else if p > 4 {
                4
            } else {
                p
            }
        },
    }
}

/// The number of intra-op threads, from the parsed environment value and the
/// available parallelism.
pub fn intra_threads_from(parsed: Option<usize>, parallelism: Option<usize>) -> (r: usize)
    ensures
        r == intra_threads(parsed, parallelism),
{
    match parsed {
        Some(n) => if n >= 1 {
            n
        } else {
            1
        },
        None => {
            let p = match parallelism {
                Some(p) => p,
                None => 2,
            };
            if p < 2 {
                2
            } else if p > 4 {
                4
            } else {
                p
            }
        },
    }
}

/// The number of intra-op threads, from the value of `TTS_INTRA_THREADS`, if
/// set, and the available parallelism, if known.
pub fn recommended_intra_threads(env_value: Option<&str>, parallelism: Option<usize>) -> (r: usize)
    ensures
        r == intra_threads(
            match env_value {
                Some(v) => parsed_usize(v@),
                None => None,
            },
            parallelism,
        ),
        r >= 1,
{
    let parsed = match env_value {
        Some(v) => parse_usize_str(v),
        None => None,
    };
    intra_threads_from(parsed, parallelism)
}

} // verus!
