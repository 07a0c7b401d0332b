//! Settings of the recognition engine read from the environment: the
//! number of inference threads, the recognition batch size and the choice
//! of DirectML.

use vstd::prelude::*;
use crate::storage::fold_ascii_seq;
use crate::text::chars_of;

verus! {

/// Most inference threads used when none are configured.
pub const OCR_INFERENCE_THREADS_CAP: usize = 8;

/// Recognition batch size used when none is configured.
pub const OCR_REC_BATCH_DEFAULT: usize = 2;

/// The value of a run of decimal digits.
pub open spec fn digits_value(digits: Seq<char>) -> int
    decreases digits.len(),
{
    if digits.len() == 0 {
        0
    } else {
        digits_value(digits.drop_last()) * 10 + (digits.last() as int - '0' as int)
    }
}

/// The number `str::parse::<usize>` reads from a text: an optional `+`
/// followed by one or more ASCII digits whose value fits in `usize`;
/// anything else reads no number.
pub open spec fn parsed_usize(text: Seq<char>) -> Option<usize> {
    let digits = if text.len() > 0 && text[0] == '+' {
        text.drop_first()
    } else {
        text
    };
    if digits.len() > 0 && (forall|k: int| 0 <= k < digits.len() ==> '0' <= #[trigger] digits[k] <= '9')
        && digits_value(digits) <= usize::MAX {
        Some(digits_value(digits) as usize)
    } else {
        None
    }
}

/// `str::parse::<usize>`.
#[verifier::external_body]
fn parse_usize(text: &str) -> (r: Option<usize>)
    ensures
        r == parsed_usize(text@),
{
    text.parse::<usize>().ok()
}

/// A configured number, when it parses and lies in `lo..=hi`.
pub open spec fn setting_in_range(setting: Option<&str>, lo: usize, hi: usize) -> Option<usize> {
    match setting {
        Some(text) => match parsed_usize(text@) {
            Some(n) => if lo <= n <= hi {
                Some(n)
            } else {
                None
            },
            None => None,
        },
        None => None,
    }
}

fn read_setting_in_range(setting: Option<&str>, lo: usize, hi: usize) -> (r: Option<usize>)
    ensures
        r == setting_in_range(setting, lo, hi),
{
    match setting {
        Some(text) => match parse_usize(text) {
            Some(n) => if lo <= n && n <= hi {
                Some(n)
            } else {
                None
            },
            None => None,
        },
        None => None,
    }
}

/// Inference threads: the `ARMADILLO_OCR_THREADS` setting when it is a
/// number from 1 to 32; otherwise the available parallelism (4 when
/// unknown), at most 8.
pub fn ocr_thread_count(setting: Option<&str>, available: Option<usize>) -> (r: usize)
    ensures
        r == match setting_in_range(setting, 1, 32) {
            Some(n) => n,
            None => {
                let a = match available {
                    Some(a) => a,
                    None => 4,
                };
                if a < OCR_INFERENCE_THREADS_CAP {
                    a
                } else {
                    OCR_INFERENCE_THREADS_CAP
                }
            },
        },
{
    match read_setting_in_range(setting, 1, 32) {
        Some(n) => n,
        None => {
            let a = match available {
                Some(a) => a,
                None => 4,
            };
            if a < OCR_INFERENCE_THREADS_CAP {
                a
            } else {
                OCR_INFERENCE_THREADS_CAP
            }
        },
    }
}

/// Recognition batch size: the `ARMADILLO_OCR_REC_BATCH` setting when it
/// is a number from 1 to 64, else 2.
pub fn ocr_rec_batch(setting: Option<&str>) -> (r: usize)
    ensures
        r == match setting_in_range(setting, 1, 64) {
            Some(n) => n,
            None => OCR_REC_BATCH_DEFAULT,
        },
{
    match read_setting_in_range(setting, 1, 64) {
        Some(n) => n,
        None => OCR_REC_BATCH_DEFAULT,
    }
}

/// Whether `ARMADILLO_OCR_EP` asks for DirectML: `dml` or `directml`, ASCII
/// letters in any case.
pub fn use_direct_ml(setting: Option<&str>) -> (r: bool)
    ensures
        r == match setting {
            Some(v) => fold_ascii_seq(v@) == "dml"@ || fold_ascii_seq(v@) == "directml"@,
            None => false,
        },
{
    match setting {
        Some(value) => {
            let v = chars_of(value);
            let dml = chars_of("dml");
            let directml = chars_of("directml");
            proof {
                reveal_strlit("dml");
                reveal_strlit("directml");
                assert(fold_ascii_seq(dml@) == dml@);
                assert(fold_ascii_seq(directml@) == directml@);
            }
            equals_ignoring_ascii_case(&v, &dml) || equals_ignoring_ascii_case(&v, &directml)
        },
        None => false,
    }
}

fn fold_char(c: char) -> (r: char)
    ensures
        r == crate::storage::fold_ascii(c),
{
    if 'A' <= c && c <= 'Z' {
        ((c as u8) + 32) as char
    } else {
        c
    }
}

/// `str::eq_ignore_ascii_case` against a lower-case word.
fn equals_ignoring_ascii_case(a: &Vec<char>, lower: &Vec<char>) -> (r: bool)
    requires
        fold_ascii_seq(lower@) == lower@,
    ensures
        r == (fold_ascii_seq(a@) == lower@),
{
    if a.len() != lower.len() {
        assert(fold_ascii_seq(a@).len() == a@.len());
        return false;
    }
    let mut i: usize = 0;
    while i < a.len()
        invariant
            a.len() == lower.len(),
            i <= a.len(),
            fold_ascii_seq(lower@) == lower@,
            forall|k: int| 0 <= k < i ==> crate::storage::fold_ascii(a@[k]) == lower@[k],
        decreases a.len() - i,
    {
        if fold_char(a[i]) != lower[i] {
            assert(fold_ascii_seq(a@)[i as int] != lower@[i as int]);
            return false;
        }
        i = i + 1;
    }
    assert(fold_ascii_seq(a@) == lower@);
    true
}

} // verus!
