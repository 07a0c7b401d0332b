//! The text recognition stages: their errors, the detection stage and the
//! engine placeholders, and the decoding of the recogniser's output once
//! the best class of every time step is known.

use vstd::prelude::*;
use crate::lookup_text::string_views;

verus! {

/// Why the screen could not be captured.
#[derive(Debug)]
pub enum CaptureError {
    /// The list of screens could not be read.
    ScreensUnavailable(String),
    /// The screen could not be captured.
    CaptureFailed(String),
    /// The captured frame has a wrong size.
    InvalidFrame(String),
    /// The frame could not be turned into an image.
    InvalidImage(String),
}

/// Why recognition failed.
#[derive(Debug)]
pub enum OcrError {
    /// The model could not be loaded or run.
    Engine(String),
    /// The image is not usable.
    InvalidImage(String),
    /// Recognition itself failed.
    Recognition(String),
}

/// The stage that finds the text areas of an image.
pub struct DetectionStage;

impl DetectionStage {
    pub fn new() -> (r: DetectionStage) {
        DetectionStage
    }
}

/// The PP-OCRv5 engine; its models are loaded by the application.
pub struct PaddleOcrEngine {}

impl PaddleOcrEngine {
    /// Creates the engine; nothing can fail yet.
    pub fn new() -> (r: Result<PaddleOcrEngine, OcrError>)
        ensures
            r is Ok,
    {
        Ok(PaddleOcrEngine {})
    }
}

/// The state of CTC decoding after some time steps: the text so far, the
/// steps whose characters were kept, and the class of the previous step
/// (`None` before the first).
pub open spec fn ctc_state(best: Seq<usize>, dictionary: Seq<Seq<char>>) -> (Seq<char>, Seq<int>, Option<usize>)
    decreases best.len(),
{
    if best.len() == 0 {
        (Seq::empty(), Seq::empty(), None)
    } else {
        let (text, kept, previous) = ctc_state(best.drop_last(), dictionary);
        let t = best.len() - 1;
        let class = best.last();
        if class == 0 {
            (text, kept, Some(0usize))
        } else if previous == Some(class) {
            (text, kept, previous)
        } else if class - 1 < dictionary.len() {
            (text + dictionary[class - 1], kept.push(t), Some(class))
        } else {
            (text, kept, Some(class))
        }
    }
}

/// The decoded text of a recognition: the characters of the best classes,
/// where class 0 is the CTC blank, a class repeated at the next step is
/// kept once (a blank between two equal classes keeps both), and class `c`
/// is dictionary entry `c - 1` (classes beyond the dictionary give nothing).
/// `kept_steps` are the steps whose scores make up the confidence.
pub struct CtcText {
    pub text: String,
    pub kept_steps: Vec<usize>,
}

/// Decodes the best class of every time step.
pub fn decode_ctc_classes(best: &Vec<usize>, dictionary: &Vec<String>) -> (r: CtcText)
    ensures
        r.text@ == ctc_state(best@, string_views(dictionary@)).0,
        r.kept_steps@.map_values(|t: usize| t as int) == ctc_state(best@, string_views(dictionary@)).1,
{
    let ghost dict = string_views(dictionary@);
    let mut text = String::new();
    let mut kept: Vec<usize> = Vec::new();
    let mut previous: Option<usize> = None;
    let mut t: usize = 0;
    while t < best.len()
        invariant
            dict == string_views(dictionary@),
            t <= best.len(),
            ctc_state(best@.take(t as int), dict) == (text@, kept@.map_values(|s: usize| s as int), previous),
        decreases best.len() - t,
    {
        assert(best@.take(t + 1).drop_last() == best@.take(t as int));
        let class = best[t];
        let ghost kept_before = kept@;
        if class == 0 {
            previous = Some(0);
        } else if previous == Some(class) {
        } else {
            if class - 1 < dictionary.len() {
                text.push_str(dictionary[class - 1].as_str());
                kept.push(t);
                assert(kept@.map_values(|s: usize| s as int) == kept_before.map_values(|s: usize| s as int).push(
                    t as int,
                ));
            }
            previous = Some(class);
        }
        t = t + 1;
    }
    assert(best@.take(best.len() as int) == best@);
    CtcText { text, kept_steps: kept }
}

/// After a non-empty sequence of steps the decoder remembers the class of
/// the last step.
proof fn lemma_ctc_previous(best: Seq<usize>, dictionary: Seq<Seq<char>>)
    requires
        best.len() > 0,
    ensures
        ctc_state(best, dictionary).2 == Some(best.last()),
    decreases best.len(),
{
    if best.len() > 1 {
        lemma_ctc_previous(best.drop_last(), dictionary);
    }
}

/// A class held for one more step adds nothing: repeating the last
/// non-blank class leaves the text and the kept steps as they were, however
/// long the run already is.
pub proof fn lemma_ctc_repeat_adds_nothing(best: Seq<usize>, dictionary: Seq<Seq<char>>)
    requires
        best.len() > 0,
        best.last() != 0,
    ensures
        ctc_state(best.push(best.last()), dictionary).0 == ctc_state(best, dictionary).0,
        ctc_state(best.push(best.last()), dictionary).1 == ctc_state(best, dictionary).1,
{
    lemma_ctc_previous(best, dictionary);
    assert(best.push(best.last()).drop_last() == best);
}

/// `k` steps of class `c`.
pub open spec fn class_run(c: usize, k: nat) -> Seq<usize> {
    Seq::new(k, |t: int| c)
}

/// A run of `k >= 1` steps of one non-blank class `c` with no blank between
/// them decodes to dictionary entry `c - 1` once, kept at step 0.
pub proof fn lemma_ctc_run_decodes_once(c: usize, k: nat, dictionary: Seq<Seq<char>>)
    requires
        k >= 1,
        1 <= c <= dictionary.len(),
    ensures
        ctc_state(class_run(c, k), dictionary).0 == dictionary[c - 1],
        ctc_state(class_run(c, k), dictionary).1 == seq![0int],
    decreases k,
{
    let run = class_run(c, k);
    if k == 1 {
        assert(run.drop_last() =~= Seq::<usize>::empty());
        assert(run.last() == c);
        let e = ctc_state(Seq::<usize>::empty(), dictionary);
        assert(e == (Seq::<char>::empty(), Seq::<int>::empty(), None::<usize>));
        assert(Seq::<char>::empty() + dictionary[c - 1] =~= dictionary[c - 1]);
        assert(Seq::<int>::empty().push(0) =~= seq![0int]);
    } else {
        let shorter = class_run(c, (k - 1) as nat);
        lemma_ctc_run_decodes_once(c, (k - 1) as nat, dictionary);
        assert(shorter.push(shorter.last()) =~= run);
        lemma_ctc_repeat_adds_nothing(shorter, dictionary);
    }
}

} // verus!
