//! The decisions of the click pipeline: what an input event does to the
//! overlay, what is asked of the provider after a click, and what is shown
//! once the lookup ends. The pipeline in the application performs the
//! screen capture, the recognition and the provider call in between.

use vstd::prelude::*;
use crate::input::InputEvent;
use crate::lookup_flow::{LookupError, LookupResult};
use crate::text::{trimmed, trim_string};

verus! {

/// What the pipeline does for an input event.
#[derive(Debug, Clone, Copy, PartialEq, Eq, Structural)]
pub enum ClickAction {
    /// Nothing to do.
    Nothing,
    /// Hide the overlay.
    HideOverlay,
    /// Capture the screen around the point and look up the word there.
    StartLookup { x: i32, y: i32 },
}

/// What the pipeline shows once a lookup ended.
pub enum LookupDelivery {
    /// Send the result to the overlay and show it at the click.
    ShowResult { result: LookupResult, x: i32, y: i32 },
    /// Send the error to the overlay.
    ReportError(LookupError),
}

/// Whether the overlay is shown.
pub struct ClickFlow {
    pub visible: bool,
}

/// The overlay's visibility and the action after an input event: a lookup
/// click while the overlay is shown closes it (a second click closes), any
/// other key closes a shown overlay, and a lookup click while it is hidden
/// starts a lookup.
pub open spec fn input_step(visible: bool, event: InputEvent) -> (bool, ClickAction) {
    match event {
        InputEvent::Lookup { x, y } => if visible {
            (false, ClickAction::HideOverlay)
        } else {
            (false, ClickAction::StartLookup { x, y })
        },
        InputEvent::Dismiss => if visible {
            (false, ClickAction::HideOverlay)
        } else {
            (false, ClickAction::Nothing)
        },
    }
}

/// The error code sent to the overlay when a lookup fails.
pub const LOOKUP_FAILED: &'static str = "lookup_failed";

impl ClickFlow {
    /// The overlay starts hidden.
    pub fn new() -> (r: ClickFlow)
        ensures
            !r.visible,
    {
        ClickFlow { visible: false }
    }

    /// Decides what an input event does.
    pub fn on_input(&mut self, event: InputEvent) -> (a: ClickAction)
        ensures
            (final(self).visible, a) == input_step(old(self).visible, event),
    {
        match event {
            InputEvent::Lookup { x, y } => {
                if self.visible {
                    self.visible = false;
                    ClickAction::HideOverlay
                } else {
                    ClickAction::StartLookup { x, y }
                }
            },
            InputEvent::Dismiss => {
                if self.visible {
                    self.visible = false;
                    ClickAction::HideOverlay
                } else {
                    ClickAction::Nothing
                }
            },
        }
    }

    /// Decides what is shown once the lookup for the click at `(x, y)`
    /// ended: a result is shown at the click (the overlay is then visible);
    /// a failure is reported with the code `lookup_failed` and its message.
    pub fn on_lookup_done(&mut self, x: i32, y: i32, outcome: Result<LookupResult, String>) -> (d: LookupDelivery)
        ensures
            match outcome {
                Ok(result) => final(self).visible && d == LookupDelivery::ShowResult { result, x, y },
                Err(message) => final(self).visible == old(self).visible && (d matches LookupDelivery::ReportError(
                    e,
                ) && e.code@ == LOOKUP_FAILED@ && e.message == message),
            },
    {
        match outcome {
            Ok(result) => {
                self.visible = true;
                LookupDelivery::ShowResult { result, x, y }
            },
            Err(message) => {
                let mut code = String::new();
                code.push_str(LOOKUP_FAILED);
                LookupDelivery::ReportError(LookupError { code, message })
            },
        }
    }
}

/// A click on a shown result closes it: after a delivered result, the next
/// lookup click hides the overlay and starts no lookup.
pub proof fn lemma_second_click_closes(x: i32, y: i32)
    ensures
        input_step(true, InputEvent::Lookup { x, y }) == (false, ClickAction::HideOverlay),
        input_step(false, InputEvent::Lookup { x, y }) == (false, ClickAction::StartLookup { x, y }),
{
}

/// What is asked of the provider: the clicked word and the sentence around
/// it.
pub struct LookupRequest {
    pub word: String,
    pub context: String,
}

/// Checks the recognised text before the provider is asked: the clicked
/// word is trimmed and must not be empty, and the sentence around it must
/// hold more than white space (it is passed on as it is).
pub fn lookup_request(clicked_text: &str, context: &str) -> (r: Result<LookupRequest, String>)
    ensures
        trimmed(clicked_text@).len() == 0 ==> (r matches Err(m) && m@ == "OCR found an empty word under cursor"@),
        trimmed(clicked_text@).len() > 0 && trimmed(context@).len() == 0 ==> (r matches Err(m) && m@
            == "Failed to build OCR context"@),
        trimmed(clicked_text@).len() > 0 && trimmed(context@).len() > 0 ==> (r matches Ok(req) && req.word@
            == trimmed(clicked_text@) && req.context@ == context@),
{
    let word = trim_string(clicked_text);
    if word.as_str().is_empty() {
        return Err("OCR found an empty word under cursor".to_string());
    }
    let trimmed_context = trim_string(context);
    if trimmed_context.as_str().is_empty() {
        return Err("Failed to build OCR context".to_string());
    }
    let mut full_context = String::new();
    full_context.push_str(context);
    Ok(LookupRequest { word, context: full_context })
}

} // verus!
