//! Global input: the events the hooks report, and which raw Windows
//! messages become which event.

use vstd::prelude::*;

verus! {

/// `WM_KEYDOWN`: a key was pressed.
pub const WM_KEYDOWN: u32 = 0x0100;

/// `WM_SYSKEYDOWN`: a key was pressed together with Alt (or F10).
pub const WM_SYSKEYDOWN: u32 = 0x0104;

/// `WM_MBUTTONDOWN`: the middle mouse button was pressed.
pub const WM_MBUTTONDOWN: u32 = 0x0207;

/// `WM_HOTKEY`: a registered hot key was pressed.
pub const WM_HOTKEY: u32 = 0x0312;

/// Virtual-key code of the P key.
pub const VK_P: u32 = 0x50;

/// What the hooks report to the click pipeline.
#[derive(Debug, Clone, Copy, PartialEq, Eq, Structural)]
pub enum InputEvent {
    /// Show the overlay for the text under the cursor (Ctrl+P or the
    /// middle mouse button).
    Lookup { x: i32, y: i32 },
    /// Any other key press: hide the overlay.
    Dismiss,
}

/// A middle click at a screen position.
#[derive(Debug, Clone, Copy, PartialEq, Eq, Structural)]
pub struct MouseClick {
    pub x: i32,
    pub y: i32,
}

/// Whether a key is held, from a `GetAsyncKeyState` reading: its most
/// significant bit is set (the reading is negative).
pub fn key_is_down(state: i16) -> (r: bool)
    ensures
        r == (state < 0),
{
    let bits = state as u16;
    let down = bits & 0x8000u16 != 0;
    assert(down == (state < 0)) by (bit_vector)
        requires
            bits == state as u16,
            down == (bits & 0x8000u16 != 0),
    ;
    down
}

/// The event of a low-level keyboard hook call: a key press (with or
/// without Alt) dismisses the overlay, except Ctrl+P, which the hot key
/// reports as a lookup. Key releases and calls with a negative code report
/// nothing.
pub fn keyboard_event(code: i32, message: u32, vk_code: u32, ctrl_down: bool) -> (r: Option<InputEvent>)
    ensures
        r == if code >= 0 && (message == WM_KEYDOWN || message == WM_SYSKEYDOWN) && !(vk_code == VK_P
            && ctrl_down) {
            Some(InputEvent::Dismiss)
        } else {
            None
        },
{
    if code >= 0 && (message == WM_KEYDOWN || message == WM_SYSKEYDOWN) {
        let is_ctrl_p = vk_code == VK_P && ctrl_down;
        if !is_ctrl_p {
            return Some(InputEvent::Dismiss);
        }
    }
    None
}

/// The middle click of a low-level mouse hook call, if the call reports
/// one (a non-negative code and a middle button press).
pub fn middle_click(code: i32, message: usize, x: i32, y: i32) -> (r: Option<MouseClick>)
    ensures
        r == if code >= 0 && message == WM_MBUTTONDOWN {
            Some(MouseClick { x, y })
        } else {
            None
        },
{
    if code >= 0 && message == WM_MBUTTONDOWN as usize {
        Some(MouseClick { x, y })
    } else {
        None
    }
}

/// The event of a low-level mouse hook call: a middle click asks for a
/// lookup at the click.
pub fn mouse_event(code: i32, message: usize, x: i32, y: i32) -> (r: Option<InputEvent>)
    ensures
        r == if code >= 0 && message == WM_MBUTTONDOWN {
            Some(InputEvent::Lookup { x, y })
        } else {
            None
        },
{
    match middle_click(code, message, x, y) {
        Some(click) => Some(InputEvent::Lookup { x: click.x, y: click.y }),
        None => None,
    }
}

/// The event of a message of the hot key thread: the hot key asks for a
/// lookup at the cursor.
pub fn hotkey_event(message: u32, cursor_x: i32, cursor_y: i32) -> (r: Option<InputEvent>)
    ensures
        r == if message == WM_HOTKEY {
            Some(InputEvent::Lookup { x: cursor_x, y: cursor_y })
        } else {
            None
        },
{
    if message == WM_HOTKEY {
        Some(InputEvent::Lookup { x: cursor_x, y: cursor_y })
    } else {
        None
    }
}

} // verus!
