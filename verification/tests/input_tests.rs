use armadillo_learn_desktop::click_flow::{lookup_request, ClickAction, ClickFlow, LookupDelivery};
use armadillo_learn_desktop::input::{
    hotkey_event, key_is_down, keyboard_event, middle_click, mouse_event, InputEvent, MouseClick,
    VK_P, WM_HOTKEY, WM_KEYDOWN, WM_MBUTTONDOWN, WM_SYSKEYDOWN,
};
use armadillo_learn_desktop::lookup_flow::LookupResult;

#[test]
fn key_presses_dismiss_except_ctrl_p() {
    assert_eq!(keyboard_event(0, WM_KEYDOWN, 0x41, false), Some(InputEvent::Dismiss));
    assert_eq!(keyboard_event(0, WM_SYSKEYDOWN, 0x41, true), Some(InputEvent::Dismiss));
    assert_eq!(keyboard_event(0, WM_KEYDOWN, VK_P, true), None);
    assert_eq!(keyboard_event(0, WM_KEYDOWN, VK_P, false), Some(InputEvent::Dismiss));
    assert_eq!(keyboard_event(0, 0x0101, 0x41, false), None);
    assert_eq!(keyboard_event(-1, WM_KEYDOWN, 0x41, false), None);
}

#[test]
fn middle_button_asks_for_lookup() {
    assert_eq!(mouse_event(0, WM_MBUTTONDOWN as usize, 10, -20), Some(InputEvent::Lookup { x: 10, y: -20 }));
    assert_eq!(mouse_event(0, 0x0201, 10, 20), None);
    assert_eq!(mouse_event(-1, WM_MBUTTONDOWN as usize, 10, 20), None);
    assert_eq!(middle_click(0, WM_MBUTTONDOWN as usize, 3, 4), Some(MouseClick { x: 3, y: 4 }));
    assert_eq!(hotkey_event(WM_HOTKEY, 7, 8), Some(InputEvent::Lookup { x: 7, y: 8 }));
    assert_eq!(hotkey_event(WM_KEYDOWN, 7, 8), None);
}

#[test]
fn key_state_high_bit() {
    assert!(key_is_down(i16::MIN));
    assert!(key_is_down(-32767));
    assert!(!key_is_down(1));
    assert!(!key_is_down(0));
}

fn result() -> LookupResult {
    LookupResult {
        word: "run".to_string(),
        sentence_translation: "Бег.".to_string(),
        word_translation: "бег".to_string(),
        meaning: String::new(),
        synonyms: Vec::new(),
        part_of_speech: "noun".to_string(),
        topic: String::new(),
    }
}

#[test]
fn second_click_closes_the_overlay() {
    let mut flow = ClickFlow::new();
    assert_eq!(flow.on_input(InputEvent::Dismiss), ClickAction::Nothing);
    assert_eq!(flow.on_input(InputEvent::Lookup { x: 5, y: 6 }), ClickAction::StartLookup { x: 5, y: 6 });
    match flow.on_lookup_done(5, 6, Ok(result())) {
        LookupDelivery::ShowResult { result, x, y } => {
            assert_eq!((x, y), (5, 6));
            assert_eq!(result.word, "run");
        }
        LookupDelivery::ReportError(_) => panic!("result expected"),
    }
    assert!(flow.visible);
    assert_eq!(flow.on_input(InputEvent::Lookup { x: 9, y: 9 }), ClickAction::HideOverlay);
    assert!(!flow.visible);
}

#[test]
fn failed_lookup_reports_error_and_any_key_hides() {
    let mut flow = ClickFlow::new();
    match flow.on_lookup_done(1, 2, Err("OCR detected no text".to_string())) {
        LookupDelivery::ReportError(error) => {
            assert_eq!(error.code, "lookup_failed");
            assert_eq!(error.message, "OCR detected no text");
        }
        LookupDelivery::ShowResult { .. } => panic!("error expected"),
    }
    assert!(!flow.visible);
    flow.visible = true;
    assert_eq!(flow.on_input(InputEvent::Dismiss), ClickAction::HideOverlay);
    assert!(!flow.visible);
}

#[test]
fn lookup_request_checks_word_and_context() {
    assert_eq!(lookup_request("  ", "text").err(), Some("OCR found an empty word under cursor".to_string()));
    assert_eq!(lookup_request(" run ", " \n ").err(), Some("Failed to build OCR context".to_string()));
    let request = lookup_request(" run ", " I run daily. ").unwrap();
    assert_eq!(request.word, "run");
    assert_eq!(request.context, " I run daily. ");
}
