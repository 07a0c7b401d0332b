use armadillo_learn_desktop::clock::now_ms;
use armadillo_learn_desktop::ocr_config::{ocr_rec_batch, ocr_thread_count, use_direct_ml};
use armadillo_learn_desktop::ocr_filter::{
    alphanumeric_token_is_allowed, has_embedded_digits, has_non_latin_letters, is_acceptable_ocr_text,
    is_latin_letter, split_words,
};
use armadillo_learn_desktop::recognition::{decode_ctc_classes, DetectionStage, PaddleOcrEngine};
use armadillo_learn_desktop::screenshot::{default_path, png_data_url, screenshot_file_name, screenshot_from_base64};
use armadillo_learn_desktop::sentence::{ends_sentence, join_ocr_text, span_boxes};

#[test]
fn text_filter_separates_latin_from_garbage() {
    for text in [
        "dodge", "don't", "10:30", "70%", "café", "naïve", "2nd", "MP3", "F15", "4K", "1080p", "1st", "v2", "3D",
    ] {
        assert!(is_acceptable_ocr_text(text), "«{text}» должно остаться");
    }

    for text in ["Привет", "мир?", "日本語", "한국어", "مرحبا"] {
        assert!(!is_acceptable_ocr_text(text), "«{text}» должно отфильтроваться");
    }

    for text in ["6bl", "cgeran6bl", "4TO-TO"] {
        assert!(!is_acceptable_ocr_text(text), "«{text}» должно отфильтроваться");
    }
}

#[test]
fn filter_pieces() {
    assert!(is_latin_letter('é'));
    assert!(!is_latin_letter('ж'));
    assert!(has_non_latin_letters("abcж"));
    assert!(has_embedded_digits("cgeran6bl"));
    assert!(!has_embedded_digits("MP3"));
    assert!(alphanumeric_token_is_allowed(&"1080p".chars().collect()));
    assert!(!alphanumeric_token_is_allowed(&"6bl".chars().collect()));
}

#[test]
fn words_are_split_on_white_space() {
    let words = split_words("  The rain  stopped. ");
    let texts: Vec<&str> = words.iter().map(|w| w.text.as_str()).collect();
    assert_eq!(texts, vec!["The", "rain", "stopped."]);
    assert_eq!((words[1].start, words[1].end), (6, 10));
}

#[test]
fn ocr_text_is_joined_with_single_spaces() {
    assert_eq!(join_ocr_text(&[" The ", "", "rain", "   ", "stopped."]), "The rain stopped.");
    assert_eq!(join_ocr_text(&[]), "");
}

#[test]
fn semicolon_and_colon_end_sentence_marks() {
    for text in ["go.", "Wait;", "then:", "really?", "yes!", "so…", "\"done.\"", "(see below).", "«so?»", " end. "] {
        assert!(ends_sentence(text), "{text:?} ends a sentence");
    }
    for text in ["go", "", "  ", ")", "a,", "e.g"] {
        assert!(!ends_sentence(text), "{text:?} does not end a sentence");
    }
}

#[test]
fn ctc_collapses_repeats_and_blanks() {
    let dictionary: Vec<String> = ["a", "b", "c"].iter().map(|s| s.to_string()).collect();
    let decoded = decode_ctc_classes(&vec![1, 1, 0, 1, 2, 2, 3, 9, 9, 0], &dictionary);
    assert_eq!(decoded.text, "aabc");
    assert_eq!(decoded.kept_steps, vec![0, 3, 4, 6]);
    let empty = decode_ctc_classes(&vec![0, 0], &dictionary);
    assert_eq!(empty.text, "");
    assert!(empty.kept_steps.is_empty());
}

#[test]
fn recognition_placeholders() {
    let _stage = DetectionStage::new();
    assert!(PaddleOcrEngine::new().is_ok());
}

#[test]
fn ocr_settings() {
    assert_eq!(ocr_thread_count(Some("12"), Some(16)), 12);
    assert_eq!(ocr_thread_count(Some("0"), Some(16)), 8);
    assert_eq!(ocr_thread_count(Some("many"), Some(6)), 6);
    assert_eq!(ocr_thread_count(None, None), 4);
    assert_eq!(ocr_rec_batch(Some("64")), 64);
    assert_eq!(ocr_rec_batch(Some("65")), 2);
    assert_eq!(ocr_rec_batch(None), 2);
    assert!(use_direct_ml(Some("DML")));
    assert!(use_direct_ml(Some("DirectML")));
    assert!(!use_direct_ml(Some("cpu")));
    assert!(!use_direct_ml(None));
}

#[test]
fn screenshots_as_data() {
    assert_eq!(png_data_url(&b"Man".to_vec()), "data:image/png;base64,TWFu");
    assert_eq!(screenshot_from_base64("  TWFu\r\n"), Ok(b"Man".to_vec()));
    let error = screenshot_from_base64("!!!").unwrap_err();
    assert!(error.starts_with("Base64 decode error: "));
    assert_eq!(screenshot_file_name("shot", 1234), "shot_1234.png");
    let path = default_path("screenshot_full");
    let name = path.file_name().unwrap().to_string_lossy().to_string();
    assert!(name.starts_with("screenshot_full_") && name.ends_with(".png"));
}

#[test]
fn clock_runs() {
    let first = now_ms();
    assert!(first > 1_600_000_000_000);
    assert!(now_ms() >= first);
}

#[test]
fn span_runs_across_lines_in_reading_order() {
    let lines = vec![vec![4, 0, 7], vec![1, 2], vec![5, 3, 6, 8]];
    assert_eq!(span_boxes(&lines, 0, 1, 2, 1), vec![0, 7, 1, 2, 5, 3]);
    assert_eq!(span_boxes(&lines, 1, 1, 1, 1), vec![2]);
    assert_eq!(span_boxes(&lines, 2, 0, 2, 3), vec![5, 3, 6, 8]);
    assert_eq!(span_boxes(&lines, 0, 2, 0, 1), Vec::<usize>::new());
}

#[test]
fn sentence_text_from_span() {
    let texts = ["  The", "readiness", " ", "and zeal.", "Next"];
    let lines = vec![vec![0, 1, 2], vec![3, 4]];
    let parts: Vec<&str> = span_boxes(&lines, 0, 0, 1, 0).into_iter().map(|i| texts[i].trim()).filter(|t| !t.is_empty()).collect();
    assert_eq!(join_ocr_text(&parts), "The readiness and zeal.");
}

#[test]
fn default_path_is_a_timestamped_file_in_the_default_folder() {
    let path = armadillo_learn_desktop::screenshot::default_path("screenshot_full");
    let name = path.file_name().unwrap().to_str().unwrap().to_string();
    assert!(name.starts_with("screenshot_full_"));
    assert!(name.ends_with(".png"));
    let digits = &name["screenshot_full_".len()..name.len() - ".png".len()];
    assert!(!digits.is_empty() && digits.chars().all(|c| c.is_ascii_digit()));
    assert_eq!(path.parent().unwrap().to_str().unwrap(), armadillo_learn_desktop::screenshot::DEFAULT_DIR);
}

#[test]
fn settings_read_numbers_as_usize_parsing_does() {
    assert_eq!(ocr_rec_batch(Some("+16")), 16);
    assert_eq!(ocr_rec_batch(Some("007")), 7);
    assert_eq!(ocr_rec_batch(Some("+")), 2);
    assert_eq!(ocr_rec_batch(Some("-4")), 2);
    assert_eq!(ocr_rec_batch(Some(" 4")), 2);
    assert_eq!(ocr_rec_batch(Some("99999999999999999999999")), 2);
}
