use armadillo_learn_desktop::ai::{translation_prompt, TranslationResult};
use armadillo_learn_desktop::api::{data_uri, reply_content, TranslationResult as ImageTranslation};
use armadillo_learn_desktop::json_reply::{extract_json, extract_reply_json, first_json, json_candidates};
use armadillo_learn_desktop::lookup_text::ModelValue;

#[test]
fn reasoning_blocks_and_fences_are_removed() {
    let raw = "<thinking>plan {x}</thinking>\n```json\n{\"a\": 1}\n```";
    assert_eq!(extract_json(raw), "{\"a\": 1}");
    let think = "<think>hmm</think> Sure! {\"word\":\"run\"} done";
    assert_eq!(extract_reply_json(think), "{\"word\":\"run\"}");
}

#[test]
fn first_parsing_candidate_wins() {
    let raw = "note {not json} then {\"b\": [1, 2]}";
    assert_eq!(
        json_candidates(raw, "<thinking>", "</thinking>"),
        vec!["{not json} then {\"b\": [1, 2]}".to_string(), "{\"b\": [1, 2]}".to_string()]
    );
    assert_eq!(extract_json(raw), "{\"b\": [1, 2]}");
}

#[test]
fn nothing_parses_gives_empty_object() {
    assert_eq!(extract_json("no braces here"), "{}");
    assert_eq!(extract_json("{ broken"), "{}");
    assert_eq!(extract_json(""), "{}");
    assert_eq!(first_json(&vec!["{".to_string(), "[1,]".to_string()]), "{}");
}

#[test]
fn closing_tag_before_opening_tag_stops_cutting() {
    let raw = "</thinking>{\"a\":2}<thinking>";
    assert_eq!(extract_json(raw), "{\"a\":2}");
}

#[test]
fn translation_prompt_holds_sentence_and_word() {
    let prompt = translation_prompt("I run.", "run");
    assert!(prompt.starts_with("Given the English sentence and a specific word from it, provide:\n1. "));
    assert!(prompt.contains("\n\nSentence: \"I run.\"\nWord: \"run\"\n\nRespond with valid JSON only"));
    assert!(prompt.ends_with("\"topic\": \"...\"\n}"));
}

#[test]
fn translation_fields_are_read_leniently() {
    let result = TranslationResult::from_reply(
        &ModelValue::Text("Я бегу.".to_string()),
        &ModelValue::Null,
        &ModelValue::List(vec![Some("jog".to_string()), None, Some(" sprint".to_string())]),
        &ModelValue::Other("5".to_string()),
        &ModelValue::Text("Sport".to_string()),
    );
    assert_eq!(result.sentence_translation, "Я бегу.");
    assert_eq!(result.word_translation, "");
    assert_eq!(result.synonyms, vec!["jog".to_string(), " sprint".to_string()]);
    assert_eq!(result.part_of_speech, "");
    assert_eq!(result.topic, "Sport");
}

#[test]
fn image_request_pieces() {
    assert_eq!(data_uri("image/png", "QUJD"), "data:image/png;base64,QUJD");
    assert_eq!(reply_content(&ModelValue::Text("{\"a\":1}".to_string())), "{\"a\":1}");
    assert_eq!(reply_content(&ModelValue::Null), "{}");
    let result = ImageTranslation::from_reply(
        &ModelValue::Text("I run.".to_string()),
        &ModelValue::Text("run".to_string()),
        &ModelValue::Text("Я бегу.".to_string()),
        &ModelValue::Text("бегу".to_string()),
        &ModelValue::Text("jog".to_string()),
        &ModelValue::Text("verb".to_string()),
        &ModelValue::Null,
    );
    assert_eq!(result.sentence, "I run.");
    assert_eq!(result.word, "run");
    assert!(result.synonyms.is_empty());
    assert_eq!(result.topic, "");
}
