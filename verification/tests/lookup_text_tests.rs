use armadillo_learn_desktop::lookup_text::{
    align_word_translation, canonicalize_topic, clean_synonyms, contains_cyrillic, is_transliteration,
    strip_json_fences, synonyms_to_vec, system_prompt, topic_to_string, translit_cyrillic_to_latin,
    ModelValue, TOPICS,
};
use armadillo_learn_desktop::provider::lookup_format_json;

/// The library's form of a JSON value of the model's reply.
fn model_value(value: &serde_json::Value) -> ModelValue {
    match value {
        serde_json::Value::Null => ModelValue::Null,
        serde_json::Value::String(text) => ModelValue::Text(text.clone()),
        serde_json::Value::Array(items) => {
            ModelValue::List(items.iter().map(|item| item.as_str().map(String::from)).collect())
        }
        other => ModelValue::Other(other.to_string()),
    }
}

fn strings(items: &[&str]) -> serde_json::Value {
    serde_json::Value::Array(items.iter().map(|s| serde_json::Value::String(s.to_string())).collect())
}

#[test]
fn align_returns_exact_form_when_already_present() {
    let sentence = "Данные эффективно уменьшаются за счёт сжатия перед записью.";

    assert_eq!(
        align_word_translation("сжатия", sentence),
        "сжатия",
        "точное вхождение должно возвращаться как есть"
    );
}

#[test]
fn align_fixes_case_mismatch() {
    let sentence = "Сжатие уменьшает объём данных.";

    assert_eq!(
        align_word_translation("сжатие", sentence),
        "Сжатие",
        "регистронезависимое вхождение должно вернуть форму из перевода"
    );
}

#[test]
fn align_fixes_grammatical_form_via_stem() {
    let sentence = "Это ускоряет кэширование страниц.";

    assert_eq!(
        align_word_translation("кэширования", sentence),
        "кэширование",
        "стем-совпадение должно вернуть реальную форму из перевода"
    );
}

#[test]
fn align_fixes_derived_form_via_common_prefix() {
    let sentence = "Файлы компрессируются перед их загрузкой на сервер.";

    assert_eq!(
        align_word_translation("компрессированный", sentence),
        "компрессируются",
        "совпадение по общему префиксу должно вернуть форму из перевода"
    );
}

#[test]
fn align_rejects_short_common_prefix() {
    let sentence = "Файлы сжимаются перед записью.";

    assert_eq!(
        align_word_translation("сжатие", sentence),
        "сжатие",
        "короткий общий префикс не должен считаться однокоренностью"
    );
}

#[test]
fn align_falls_back_to_model_output_when_nothing_matches() {
    let sentence = "Полностью не связанный текст.";

    assert_eq!(
        align_word_translation("сжатие", sentence),
        "сжатие",
        "без совпадений возвращаем ответ модели как есть"
    );
}

#[test]
fn align_handles_empty_word_translation() {
    assert_eq!(align_word_translation("   ", "Любой перевод."), "");
}

#[test]
fn topics_are_unique_and_non_empty() {
    assert_eq!(TOPICS.len(), 30);

    let mut seen = std::collections::HashSet::new();

    for topic in TOPICS {
        assert!(!topic.trim().is_empty(), "пустая тема в списке");
        assert!(seen.insert(topic), "тема {topic:?} повторяется в списке");
    }
}

#[test]
fn lookup_format_topic_is_enum_of_topics() {
    let format: serde_json::Value = serde_json::from_str(&lookup_format_json()).unwrap();

    let variants = format["properties"]["topic"]["enum"]
        .as_array()
        .expect("topic в схеме должен быть перечислением");

    assert_eq!(variants.len(), TOPICS.len());

    for (variant, topic) in variants.iter().zip(TOPICS) {
        assert_eq!(variant.as_str(), Some(topic));
    }
}

#[test]
fn system_prompt_lists_every_topic() {
    let prompt = system_prompt();

    for topic in TOPICS {
        assert!(prompt.contains(topic), "промпт должен называть тему {topic:?}");
    }
}

#[test]
fn canonicalize_topic_matches_known_values() {
    assert_eq!(
        canonicalize_topic("Спорт и физическая активность"),
        "Спорт и физическая активность"
    );

    assert_eq!(
        canonicalize_topic("  спорт и физическая активность "),
        "Спорт и физическая активность"
    );
}

#[test]
fn canonicalize_topic_keeps_unknown_as_is() {
    assert_eq!(canonicalize_topic("программирование"), "программирование");
    assert_eq!(canonicalize_topic("   "), "");
}

#[test]
fn topic_string_passes_through() {
    assert_eq!(
        topic_to_string(&model_value(&serde_json::Value::String(" программирование ".into()))),
        "программирование"
    );
}

#[test]
fn topic_array_is_joined() {
    assert_eq!(
        topic_to_string(&model_value(&strings(&["программирование", "код"]))),
        "программирование, код"
    );
}

#[test]
fn topic_null_is_empty() {
    assert_eq!(topic_to_string(&model_value(&serde_json::Value::Null)), "");
}

#[test]
fn synonyms_array_passes_through() {
    assert_eq!(
        synonyms_to_vec(&model_value(&strings(&["jog", " sprint "]))),
        vec!["jog", "sprint"]
    );
}

#[test]
fn synonyms_string_is_split() {
    assert_eq!(
        synonyms_to_vec(&model_value(&serde_json::Value::String("jog, sprint".into()))),
        vec!["jog", "sprint"]
    );
}

#[test]
fn synonyms_missing_or_wrong_type_is_empty() {
    assert!(synonyms_to_vec(&model_value(&serde_json::Value::Null)).is_empty());
    assert!(synonyms_to_vec(&model_value(&serde_json::Value::Bool(true))).is_empty());
}

#[test]
fn translit_detects_transliterated_word() {
    assert!(is_transliteration("armadillo", "Армадилло"));
    assert!(is_transliteration("armadillo", "Армадилло свернулся в клубок."));
}

#[test]
fn translit_ignores_real_translations() {
    assert!(!is_transliteration("armadillo", "Броненосец"));
    assert!(!is_transliteration("armadillo", "Броненосец свернулся в клубок."));
    assert!(!is_transliteration("compression", "Сжатие данных."));
}

#[test]
fn clean_synonyms_drops_target_and_duplicates() {
    assert_eq!(
        clean_synonyms(
            "run",
            vec![
                "Run".to_string(),
                "jog".to_string(),
                "  jog  ".to_string(),
                String::new(),
                "sprint".to_string(),
            ]
        ),
        vec!["jog".to_string(), "sprint".to_string()]
    );
}

#[test]
fn clean_synonyms_caps_at_three() {
    let synonyms = clean_synonyms(
        "fast",
        vec!["quick", "swift", "rapid", "speedy", "hasty"]
            .into_iter()
            .map(String::from)
            .collect(),
    );

    assert_eq!(synonyms.len(), 3);
    assert_eq!(synonyms, vec!["quick", "swift", "rapid"]);
}

#[test]
fn prompt_bans_transliteration_and_allows_empty_synonyms() {
    let prompt = system_prompt();

    assert!(
        prompt.to_lowercase().contains("never transliterate"),
        "промпт должен запрещать транслитерацию"
    );
    assert!(
        prompt.contains("Броненосец") && prompt.contains("armadillo"),
        "промпт должен содержать пример armadillo → броненосец"
    );
    assert!(prompt.contains("empty array"), "промпт должен разрешать пустой список синонимов");
    assert!(
        prompt.contains("NOT synonyms"),
        "промпт должен объяснять, что тематические соседи — не синонимы"
    );
}

#[test]
fn lookup_format_requires_all_fields() {
    let format: serde_json::Value = serde_json::from_str(&lookup_format_json()).unwrap();

    let required = format["required"].as_array().expect("required должен быть массивом");

    for field in [
        "word",
        "sentence_translation",
        "word_translation",
        "meaning",
        "synonyms",
        "part_of_speech",
        "topic",
    ] {
        assert!(
            required.iter().any(|value| value.as_str() == Some(field)),
            "поле {field} должно быть обязательным"
        );
    }

    assert_eq!(format["properties"]["synonyms"]["type"], "array");
}

#[test]
fn cyrillic_detection() {
    assert!(contains_cyrillic("Сжатие данных"));
    assert!(!contains_cyrillic("plain compression"));
    assert!(!contains_cyrillic(""));
}

#[test]
fn fences_are_stripped() {
    assert_eq!(strip_json_fences("```json\n{\"a\":1}\n```"), "{\"a\":1}");

    assert_eq!(strip_json_fences("  {\"a\":1}  "), "{\"a\":1}");
}

// Further cases.

#[test]
fn translit_maps_letters() {
    assert_eq!(translit_cyrillic_to_latin("Армадилло"), "armadillo");
    assert_eq!(translit_cyrillic_to_latin("Щука"), "shchuka");
}

#[test]
fn other_topic_value_loses_quotes() {
    assert_eq!(topic_to_string(&model_value(&serde_json::Value::Bool(true))), "true");
    assert_eq!(topic_to_string(&ModelValue::Other("\"x\"".to_string())), "x");
}

#[test]
fn clean_synonyms_law_holds_on_an_example() {
    let kept = clean_synonyms(
        "Fast",
        vec!["FAST", "quick", "Quick", " ", "swift", "rapid", "hasty"]
            .into_iter()
            .map(String::from)
            .collect(),
    );
    assert_eq!(kept, vec!["quick", "swift", "rapid"]);
    assert!(kept.len() <= 3);
}

#[test]
fn aligned_translation_is_empty_only_for_a_blank_word_and_otherwise_found_or_kept() {
    let sentence = "Сжатие данных ускоряет кэширования.";
    assert_eq!(align_word_translation("  ", sentence), "");
    let replaced = align_word_translation("сжатие", sentence);
    assert_eq!(replaced, "Сжатие");
    assert!(sentence.contains(replaced.as_str()));
    let kept = align_word_translation(" самолёт ", sentence);
    assert_eq!(kept, "самолёт");
}
