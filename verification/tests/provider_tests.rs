use armadillo_learn_desktop::lookup_flow::{
    finish_lookup, Correction, LookupAction, LookupFlow, LookupResult, LookupStage, ModelLookup,
};
use armadillo_learn_desktop::lookup_text::ModelValue;
use armadillo_learn_desktop::provider::{
    correction_message, groq_allowed, groq_api_key, groq_http_error, groq_model, lookup_user_message,
    ollama_model, AiProvider, HybridProvider, NOT_RUSSIAN_CORRECTION, TRANSLITERATION_CORRECTION,
};

struct StubPrimaryOk;

impl AiProvider for StubPrimaryOk {
    fn lookup(&self, _context: &str, _clicked_word: &str) -> Result<LookupResult, String> {
        Ok(LookupResult {
            word: "primary".to_string(),
            sentence_translation: "Предложение от primary.".to_string(),
            word_translation: "слово".to_string(),
            meaning: "It means the thing from primary.".to_string(),
            synonyms: vec!["near".to_string()],
            part_of_speech: "noun".to_string(),
            topic: "Работа и профессии".to_string(),
        })
    }
}

struct StubAlwaysFails {
    message: &'static str,
}

impl AiProvider for StubAlwaysFails {
    fn lookup(&self, _context: &str, _clicked_word: &str) -> Result<LookupResult, String> {
        Err(self.message.to_string())
    }
}

#[test]
fn hybrid_uses_primary_without_touching_fallback() {
    let hybrid = HybridProvider::new(
        Box::new(StubPrimaryOk),
        Box::new(StubAlwaysFails {
            message: "fallback был вызван — так нельзя",
        }),
    );

    let result = hybrid.lookup("Some context.", "word").expect("primary ok");

    assert_eq!(result.word, "primary");
}

#[test]
fn hybrid_falls_back_when_primary_errors() {
    let hybrid = HybridProvider::new(
        Box::new(StubAlwaysFails {
            message: "Groq offline (403 за RU-IP)",
        }),
        Box::new(StubPrimaryOk),
    );

    let result = hybrid.lookup("Some context.", "word").expect("fallback ok");

    assert_eq!(result.word, "primary");
}

#[test]
fn hybrid_reports_fallback_error_when_both_fail() {
    let hybrid = HybridProvider::new(
        Box::new(StubAlwaysFails { message: "first" }),
        Box::new(StubAlwaysFails { message: "second" }),
    );

    assert_eq!(hybrid.lookup("c", "w").err(), Some("second".to_string()));
}

fn reply(sentence_translation: &str, word_translation: &str) -> ModelLookup {
    ModelLookup {
        meaning: "A small animal with a shell.".to_string(),
        sentence_translation: sentence_translation.to_string(),
        word_translation: word_translation.to_string(),
        synonyms: ModelValue::List(vec![Some("Armadillo".to_string()), Some(" tatu ".to_string())]),
        part_of_speech: "noun".to_string(),
        topic: ModelValue::Text(" природа и животные ".to_string()),
    }
}

#[test]
fn flow_delivers_a_good_reply_at_once() {
    let mut flow = LookupFlow::new("armadillo", reply("Броненосец свернулся.", "броненосец"));
    match flow.next_action() {
        LookupAction::Deliver(result) => {
            assert_eq!(result.word, "armadillo");
            assert_eq!(result.word_translation, "Броненосец");
            assert_eq!(result.synonyms, vec!["tatu".to_string()]);
            assert_eq!(result.topic, "Природа и животные");
        }
        LookupAction::Correct(_) => panic!("no correction expected"),
    }
    assert_eq!(flow.stage, LookupStage::Done);
}

#[test]
fn flow_asks_each_correction_once() {
    let mut flow = LookupFlow::new("armadillo", reply("The armadillo rolled.", "Армадилло"));
    assert!(matches!(flow.next_action(), LookupAction::Correct(Correction::NotRussian)));
    flow.accept_correction(Some(reply("Армадилло свернулся.", "Армадилло")));
    assert!(matches!(flow.next_action(), LookupAction::Correct(Correction::Transliterated)));
    flow.accept_correction(None);
    match flow.next_action() {
        LookupAction::Deliver(result) => assert_eq!(result.sentence_translation, "Армадилло свернулся."),
        LookupAction::Correct(_) => panic!("each correction is asked once"),
    }
}

#[test]
fn finish_lookup_assembles_the_result() {
    let result = finish_lookup("run", &reply("Он любит бегать.", "Бегать"));
    assert_eq!(result.word_translation, "бегать");
    assert_eq!(result.meaning, "A small animal with a shell.");
    assert_eq!(result.part_of_speech, "noun");
}

#[test]
fn user_message_names_word_and_sentence() {
    assert_eq!(
        lookup_user_message("more", "More instructions"),
        "Target word: \"more\"\n\nContext sentence:\nMore instructions"
    );
}

#[test]
fn correction_messages() {
    assert_eq!(correction_message(Correction::NotRussian), NOT_RUSSIAN_CORRECTION);
    assert_eq!(correction_message(Correction::Transliterated), TRANSLITERATION_CORRECTION);
    assert!(TRANSLITERATION_CORRECTION.contains("броненосец"));
}

#[test]
fn groq_settings() {
    assert_eq!(groq_api_key(Some("  key-1 ")), Ok("key-1".to_string()));
    assert_eq!(groq_api_key(Some("   ")), Err("GROQ_API_KEY is not set".to_string()));
    assert_eq!(groq_api_key(None), Err("GROQ_API_KEY is not set".to_string()));
    assert_eq!(groq_model(None), "openai/gpt-oss-120b");
    assert_eq!(groq_model(Some(" m ")), "m");
    assert_eq!(groq_model(Some("")), "openai/gpt-oss-120b");
    assert_eq!(ollama_model(None), "qwen3:4b-instruct");
    assert_eq!(ollama_model(Some("qwen2.5vl:3b")), "qwen2.5vl:3b");
    assert!(groq_allowed(None));
    assert!(groq_allowed(Some("")));
    assert!(groq_allowed(Some("groq")));
    assert!(!groq_allowed(Some("local")));
    assert!(!groq_allowed(Some("Groq")));
}

#[test]
fn groq_error_has_hint_and_short_snippet() {
    let body = "x".repeat(250);
    let message = groq_http_error("429 Too Many Requests", 429, &body);
    assert_eq!(
        message,
        format!("Groq HTTP 429 Too Many Requests — превышен лимит free-tier Groq: {}", "x".repeat(200))
    );
    assert_eq!(groq_http_error("500 Internal Server Error", 500, "oops"), "Groq HTTP 500 Internal Server Error: oops");
    assert!(groq_http_error("403 Forbidden", 403, "").contains("GROQ_API_KEY"));
}
