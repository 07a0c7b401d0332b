//! The sentence translation command: the request text sent to the model
//! and the result read from its JSON reply.

use vstd::prelude::*;
use crate::lookup_text::{string_views, ModelValue};
use crate::reply_fields::{field_strings, field_text, read_strings, read_text};

verus! {

/// Translation of a sentence and of one of its words.
#[derive(Debug, Clone)]
pub struct TranslationResult {
    pub sentence_translation: String,
    pub word_translation: String,
    pub synonyms: Vec<String>,
    pub part_of_speech: String,
    pub topic: String,
}

/// The system message of the translation request.
pub const TRANSLATION_SYSTEM_MESSAGE: &'static str = "You are a translator and linguistic analyzer. CRITICAL: Output ONLY valid JSON. Do NOT include any thinking, reasoning, markdown formatting, or any text before or after the JSON object. Start directly with '{' and end with '}'. No code fences, no explanations.";

/// The request up to the sentence.
pub const TRANSLATION_PROMPT_HEAD: &'static str = "Given the English sentence and a specific word from it, provide:\n1. Translation of the whole sentence into Russian.\n2. Translation of the specific word into Russian according to the context.\n3. Synonyms of the specific word in English (at least 2).\n4. Part of speech of the specific word (in English).\n5. Topic or category of the sentence (in English). Choose a concise label like Programming, Animals, Nature, Technology, etc.\n\nSentence: \"";

/// The request between the sentence and the word.
pub const TRANSLATION_PROMPT_MIDDLE: &'static str = "\"\nWord: \"";

/// The request after the word: the expected JSON shape.
pub const TRANSLATION_PROMPT_TAIL: &'static str = "\"\n\nRespond with valid JSON only, no extra text:\n{\n\"sentence_translation\": \"...\",\n\"word_translation\": \"...\",\n\"synonyms\": [\"...\", \"...\"],\n\"part_of_speech\": \"...\",\n\"topic\": \"...\"\n}";

/// The request for a sentence and a word of it.
pub open spec fn spec_translation_prompt(sentence: Seq<char>, word: Seq<char>) -> Seq<char> {
    TRANSLATION_PROMPT_HEAD@ + sentence + TRANSLATION_PROMPT_MIDDLE@ + word + TRANSLATION_PROMPT_TAIL@
}

/// Builds the request for a sentence and a word of it.
pub fn translation_prompt(full_text: &str, word: &str) -> (r: String)
    ensures
        r@ == spec_translation_prompt(full_text@, word@),
{
    let mut prompt = String::new();
    prompt.push_str(TRANSLATION_PROMPT_HEAD);
    prompt.push_str(full_text);
    prompt.push_str(TRANSLATION_PROMPT_MIDDLE);
    prompt.push_str(word);
    prompt.push_str(TRANSLATION_PROMPT_TAIL);
    prompt
}

impl TranslationResult {
    /// Reads the result from the fields of the reply object: text fields
    /// that are missing or not strings read as empty, and the synonyms keep
    /// the string items of an array.
    pub fn from_reply(
        sentence_translation: &ModelValue,
        word_translation: &ModelValue,
        synonyms: &ModelValue,
        part_of_speech: &ModelValue,
        topic: &ModelValue,
    ) -> (r: TranslationResult)
        ensures
            r.sentence_translation@ == field_text(*sentence_translation),
            r.word_translation@ == field_text(*word_translation),
            string_views(r.synonyms@) == field_strings(*synonyms),
            r.part_of_speech@ == field_text(*part_of_speech),
            r.topic@ == field_text(*topic),
    {
        TranslationResult {
            sentence_translation: read_text(sentence_translation),
            word_translation: read_text(word_translation),
            synonyms: read_strings(synonyms),
            part_of_speech: read_text(part_of_speech),
            topic: read_text(topic),
        }
    }
}

} // verus!
