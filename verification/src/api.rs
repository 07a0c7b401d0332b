//! The two-image translation request: the request texts and the result
//! read from the model's JSON reply.

use vstd::prelude::*;
use crate::lookup_text::{string_views, ModelValue};
use crate::reply_fields::{field_strings, field_text, read_strings, read_text};

verus! {

/// Translation of the word shown in a zoomed image and of its sentence
/// found in a full-screen image.
#[derive(Debug, Clone)]
pub struct TranslationResult {
    pub sentence: String,
    pub word: String,
    pub sentence_translation: String,
    pub word_translation: String,
    pub synonyms: Vec<String>,
    pub part_of_speech: String,
    pub topic: String,
}

/// The system message of the request.
pub const IMAGE_SYSTEM_MESSAGE: &'static str = "You are a translator. Respond with valid JSON only.";

/// The instructions sent with the two images.
pub const IMAGE_PROMPT: &'static str = r#"Analyze these two images and respond with ONLY a JSON object (no other text):

Image 1: fullscreen context. Image 2: zoomed word.

Tasks:
1. Identify the English word in Image 2.
2. Find the sentence in Image 1 containing that word.
3. Translate the sentence to Russian.
4. Translate the word to Russian (in context).
5. Provide 2 English synonyms.
6. Determine part of speech (noun/verb/adjective/adverb/etc).
7. Assign a topic (Programming/Medicine/Finance/Sports/etc).

JSON format:
{"sentence":"...","word":"...","sentence_translation":"...","word_translation":"...","synonyms":["...","..."],"part_of_speech":"...","topic":"..."}"#;

/// A data URI carrying base64 data of the given media type.
pub open spec fn spec_data_uri(mime: Seq<char>, base64: Seq<char>) -> Seq<char> {
    "data:"@ + mime + ";base64,"@ + base64
}

/// Builds `data:{mime};base64,{data}`.
pub fn data_uri(mime: &str, base64: &str) -> (r: String)
    ensures
        r@ == spec_data_uri(mime@, base64@),
{
    let mut uri = String::new();
    uri.push_str("data:");
    uri.push_str(mime);
    uri.push_str(";base64,");
    uri.push_str(base64);
    uri
}

/// The content of the reply message, or an empty object when it is missing
/// or not a string.
pub fn reply_content(content: &ModelValue) -> (r: String)
    ensures
        r@ == match *content {
            ModelValue::Text(s) => s@,
            _ => "{}"@,
        },
{
    match content {
        ModelValue::Text(s) => s.clone(),
        _ => "{}".to_string(),
    }
}

impl TranslationResult {
    /// Reads the result from the fields of the reply object: text fields
    /// that are missing or not strings read as empty, and the synonyms keep
    /// the string items of an array.
    pub fn from_reply(
        sentence: &ModelValue,
        word: &ModelValue,
        sentence_translation: &ModelValue,
        word_translation: &ModelValue,
        synonyms: &ModelValue,
        part_of_speech: &ModelValue,
        topic: &ModelValue,
    ) -> (r: TranslationResult)
        ensures
            r.sentence@ == field_text(*sentence),
            r.word@ == field_text(*word),
            r.sentence_translation@ == field_text(*sentence_translation),
            r.word_translation@ == field_text(*word_translation),
            string_views(r.synonyms@) == field_strings(*synonyms),
            r.part_of_speech@ == field_text(*part_of_speech),
            r.topic@ == field_text(*topic),
    {
        TranslationResult {
            sentence: read_text(sentence),
            word: read_text(word),
            sentence_translation: read_text(sentence_translation),
            word_translation: read_text(word_translation),
            synonyms: read_strings(synonyms),
            part_of_speech: read_text(part_of_speech),
            topic: read_text(topic),
        }
    }
}

} // verus!
