//! Lookup providers: the provider interface, the hybrid provider that
//! falls back to a second provider, and the settings and texts the model
//! providers share.

use vstd::prelude::*;
use crate::lookup_flow::LookupResult;
use crate::lookup_text::{join_strings, joined, string_views, topic_at, topic_views, TOPICS};
use crate::text::{chars_equal, chars_of, string_of, trimmed, trim_string};

verus! {

/// A source of lookups: translates a word in the context of a sentence.
pub trait AiProvider: Send + Sync {
    /// `r` is an answer this provider may give for the word in the sentence.
    /// A provider that says nothing of its answers allows any.
    open spec fn answers(&self, sentence: Seq<char>, word: Seq<char>, r: Result<LookupResult, String>) -> bool {
        true
    }

    fn lookup(&self, sentence: &str, word: &str) -> (r: Result<LookupResult, String>)
        ensures
            self.answers(sentence@, word@, r),
    ;
}

/// The primary answer, or the fallback's when the primary failed.
pub fn prefer_primary<F: FnOnce() -> Result<LookupResult, String>>(
    primary: Result<LookupResult, String>,
    fallback: F,
) -> (r: Result<LookupResult, String>)
    requires
        fallback.requires(()),
    ensures
        primary is Ok ==> r == primary,
        primary is Err ==> fallback.ensures((), r),
{
    match primary {
        Ok(result) => Ok(result),
        Err(_) => fallback(),
    }
}

/// A primary provider backed by a fallback: any failure of the primary is
/// answered by the fallback, which is not asked otherwise.
pub struct HybridProvider<P: AiProvider + ?Sized, F: AiProvider + ?Sized> {
    primary: Box<P>,
    fallback: Box<F>,
}

impl<P: AiProvider + ?Sized, F: AiProvider + ?Sized> HybridProvider<P, F> {
    /// The provider asked first.
    pub closed spec fn primary(&self) -> Box<P> {
        self.primary
    }

    /// The provider asked when the first one fails.
    pub closed spec fn fallback(&self) -> Box<F> {
        self.fallback
    }

    /// Pairs the provider asked first with the one asked when it fails; no
    /// provider is asked anything yet.
    pub fn new(primary: Box<P>, fallback: Box<F>) -> (r: HybridProvider<P, F>)
        ensures
            r.primary() == primary,
            r.fallback() == fallback,
    {
        HybridProvider { primary, fallback }
    }
}

impl<P: AiProvider + ?Sized, F: AiProvider + ?Sized> AiProvider for HybridProvider<P, F> {
    /// The primary's answer when it is `Ok`; otherwise an answer of the
    /// fallback for the same sentence and word.
    open spec fn answers(&self, sentence: Seq<char>, word: Seq<char>, r: Result<LookupResult, String>) -> bool {
        exists|p: Result<LookupResult, String>|
            #![trigger self.primary().answers(sentence, word, p)]
            self.primary().answers(sentence, word, p) && (p is Ok ==> r == p) && (p is Err
                ==> self.fallback().answers(sentence, word, r))
    }

    /// Asks the primary; only when it fails, asks the fallback with the same
    /// sentence and word.
    fn lookup(&self, context: &str, clicked_word: &str) -> (r: Result<LookupResult, String>) {
        let primary = self.primary.lookup(context, clicked_word);
        let fallback = &self.fallback;
        let ghost sentence = context@;
        let ghost word = clicked_word@;
        let ask_fallback = || -> (a: Result<LookupResult, String>)
            ensures
                fallback.answers(sentence, word, a),
            { fallback.lookup(context, clicked_word) };
        let r = prefer_primary(primary, ask_fallback);
        assert(self.primary().answers(sentence, word, primary));
        r
    }
}


// ---------------------------------------------------------------------------
// Settings
// ---------------------------------------------------------------------------

/// The Groq model used when none is configured.
pub const DEFAULT_GROQ_MODEL: &'static str = "openai/gpt-oss-120b";

/// The local Ollama model used when none is configured.
pub const DEFAULT_OLLAMA_MODEL: &'static str = "qwen3:4b-instruct";

/// The configured value, trimmed, when it holds more than white space.
pub open spec fn meaningful(setting: Option<&str>) -> Option<Seq<char>> {
    match setting {
        Some(v) => if trimmed(v@).len() > 0 {
            Some(trimmed(v@))
        } else {
            None
        },
        None => None,
    }
}

fn meaningful_setting(setting: Option<&str>) -> (r: Option<String>)
    ensures
        match r {
            Some(v) => meaningful(setting) == Some(v@),
            None => meaningful(setting) is None,
        },
{
    match setting {
        Some(value) => {
            let t = trim_string(value);
            if t.as_str().is_empty() {
                None
            } else {
                Some(t)
            }
        },
        None => None,
    }
}

/// The Groq API key from the `GROQ_API_KEY` setting: trimmed, and required
/// to hold more than white space.
pub fn groq_api_key(setting: Option<&str>) -> (r: Result<String, String>)
    ensures
        match meaningful(setting) {
            Some(key) => r matches Ok(k) && k@ == key,
            None => r matches Err(m) && m@ == "GROQ_API_KEY is not set"@,
        },
{
    match meaningful_setting(setting) {
        Some(key) => Ok(key),
        None => Err("GROQ_API_KEY is not set".to_string()),
    }
}

/// The Groq model from the `ARMADILLO_GROQ_MODEL` setting: trimmed, or the
/// default when it is missing or blank.
pub fn groq_model(setting: Option<&str>) -> (r: String)
    ensures
        r@ == match meaningful(setting) {
            Some(model) => model,
            None => DEFAULT_GROQ_MODEL@,
        },
{
    match meaningful_setting(setting) {
        Some(model) => model,
        None => DEFAULT_GROQ_MODEL.to_string(),
    }
}

/// The Ollama model from the `ARMADILLO_OLLAMA_MODEL` setting, taken as it
/// is, or the default when it is missing.
pub fn ollama_model(setting: Option<&str>) -> (r: String)
    ensures
        r@ == match setting {
            Some(model) => model@,
            None => DEFAULT_OLLAMA_MODEL@,
        },
{
    match setting {
        Some(model) => model.to_string(),
        None => DEFAULT_OLLAMA_MODEL.to_string(),
    }
}

/// Whether the `ARMADILLO_PROVIDER` setting lets Groq be used: unset,
/// empty or `groq`; any other value keeps the local model only.
pub fn groq_allowed(setting: Option<&str>) -> (r: bool)
    ensures
        r == match setting {
            Some(v) => v@.len() == 0 || v@ == "groq"@,
            None => true,
        },
{
    match setting {
        Some(value) => {
            let chars = chars_of(value);
            let groq = chars_of("groq");
            chars.len() == 0 || chars_equal(&chars, &groq)
        },
        None => true,
    }
}

// ---------------------------------------------------------------------------
// Messages to the model
// ---------------------------------------------------------------------------

/// The user message of a lookup: the target word and the sentence.
pub open spec fn spec_lookup_user_message(word: Seq<char>, sentence: Seq<char>) -> Seq<char> {
    "Target word: \""@ + word + "\"\n\nContext sentence:\n"@ + sentence
}

/// The user message of a lookup.
pub fn lookup_user_message(word: &str, sentence: &str) -> (r: String)
    ensures
        r@ == spec_lookup_user_message(word@, sentence@),
{
    let mut message = String::new();
    message.push_str("Target word: \"");
    message.push_str(word);
    message.push_str("\"\n\nContext sentence:\n");
    message.push_str(sentence);
    message
}

/// The follow-up asking for a Russian sentence translation.
pub const NOT_RUSSIAN_CORRECTION: &'static str = "Your sentence_translation was not in Russian. Reply with the same JSON object again, but sentence_translation must be the complete Russian translation of the context sentence.";

/// The follow-up asking for real Russian words instead of transliteration.
pub const TRANSLITERATION_CORRECTION: &'static str = "Your reply transliterated the English word into Russian letters (like \"Армадилло\" for \"armadillo\"). Such words do not exist in Russian. Reply with the same JSON object again, but word_translation and sentence_translation must use the REAL Russian word (\"armadillo\" is \"броненосец\"). Never write English words in Cyrillic letters.";

/// The follow-up message of a corrective request.
pub fn correction_message(correction: crate::lookup_flow::Correction) -> (r: &'static str)
    ensures
        r@ == match correction {
            crate::lookup_flow::Correction::NotRussian => NOT_RUSSIAN_CORRECTION@,
            crate::lookup_flow::Correction::Transliterated => TRANSLITERATION_CORRECTION@,
        },
{
    match correction {
        crate::lookup_flow::Correction::NotRussian => NOT_RUSSIAN_CORRECTION,
        crate::lookup_flow::Correction::Transliterated => TRANSLITERATION_CORRECTION,
    }
}

// ---------------------------------------------------------------------------
// Answer schema
// ---------------------------------------------------------------------------

/// The answer schema up to the list of topics.
pub const FORMAT_HEAD: &'static str = "{\"type\":\"object\",\"properties\":{\"word\":{\"type\":\"string\"},\"sentence_translation\":{\"type\":\"string\"},\"word_translation\":{\"type\":\"string\"},\"meaning\":{\"type\":\"string\"},\"synonyms\":{\"type\":\"array\",\"items\":{\"type\":\"string\"}},\"part_of_speech\":{\"type\":\"string\"},\"topic\":{\"type\":\"string\",\"enum\":[";

/// The answer schema after the list of topics: every field is required.
pub const FORMAT_TAIL: &'static str = "]}},\"required\":[\"word\",\"sentence_translation\",\"word_translation\",\"meaning\",\"synonyms\",\"part_of_speech\",\"topic\"]}";

pub open spec fn quoted(s: Seq<char>) -> Seq<char> {
    seq!['"'] + s + seq!['"']
}

/// The topics as JSON strings.
pub open spec fn quoted_topics() -> Seq<Seq<char>> {
    Seq::new(30, |i: int| quoted(topic_at(i)))
}

/// The JSON schema of the model's answer (structured output): an object
/// with all seven fields required, `synonyms` an array of strings and
/// `topic` one of the topics, in their order. No topic holds a quote or a
/// backslash, so each is written between quotes as it is.
pub fn lookup_format_json() -> (r: String)
    ensures
        r@ == FORMAT_HEAD@ + joined(quoted_topics(), seq![',']) + FORMAT_TAIL@,
{
    let mut topics: Vec<String> = Vec::new();
    let mut i: usize = 0;
    while i < 30
        invariant
            i <= 30,
            string_views(topics@) == quoted_topics().take(i as int),
        decreases 30 - i,
    {
        let mut q = String::new();
        q.push('"');
        q.push_str(TOPICS[i]);
        q.push('"');
        assert(q@ == quoted(topic_at(i as int)));
        let ghost before = topics@;
        topics.push(q);
        assert(string_views(topics@) == string_views(before).push(quoted(topic_at(i as int))));
        i = i + 1;
        assert(quoted_topics().take(i as int) == quoted_topics().take(i - 1).push(quoted(topic_at(i - 1))));
    }
    assert(quoted_topics().take(30) == quoted_topics());
    let mut sep: Vec<char> = Vec::new();
    sep.push(',');
    assert(sep@ == seq![',']);
    let list = join_strings(&topics, &sep);
    let mut format = String::new();
    format.push_str(FORMAT_HEAD);
    format.push_str(list.as_str());
    format.push_str(FORMAT_TAIL);
    format
}

// ---------------------------------------------------------------------------
// Groq errors
// ---------------------------------------------------------------------------

/// The advice added to a Groq HTTP error: the key or the VPN for 401 and
/// 403, the free-tier limit for 429, nothing otherwise.
pub open spec fn spec_groq_status_hint(code: u16) -> Seq<char> {
    if code == 401 || code == 403 {
        " — проверь GROQ_API_KEY и что VPN пропускает этот трафик (RU-IP блокируется)"@
    } else if code == 429 {
        " — превышен лимит free-tier Groq"@
    } else {
        Seq::empty()
    }
}

pub fn groq_status_hint(code: u16) -> (r: &'static str)
    ensures
        r@ == spec_groq_status_hint(code),
{
    if code == 401 || code == 403 {
        " — проверь GROQ_API_KEY и что VPN пропускает этот трафик (RU-IP блокируется)"
    } else if code == 429 {
        " — превышен лимит free-tier Groq"
    } else {
        proof {
            reveal_strlit("");
        }
        ""
    }
}

/// The first `n` characters of a text (all of it when shorter).
pub open spec fn prefix_of(s: Seq<char>, n: int) -> Seq<char> {
    if s.len() <= n {
        s
    } else {
        s.take(n)
    }
}

/// The error of a Groq reply with a failure status: the status, the hint,
/// and the first 200 characters of the body.
pub fn groq_http_error(status: &str, code: u16, body: &str) -> (r: String)
    ensures
        r@ == "Groq HTTP "@ + status@ + spec_groq_status_hint(code) + ": "@ + prefix_of(body@, 200),
{
    let chars = chars_of(body);
    let mut snippet: Vec<char> = Vec::new();
    let mut i: usize = 0;
    while i < chars.len() && i < 200
        invariant
            i <= chars.len(),
            i <= 200,
            snippet@ == chars@.take(i as int),
        decreases chars.len() - i,
    {
        snippet.push(chars[i]);
        i = i + 1;
    }
    assert(chars@.take(chars.len() as int) == chars@);
    let mut message = String::new();
    message.push_str("Groq HTTP ");
    message.push_str(status);
    message.push_str(groq_status_hint(code));
    message.push_str(": ");
    message.push_str(string_of(&snippet).as_str());
    message
}

} // verus!
