//! The lookup answer and the decisions taken while a provider talks to the
//! model: which corrective request to send, and how the final answer is
//! assembled from the model's reply.
//!
//! A provider sends the first request, hands the parsed reply to a
//! `LookupFlow`, and then repeatedly asks it for the next action: either a
//! corrective request (whose reply, if any, it hands back) or the finished
//! result. Each correction is asked at most once.

use vstd::prelude::*;
use crate::lookup_text::{
    align_word_translation, canonicalize_topic, clean_synonyms, contains_cyrillic,
    is_transliteration, spec_align_word_translation, spec_canonicalize_topic,
    spec_clean_synonyms, spec_contains_cyrillic, spec_is_transliteration, spec_synonyms_to_vec,
    spec_topic_to_string, string_views, synonyms_to_vec, topic_to_string, ModelValue,
};

verus! {

/// What a lookup delivers to the overlay.
pub struct LookupResult {
    pub word: String,
    pub sentence_translation: String,
    pub word_translation: String,
    pub meaning: String,
    pub synonyms: Vec<String>,
    pub part_of_speech: String,
    pub topic: String,
}

/// The error event sent to the overlay when a lookup fails.
pub struct LookupError {
    pub code: String,
    pub message: String,
}

/// The fields of the model's reply; missing fields are empty.
pub struct ModelLookup {
    pub meaning: String,
    pub sentence_translation: String,
    pub word_translation: String,
    pub synonyms: ModelValue,
    pub part_of_speech: String,
    pub topic: ModelValue,
}

/// The corrective requests a provider may send after the first reply.
#[derive(PartialEq, Eq, Structural, Clone, Copy, Debug)]
pub enum Correction {
    /// The sentence translation holds no Russian text.
    NotRussian,
    /// The translation writes the English word in Cyrillic letters.
    Transliterated,
}

/// Where a lookup stands.
#[derive(PartialEq, Eq, Structural, Clone, Copy, Debug)]
pub enum LookupStage {
    CheckLanguage,
    CheckTransliteration,
    Done,
}

/// What the provider does next.
pub enum LookupAction {
    Correct(Correction),
    Deliver(LookupResult),
}

/// The result assembled from a reply: the word as asked, the reply's
/// sentence translation, meaning and part of speech as they are, the word
/// translation aligned with the sentence translation, the cleaned synonyms
/// and the canonical topic.
pub open spec fn is_finished_lookup(word: Seq<char>, g: ModelLookup, r: LookupResult) -> bool {
    &&& r.word@ == word
    &&& r.sentence_translation@ == g.sentence_translation@
    &&& r.word_translation@ == spec_align_word_translation(g.word_translation@, g.sentence_translation@)
    &&& r.meaning@ == g.meaning@
    &&& string_views(r.synonyms@) == spec_clean_synonyms(word, spec_synonyms_to_vec(g.synonyms))
    &&& r.part_of_speech@ == g.part_of_speech@
    &&& r.topic@ == spec_canonicalize_topic(spec_topic_to_string(g.topic))
}

/// Assembles the lookup result from the model's reply.
pub fn finish_lookup(word: &str, generated: &ModelLookup) -> (r: LookupResult)
    ensures
        is_finished_lookup(word@, *generated, r),
{
    let mut word_string = String::new();
    word_string.push_str(word);
    let word_translation = align_word_translation(
        generated.word_translation.as_str(),
        generated.sentence_translation.as_str(),
    );
    let synonyms = clean_synonyms(word, synonyms_to_vec(&generated.synonyms));
    let topic_text = topic_to_string(&generated.topic);
    let topic = canonicalize_topic(topic_text.as_str());
    LookupResult {
        word: word_string,
        sentence_translation: generated.sentence_translation.clone(),
        word_translation,
        meaning: generated.meaning.clone(),
        synonyms,
        part_of_speech: generated.part_of_speech.clone(),
        topic,
    }
}

/// The reply writes the English word in Cyrillic letters, in the word
/// translation or in the sentence translation.
pub open spec fn reply_transliterates(word: Seq<char>, g: ModelLookup) -> bool {
    spec_is_transliteration(word, g.word_translation@) || spec_is_transliteration(word, g.sentence_translation@)
}

/// The correction an action asks for, if any.
pub open spec fn action_correction(a: LookupAction) -> Option<Correction> {
    match a {
        LookupAction::Correct(c) => Some(c),
        LookupAction::Deliver(_) => None,
    }
}

/// The next stage and the correction to ask for (none: deliver). A reply
/// without Russian in its sentence translation is corrected once, at the
/// first stage; a reply that transliterates the word is corrected once,
/// before the last stage; everything else is delivered.
pub open spec fn flow_step(stage: LookupStage, word: Seq<char>, g: ModelLookup) -> (LookupStage, Option<Correction>) {
    if stage == LookupStage::CheckLanguage && !spec_contains_cyrillic(g.sentence_translation@) {
        (LookupStage::CheckTransliteration, Some(Correction::NotRussian))
    } else if stage != LookupStage::Done && reply_transliterates(word, g) {
        (LookupStage::Done, Some(Correction::Transliterated))
    } else {
        (LookupStage::Done, None)
    }
}

/// The order of the stages.
pub open spec fn stage_rank(stage: LookupStage) -> int {
    match stage {
        LookupStage::CheckLanguage => 0,
        LookupStage::CheckTransliteration => 1,
        LookupStage::Done => 2,
    }
}

/// Each correction is asked at most once and a lookup ends after at most
/// two corrections: every correction moves the lookup to a later stage,
/// the language correction only leaves the first stage, the
/// transliteration correction leads to the last stage, and the last stage
/// always delivers.
pub proof fn lemma_each_correction_at_most_once(stage: LookupStage, word: Seq<char>, g: ModelLookup)
    ensures
        flow_step(stage, word, g).1 is Some ==> stage_rank(flow_step(stage, word, g).0) > stage_rank(stage),
        flow_step(stage, word, g).1 == Some(Correction::NotRussian) ==> stage == LookupStage::CheckLanguage,
        flow_step(stage, word, g).1 == Some(Correction::Transliterated) ==> flow_step(stage, word, g).0
            == LookupStage::Done,
        stage == LookupStage::Done ==> flow_step(stage, word, g) == (LookupStage::Done, None::<Correction>),
        flow_step(stage, word, g).1 is None ==> flow_step(stage, word, g).0 == LookupStage::Done,
{
}

/// Once the language check is passed (a later stage, or a sentence
/// translation holding Cyrillic), a stage before the last one asks for the
/// transliteration correction exactly when the word translation or the
/// sentence translation writes the English word in Cyrillic; each of them
/// alone is enough. Otherwise the result is delivered.
pub proof fn lemma_transliteration_is_corrected(stage: LookupStage, word: Seq<char>, g: ModelLookup)
    requires
        stage != LookupStage::Done,
        stage == LookupStage::CheckTransliteration || spec_contains_cyrillic(g.sentence_translation@),
    ensures
        flow_step(stage, word, g).1 == Some(Correction::Transliterated) <==> (spec_is_transliteration(
            word,
            g.word_translation@,
        ) || spec_is_transliteration(word, g.sentence_translation@)),
        spec_is_transliteration(word, g.sentence_translation@) ==> flow_step(stage, word, g) == (
            LookupStage::Done,
            Some(Correction::Transliterated),
        ),
        spec_is_transliteration(word, g.word_translation@) ==> flow_step(stage, word, g) == (
            LookupStage::Done,
            Some(Correction::Transliterated),
        ),
        !spec_is_transliteration(word, g.word_translation@) && !spec_is_transliteration(
            word,
            g.sentence_translation@,
        ) ==> flow_step(stage, word, g) == (LookupStage::Done, None::<Correction>),
{
}

/// The progress of one lookup: the word asked about, the reply currently
/// relied on and the stage.
pub struct LookupFlow {
    pub word: String,
    pub generated: ModelLookup,
    pub stage: LookupStage,
}

impl LookupFlow {
    /// Starts from the reply to the first request.
    pub fn new(word: &str, generated: ModelLookup) -> (r: LookupFlow)
        ensures
            r.word@ == word@,
            r.generated == generated,
            r.stage == LookupStage::CheckLanguage,
    {
        let mut word_string = String::new();
        word_string.push_str(word);
        LookupFlow { word: word_string, generated, stage: LookupStage::CheckLanguage }
    }

    /// Decides the next step. A reply without Russian in its sentence
    /// translation asks once for a Russian one; a reply that transliterates
    /// the word asks once for the real Russian word; otherwise, and after
    /// those checks, the result is delivered.
    pub fn next_action(&mut self) -> (a: LookupAction)
        ensures
            final(self).word == old(self).word,
            final(self).generated == old(self).generated,
            (final(self).stage, action_correction(a)) == flow_step(old(self).stage, old(self).word@, old(self).generated),
            a matches LookupAction::Deliver(r) ==> is_finished_lookup(old(self).word@, old(self).generated, r),
    {
        if self.stage == LookupStage::CheckLanguage {
            if !contains_cyrillic(self.generated.sentence_translation.as_str()) {
                self.stage = LookupStage::CheckTransliteration;
                return LookupAction::Correct(Correction::NotRussian);
            }
        }
        if self.stage != LookupStage::Done {
            let word = self.word.as_str();
            if is_transliteration(word, self.generated.word_translation.as_str())
                || is_transliteration(word, self.generated.sentence_translation.as_str()) {
                self.stage = LookupStage::Done;
                return LookupAction::Correct(Correction::Transliterated);
            }
        }
        self.stage = LookupStage::Done;
        LookupAction::Deliver(finish_lookup(self.word.as_str(), &self.generated))
    }

    /// Takes the reply to a corrective request: a parsed reply replaces the
    /// one relied on; a failed request keeps it.
    pub fn accept_correction(&mut self, reply: Option<ModelLookup>)
        ensures
            final(self).word == old(self).word,
            final(self).stage == old(self).stage,
            final(self).generated == match reply {
                Some(g) => g,
                None => old(self).generated,
            },
    {
        match reply {
            Some(g) => {
                self.generated = g;
            },
            None => {},
        }
    }
}

} // verus!
