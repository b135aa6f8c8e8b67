//! The emotional states of the state-evolution collaborator.

use vstd::prelude::*;

verus! {

/// The mood that an input puts the engine in.
#[derive(Clone, Copy, Debug, PartialEq, Eq, Structural)]
pub enum EmotionalState {
    Neutral,
    Curious,
    Excited,
    Contemplative,
    Creative,
    Analytical,
}

impl Default for EmotionalState {
    fn default() -> (r: Self)
        ensures
            r == EmotionalState::Neutral,
    {
        EmotionalState::Neutral
    }
}

/// The lower-case form of a text.
pub uninterp spec fn lowercase_of(text: Seq<char>) -> Seq<char>;

/// The lower-case form of a text.
///
/// Calls `str::to_lowercase`, whose result depends on the text alone; the
/// contract gives that result its name and claims nothing else of it.
#[verifier::external_body]
fn lowercase(text: &str) -> (r: String)
    ensures
        r@ == lowercase_of(text@),
{
    text.to_lowercase()
}

/// `pattern` occurs in `text` as a run of consecutive characters.
pub open spec fn has_substring(text: Seq<char>, pattern: Seq<char>) -> bool {
    exists|i: int|
        0 <= i && i + pattern.len() <= text.len() && #[trigger] text.subrange(
            i,
            i + pattern.len(),
        ) == pattern
}

/// Whether `pattern` occurs in `text`.
///
/// Calls `str::contains` with a string pattern, which is documented to tell
/// whether the pattern matches a sub-slice of the text.
#[verifier::external_body]
fn contains_text(text: &str, pattern: &str) -> (r: bool)
    ensures
        r == has_substring(text@, pattern@),
{
    text.contains(pattern)
}

/// The mood that a lower-case text calls for: the first of creative,
/// analytical, curious, excited and contemplative of which the text holds a
/// keyword, and neutral where it holds none.
pub open spec fn mood_of(lower: Seq<char>) -> EmotionalState {
    if has_substring(lower, "creative"@) || has_substring(lower, "imagine"@) {
        EmotionalState::Creative
    } else if has_substring(lower, "analyze"@) || has_substring(lower, "explain"@) {
        EmotionalState::Analytical
    } else if has_substring(lower, "wonder"@) || has_substring(lower, "curious"@) {
        EmotionalState::Curious
    } else if has_substring(lower, "exciting"@) || has_substring(lower, "amazing"@) {
        EmotionalState::Excited
    } else if has_substring(lower, "think"@) || has_substring(lower, "consider"@) {
        EmotionalState::Contemplative
    } else {
        EmotionalState::Neutral
    }
}

/// The mood that a text in lower case calls for.
pub fn classify(lower: &str) -> (r: EmotionalState)
    ensures
        r == mood_of(lower@),
{
    if contains_text(lower, "creative") || contains_text(lower, "imagine") {
        EmotionalState::Creative
    } else if contains_text(lower, "analyze") || contains_text(lower, "explain") {
        EmotionalState::Analytical
    } else if contains_text(lower, "wonder") || contains_text(lower, "curious") {
        EmotionalState::Curious
    } else if contains_text(lower, "exciting") || contains_text(lower, "amazing") {
        EmotionalState::Excited
    } else if contains_text(lower, "think") || contains_text(lower, "consider") {
        EmotionalState::Contemplative
    } else {
        EmotionalState::Neutral
    }
}

/// The mood that an input calls for: that of its lower-case form.
pub fn determine_emotional_state(input: &str) -> (r: EmotionalState)
    ensures
        r == mood_of(lowercase_of(input@)),
{
    let lower = lowercase(input);
    classify(lower.as_str())
}

} // verus!
