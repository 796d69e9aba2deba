//! Whether an answer quotes what it should and does not refuse.

use crate::eval::examples::{EvalExample, Passage};
use crate::eval::examples;
use crate::eval::normalize;
use crate::text;
use vstd::prelude::*;

verus! {

/// Phrases that mark a refusal in any answer.
pub const DEFAULT_REFUSAL_PHRASES: [&'static str; 5] = [
    "no information",
    "cannot determine",
    "unable to determine",
    "no chunk supports",
    "not specified",
];

/// Whether a compared text holds one of the phrases.
pub open spec fn any_phrase_in(phrases: Seq<Seq<char>>, hay: Seq<char>) -> bool {
    exists|i: int|
        0 <= i < phrases.len() && text::occurs(hay, normalize::normalized(#[trigger] phrases[i]))
}

/// Whether a compared text holds every passage, each in one of its phrasings.
pub open spec fn all_passages_in(passages: Seq<Seq<Seq<char>>>, hay: Seq<char>) -> bool {
    forall|i: int| 0 <= i < passages.len() ==> any_phrase_in(#[trigger] passages[i], hay)
}

/// The phrases that mark a refusal in any answer.
pub open spec fn default_phrases() -> Seq<Seq<char>> {
    DEFAULT_REFUSAL_PHRASES@.map_values(|p: &'static str| p@)
}

/// Whether a compared text holds one of the phrases.
pub fn has_any_phrase(phrases: &[String], hay: &str) -> (res: bool)
    ensures
        res == any_phrase_in(text::texts(phrases@), hay@),
{
    let ghost all = text::texts(phrases@);
    let mut i: usize = 0;
    while i < phrases.len()
        invariant
            i <= phrases@.len(),
            all == text::texts(phrases@),
            forall|j: int|
                0 <= j < i ==> !text::occurs(hay@, normalize::normalized(#[trigger] all[j])),
        decreases phrases@.len() - i,
    {
        assert(all[i as int] == phrases@[i as int]@);
        let needle = normalize::normalize(phrases[i].as_str());
        if text::contains(hay, needle.as_str()) {
            return true;
        }
        i = i + 1;
    }
    false
}

/// Whether a compared text holds a passage, in one of its phrasings.
pub fn has_passage(passage: &Passage, hay: &str) -> (res: bool)
    ensures
        res == any_phrase_in(passage@, hay@),
{
    has_any_phrase(passage.phrasings(), hay)
}

/// Whether a compared text holds one of the phrases that mark a refusal in any answer.
fn has_default_phrase(hay: &str) -> (res: bool)
    ensures
        res == any_phrase_in(default_phrases(), hay@),
{
    let ghost all = default_phrases();
    let phrases = DEFAULT_REFUSAL_PHRASES;
    let mut i: usize = 0;
    while i < 5
        invariant
            i <= 5,
            all == default_phrases(),
            phrases == DEFAULT_REFUSAL_PHRASES,
            forall|j: int|
                0 <= j < i ==> !text::occurs(hay@, normalize::normalized(#[trigger] all[j])),
        decreases 5 - i,
    {
        assert(all[i as int] == phrases@[i as int]@);
        let needle = normalize::normalize(phrases[i]);
        if text::contains(hay, needle.as_str()) {
            return true;
        }
        i = i + 1;
    }
    false
}

/// Whether an answer quotes every expected passage.
pub fn check_expected_quotes(example: &EvalExample, answer: &str) -> (res: bool)
    ensures
        res == all_passages_in(
            examples::passage_views(example.expected_quotes@),
            normalize::normalized(answer@),
        ),
{
    let ghost all = examples::passage_views(example.expected_quotes@);
    let hay = normalize::normalize(answer);
    let mut i: usize = 0;
    while i < example.expected_quotes.len()
        invariant
            i <= example.expected_quotes@.len(),
            hay@ == normalize::normalized(answer@),
            all == examples::passage_views(example.expected_quotes@),
            forall|j: int| 0 <= j < i ==> any_phrase_in(#[trigger] all[j], hay@),
        decreases example.expected_quotes@.len() - i,
    {
        assert(all[i as int] == example.expected_quotes@[i as int]@);
        if !has_passage(&example.expected_quotes[i], hay.as_str()) {
            return false;
        }
        i = i + 1;
    }
    true
}

/// Whether an answer holds a phrase that marks a refusal, in any answer or in this example's.
pub fn check_refused(example: &EvalExample, answer: &str) -> (res: bool)
    ensures
        res == (any_phrase_in(default_phrases(), normalize::normalized(answer@)) || any_phrase_in(
            text::texts(example.forbidden_phrases@),
            normalize::normalized(answer@),
        )),
{
    let hay = normalize::normalize(answer);
    has_default_phrase(hay.as_str()) || has_any_phrase(
        example.forbidden_phrases.as_slice(),
        hay.as_str(),
    )
}

} // verus!
