//! Token counts that stand in for the size of prompts and answers.

use crate::model;
use crate::model::{RetrievalResult, RetrievalResultView};
use crate::tokenizer;
use vstd::prelude::*;

verus! {

/// The number of tokens of a text, special tokens recognised; `None` where the tokenizer reports an
/// error.
pub open spec fn counted(text: Seq<char>) -> Option<nat> {
    match tokenizer::cl100k_encode_special(text) {
        Some(tokens) => Some(tokens.len()),
        None => None,
    }
}

/// The sum of two counts, as far as it can be held.
pub open spec fn sum_of(a: Option<nat>, b: Option<nat>) -> Option<nat> {
    if a is Some && b is Some && a.unwrap() + b.unwrap() <= usize::MAX {
        Some(a.unwrap() + b.unwrap())
    } else {
        None
    }
}

/// The tokens of a question and of the chunks behind it.
pub open spec fn counted_with(question: Seq<char>, results: Seq<RetrievalResultView>) -> Option<nat>
    decreases results.len(),
{
    if results.len() == 0 {
        counted(question)
    } else {
        sum_of(counted_with(question, results.drop_last()), counted(results.last().chunk.text))
    }
}

/// The number of an optional count.
pub open spec fn as_nat(n: Option<usize>) -> Option<nat> {
    match n {
        Some(x) => Some(x as nat),
        None => None,
    }
}

/// The number of tokens of a text, special tokens recognised; `None` where the tokenizer reports an
/// error.
pub fn count_tokens(text: &str) -> (res: Option<usize>)
    ensures
        as_nat(res) == counted(text@),
{
    match tokenizer::encode_special(text) {
        Some(tokens) => Some(tokens.len()),
        None => None,
    }
}

/// Without a count for some chunks there is none for more.
proof fn lemma_uncounted_persists(question: Seq<char>, results: Seq<RetrievalResultView>, n: int)
    requires
        0 <= n <= results.len(),
        counted_with(question, results.take(n)) is None,
    ensures
        counted_with(question, results) is None,
    decreases results.len() - n,
{
    if n == results.len() {
        assert(results.take(n) == results);
    } else {
        assert(results.take(n + 1).drop_last() == results.take(n));
        lemma_uncounted_persists(question, results, n + 1);
    }
}

/// The tokens of a question and of the retrieved chunks; `None` where the tokenizer reports an
/// error or the sum cannot be held.
pub fn count_input(question: &str, results: &[RetrievalResult]) -> (res: Option<usize>)
    ensures
        as_nat(res) == counted_with(question@, model::result_views(results@)),
{
    let n: usize = results.len();
    let ghost all = model::result_views(results@);
    let mut total: usize = match count_tokens(question) {
        Some(t) => t,
        None => {
            proof {
                assert(all.take(0).len() == 0);
                lemma_uncounted_persists(question@, all, 0);
            }
            return None;
        },
    };
    let mut i: usize = 0;
    assert(all.take(0).len() == 0);
    while i < n
        invariant
            n == results@.len(),
            all == model::result_views(results@),
            i <= n,
            counted_with(question@, all.take(i as int)) == Some(total as nat),
        decreases n - i,
    {
        proof {
            assert(all.take(i + 1).drop_last() == all.take(i as int));
            assert(all.take(i + 1).last() == results@[i as int]@);
        }
        match count_tokens(results[i].chunk.text.as_str()) {
            Some(t) => {
                if t > usize::MAX - total {
                    proof {
                        lemma_uncounted_persists(question@, all, i + 1);
                    }
                    return None;
                }
                total = total + t;
            },
            None => {
                proof {
                    lemma_uncounted_persists(question@, all, i + 1);
                }
                return None;
            },
        }
        i = i + 1;
    }
    assert(all.take(n as int) == all);
    Some(total)
}

/// The count of a text is the number of its tokens with the special ones recognised.
pub proof fn law_counted(text: Seq<char>)
    ensures
        counted(text) is Some <==> tokenizer::cl100k_encode_special(text) is Some,
        counted(text) is Some ==> counted(text).unwrap() == tokenizer::cl100k_encode_special(
            text,
        ).unwrap().len(),
{
}

} // verus!
