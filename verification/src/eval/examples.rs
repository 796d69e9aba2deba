//! The examples that an evaluation runs.

use crate::text;
use vstd::prelude::*;

verus! {

/// `std::slice::from_ref` gives a slice of length one with the value it is given.
pub assume_specification<T>[ std::slice::from_ref::<T> ](s: &T) -> (res: &[T])
    ensures
        res@ == seq![*s],
;

/// A passage that has to be found, in any of its phrasings.
#[derive(Debug)]
pub enum Passage {
    One(String),
    AnyOf(Vec<String>),
}

impl View for Passage {
    type V = Seq<Seq<char>>;

    /// The phrasings.
    open spec fn view(&self) -> Seq<Seq<char>> {
        match self {
            Passage::One(s) => seq![s@],
            Passage::AnyOf(v) => text::texts(v@),
        }
    }
}

impl Passage {
    /// The phrasings of the passage.
    pub fn phrasings(&self) -> (res: &[String])
        ensures
            text::texts(res@) == self@,
    {
        match self {
            Passage::One(s) => {
                let res = std::slice::from_ref(s);
                assert(text::texts(res@) == self@);
                res
            },
            Passage::AnyOf(v) => v.as_slice(),
        }
    }
}

/// What each passage of a list holds.
pub open spec fn passage_views(list: Seq<Passage>) -> Seq<Seq<Seq<char>>> {
    list.map_values(|p: Passage| p@)
}

/// A question with what its retrieval and its answer should hold. All the passages of a list are
/// required.
#[derive(Debug)]
pub struct EvalExample {
    pub id: String,
    pub game: Option<String>,
    pub question: String,
    pub expected_quotes: Vec<Passage>,
    pub expected_chunks: Vec<Passage>,
    pub expected_answer: String,
    pub forbidden_phrases: Vec<String>,
    pub tags: Vec<String>,
}

/// Whether one of the example's tags is in the filter.
pub open spec fn has_tag(example: EvalExample, filter: Seq<Seq<char>>) -> bool {
    exists|i: int|
        0 <= i < example.tags@.len() && filter.contains((#[trigger] example.tags@[i])@)
}

/// The examples that carry a tag of the filter, or all of them if the filter is empty.
pub open spec fn tagged(examples: Seq<EvalExample>, filter: Seq<Seq<char>>) -> Seq<EvalExample>
    decreases examples.len(),
{
    if examples.len() == 0 {
        seq![]
    } else {
        let before = tagged(examples.drop_last(), filter);
        if filter.len() == 0 || has_tag(examples.last(), filter) {
            before.push(examples.last())
        } else {
            before
        }
    }
}

/// The first `limit` elements, or all of them without a limit.
pub open spec fn limited<T>(list: Seq<T>, limit: Option<usize>) -> Seq<T> {
    match limit {
        Some(n) => if n < list.len() {
            list.take(n as int)
        } else {
            list
        },
        None => list,
    }
}

/// Whether a list holds a text.
fn holds(list: &Vec<String>, s: &String) -> (res: bool)
    ensures
        res == text::texts(list@).contains(s@),
{
    let mut i: usize = 0;
    while i < list.len()
        invariant
            i <= list@.len(),
            forall|j: int| 0 <= j < i ==> (#[trigger] list@[j])@ != s@,
        decreases list@.len() - i,
    {
        if list[i] == *s {
            assert(text::texts(list@)[i as int] == s@);
            return true;
        }
        i = i + 1;
    }
    proof {
        if text::texts(list@).contains(s@) {
            let k = choose|k: int| 0 <= k < list@.len() && text::texts(list@)[k] == s@;
            assert(list@[k]@ == s@);
        }
    }
    false
}

/// Whether one of the example's tags is in the filter.
fn is_tagged(example: &EvalExample, filter: &Vec<String>) -> (res: bool)
    ensures
        res == has_tag(*example, text::texts(filter@)),
{
    let mut i: usize = 0;
    while i < example.tags.len()
        invariant
            i <= example.tags@.len(),
            forall|j: int|
                0 <= j < i ==> !text::texts(filter@).contains((#[trigger] example.tags@[j])@),
        decreases example.tags@.len() - i,
    {
        if holds(filter, &example.tags[i]) {
            return true;
        }
        i = i + 1;
    }
    false
}

/// Picks the examples to run: those that carry a tag of the filter, as many as the limit allows.
pub fn select_examples(
    examples: Vec<EvalExample>,
    filter: &Vec<String>,
    limit: Option<usize>,
) -> (res: Vec<EvalExample>)
    ensures
        res@ == limited(tagged(examples@, text::texts(filter@)), limit),
{
    let ghost all = examples@;
    let ghost wanted = text::texts(filter@);
    let mut out: Vec<EvalExample> = Vec::new();
    assert(all.take(0).len() == 0);
    for example in it: examples.into_iter()
        invariant
            it.seq() == all,
            wanted == text::texts(filter@),
            out@ == tagged(all.take(it.index()), wanted),
    {
        let ghost i = it.index();
        proof {
            assert(all.take(i + 1).drop_last() == all.take(i));
            assert(all.take(i + 1).last() == example);
        }
        if filter.len() == 0 || is_tagged(&example, filter) {
            out.push(example);
        }
    }
    assert(all.take(all.len() as int) == all);
    match limit {
        Some(k) => {
            if k < out.len() {
                out.truncate(k);
            }
        },
        None => {},
    }
    out
}

/// Examples that carry a tag stay in order, and selecting never adds one.
pub proof fn law_selection(examples: Seq<EvalExample>, filter: Seq<Seq<char>>, limit: Option<usize>)
    ensures
        ({
            let picked = limited(tagged(examples, filter), limit);
            &&& picked.len() <= examples.len()
            &&& limit is Some ==> picked.len() <= limit.unwrap()
            &&& filter.len() == 0 && limit is None ==> picked == examples
            &&& forall|i: int|
                0 <= i < picked.len() ==> examples.contains(#[trigger] picked[i]) && (filter.len()
                    == 0 || has_tag(picked[i], filter))
        }),
{
    let picked = limited(tagged(examples, filter), limit);
    lemma_tagged(examples, filter);
    assert forall|i: int| 0 <= i < picked.len() implies examples.contains(#[trigger] picked[i]) && (
    filter.len() == 0 || has_tag(picked[i], filter)) by {
        assert(picked[i] == tagged(examples, filter)[i]);
    }
}

proof fn lemma_tagged(examples: Seq<EvalExample>, filter: Seq<Seq<char>>)
    ensures
        tagged(examples, filter).len() <= examples.len(),
        filter.len() == 0 ==> tagged(examples, filter) == examples,
        forall|i: int|
            0 <= i < tagged(examples, filter).len() ==> examples.contains(
                #[trigger] tagged(examples, filter)[i],
            ) && (filter.len() == 0 || has_tag(tagged(examples, filter)[i], filter)),
    decreases examples.len(),
{
    if examples.len() > 0 {
        let before = examples.drop_last();
        lemma_tagged(before, filter);
        assert(examples == before.push(examples.last()));
        assert forall|i: int| 0 <= i < tagged(examples, filter).len() implies examples.contains(
            #[trigger] tagged(examples, filter)[i],
        ) && (filter.len() == 0 || has_tag(tagged(examples, filter)[i], filter)) by {
            if i < tagged(before, filter).len() {
                let e = tagged(before, filter)[i];
                let k = choose|k: int| 0 <= k < before.len() && before[k] == e;
                assert(examples[k] == e);
            } else {
                assert(examples[examples.len() - 1] == tagged(examples, filter)[i]);
            }
        }
    }
}

} // verus!
