//! The cl100k tokenizer, and text out of its bytes.

use vstd::prelude::*;
use vstd::utf8::*;

verus! {

/// The tokens that `CoreBPE::encode` of the cl100k tokenizer gives for a text when no special
/// token is allowed; `None` where it reports an error.
pub uninterp spec fn cl100k_encode(text: Seq<char>) -> Option<Seq<u32>>;

/// The tokens that `CoreBPE::encode` of the cl100k tokenizer gives for a text when all its special
/// tokens are allowed; `None` where it reports an error.
pub uninterp spec fn cl100k_encode_special(text: Seq<char>) -> Option<Seq<u32>>;

/// The bytes that `CoreBPE::decode_bytes` of the cl100k tokenizer gives for a single token; `None`
/// where the token is not in the vocabulary.
pub uninterp spec fn cl100k_token_bytes(token: u32) -> Option<Seq<u8>>;

/// The characters that `String::from_utf8_lossy` reads in bytes.
pub uninterp spec fn utf8_lossy(bytes: Seq<u8>) -> Seq<char>;

/// Whether every token is in the vocabulary.
pub open spec fn in_vocabulary(tokens: Seq<u32>) -> bool {
    forall|i: int| 0 <= i < tokens.len() ==> cl100k_token_bytes(#[trigger] tokens[i]) is Some
}

/// The bytes of the tokens one after another.
pub open spec fn bytes_of_tokens(tokens: Seq<u32>) -> Seq<u8>
    decreases tokens.len(),
{
    if tokens.len() == 0 {
        seq![]
    } else {
        bytes_of_tokens(tokens.drop_last()) + cl100k_token_bytes(tokens.last()).unwrap()
    }
}

/// The text of a run of tokens, with replacement characters where their bytes are not UTF-8.
pub open spec fn text_of_tokens(tokens: Seq<u32>) -> Seq<char> {
    utf8_lossy(bytes_of_tokens(tokens))
}

/// The contents of an optional vector.
pub open spec fn option_seq<T>(v: Option<Vec<T>>) -> Option<Seq<T>> {
    match v {
        Some(x) => Some(x@),
        None => None,
    }
}

/// Calls `tiktoken_rs::cl100k_base_singleton` and `CoreBPE::encode` with no special token allowed.
/// The contract claims that the tokens are a function of the text, that each of them is in the
/// vocabulary, and that their bytes are the UTF-8 encoding of the text. Which texts it reports an
/// error on is left to the name.
#[verifier::external_body]
pub(crate) fn encode(text: &str) -> (res: Option<Vec<u32>>)
    ensures
        option_seq(res) == cl100k_encode(text@),
        res is Some ==> in_vocabulary(res.unwrap()@),
        res is Some ==> bytes_of_tokens(res.unwrap()@) == encode_utf8(text@),
{
    tiktoken_rs::cl100k_base_singleton()
        .encode(text, &std::collections::HashSet::new())
        .ok()
        .map(|pair| pair.0)
}

/// Calls `tiktoken_rs::cl100k_base_singleton` and `CoreBPE::encode` with the tokens of
/// `CoreBPE::special_tokens` allowed, which is `CoreBPE::encode_with_special_tokens` without its panic
/// on an error. The contract claims that the tokens are a function of the text. Which texts it
/// reports an error on is left to the name.
#[verifier::external_body]
pub(crate) fn encode_special(text: &str) -> (res: Option<Vec<u32>>)
    ensures
        option_seq(res) == cl100k_encode_special(text@),
{
    let bpe = tiktoken_rs::cl100k_base_singleton();
    bpe.encode(text, &bpe.special_tokens()).ok().map(|pair| pair.0)
}

/// Calls `tiktoken_rs::cl100k_base_singleton` and `CoreBPE::decode_bytes`. The contract claims that
/// it succeeds exactly when every token is in the vocabulary, and then gives the tokens' bytes one
/// after another.
#[verifier::external_body]
pub(crate) fn decode_bytes(tokens: &[u32]) -> (res: Option<Vec<u8>>)
    ensures
        res is Some <==> forall|i: int|
            0 <= i < tokens@.len() ==> cl100k_token_bytes(#[trigger] tokens@[i]) is Some,
        res is Some ==> res.unwrap()@ == bytes_of_tokens(tokens@),
{
    tiktoken_rs::cl100k_base_singleton().decode_bytes(tokens).ok()
}

/// Calls `String::from_utf8_lossy`. The contract claims that the text is a function of the bytes, and
/// that bytes which are UTF-8 are read as the characters they encode.
#[verifier::external_body]
pub(crate) fn from_utf8_lossy(bytes: &[u8]) -> (res: String)
    ensures
        res@ == utf8_lossy(bytes@),
        valid_utf8(bytes@) ==> res@ == decode_utf8(bytes@),
{
    String::from_utf8_lossy(bytes).into_owned()
}

/// The number of tokens of a text; `None` where the tokenizer reports an error.
pub open spec fn token_count(text: Seq<char>) -> Option<nat> {
    match cl100k_encode(text) {
        Some(tokens) => Some(tokens.len()),
        None => None,
    }
}

/// Counts the tokens of a text, special tokens not recognised.
pub fn count_plain_tokens(text: &str) -> (res: Option<usize>)
    ensures
        token_count(text@) == (match res {
            Some(n) => Some(n as nat),
            None => None,
        }),
{
    match encode(text) {
        Some(tokens) => Some(tokens.len()),
        None => None,
    }
}

/// The text of `tokens[from..to]`.
pub fn decode_text(tokens: &Vec<u32>, from: usize, to: usize) -> (res: String)
    requires
        from <= to <= tokens@.len(),
        in_vocabulary(tokens@),
    ensures
        res@ == text_of_tokens(tokens@.subrange(from as int, to as int)),
        valid_utf8(bytes_of_tokens(tokens@.subrange(from as int, to as int))) ==> encode_utf8(res@)
            == bytes_of_tokens(tokens@.subrange(from as int, to as int)),
{
    let slice = vstd::slice::slice_subrange(tokens.as_slice(), from, to);
    assert forall|i: int| 0 <= i < slice@.len() implies cl100k_token_bytes(
        #[trigger] slice@[i],
    ) is Some by {
        assert(slice@[i] == tokens@[from + i]);
    }
    match decode_bytes(slice) {
        Some(bytes) => {
            let text = from_utf8_lossy(bytes.as_slice());
            proof {
                if valid_utf8(bytes@) {
                    decode_utf8_encode_utf8(bytes@);
                }
            }
            text
        },
        None => String::new(),
    }
}

/// The bytes of two runs of tokens, one behind the other.
pub proof fn lemma_bytes_of_tokens_concat(a: Seq<u32>, b: Seq<u32>)
    ensures
        bytes_of_tokens(a + b) == bytes_of_tokens(a) + bytes_of_tokens(b),
    decreases b.len(),
{
    if b.len() == 0 {
        assert(a + b == a);
    } else {
        assert((a + b).drop_last() == a + b.drop_last());
        lemma_bytes_of_tokens_concat(a, b.drop_last());
    }
}

/// The UTF-8 encoding of two texts, one behind the other.
pub proof fn lemma_encode_utf8_concat(a: Seq<char>, b: Seq<char>)
    ensures
        encode_utf8(a + b) == encode_utf8(a) + encode_utf8(b),
    decreases a.len(),
{
    if a.len() == 0 {
        assert(a + b == b);
    } else {
        assert((a + b).drop_first() == a.drop_first() + b);
        lemma_encode_utf8_concat(a.drop_first(), b);
    }
}

/// Tokens are counted one by one. The bytes of tokens are those of each of them, one behind the other,
/// and their text is what these bytes read as.
pub proof fn law_tokens(text: Seq<char>, a: Seq<u32>, b: Seq<u32>, token: u32)
    ensures
        token_count(text) is Some <==> cl100k_encode(text) is Some,
        token_count(text) is Some ==> token_count(text).unwrap() == cl100k_encode(
            text,
        ).unwrap().len(),
        bytes_of_tokens(a + b) == bytes_of_tokens(a) + bytes_of_tokens(b),
        bytes_of_tokens(seq![token]) == cl100k_token_bytes(token).unwrap(),
        text_of_tokens(a) == utf8_lossy(bytes_of_tokens(a)),
{
    lemma_bytes_of_tokens_concat(a, b);
    assert(seq![token].drop_last() == Seq::<u32>::empty());
    let bytes = cl100k_token_bytes(token).unwrap();
    assert(bytes_of_tokens(Seq::<u32>::empty()) == Seq::<u8>::empty());
    assert(Seq::<u8>::empty() + bytes == bytes);
}

} // verus!
