//! Answering from a whole rulebook.

use crate::ingest::manifest;
use crate::ingest::manifest::{DocMeta, DocMetaView};
use crate::model;
use crate::model::{Chunk, ChunkView, RetrievalResult, RetrievalResultView};
use vstd::prelude::*;

verus! {

/// The bit pattern of the single one.
pub const SCORE_ONE: u32 = 0x3f80_0000;

/// The first document from `from` on of a game.
pub open spec fn first_of_game(docs: Seq<DocMetaView>, game: Seq<char>, from: int) -> Option<
    DocMetaView,
>
    decreases docs.len() - from,
{
    if from < 0 || from >= docs.len() {
        None
    } else if docs[from].game == game {
        Some(docs[from])
    } else {
        first_of_game(docs, game, from + 1)
    }
}

/// The document that a question about a game is answered from; `None` without a game, or if the
/// manifest has no document of it.
pub open spec fn context_document(docs: Seq<DocMetaView>, game: Option<Seq<char>>) -> Option<
    DocMetaView,
> {
    match game {
        Some(g) => first_of_game(docs, g, 0),
        None => None,
    }
}

/// A whole document as the only result.
pub open spec fn whole_document(doc: DocMetaView, text: Seq<char>) -> RetrievalResultView {
    RetrievalResultView {
        chunk: ChunkView {
            id: doc.game,
            text,
            game: doc.game,
            doc_type: doc.doc_type,
            page: None,
            embedding: None,
        },
        score_bits: SCORE_ONE,
    }
}

/// The document that a question about a game is answered from.
pub fn find_context(docs: &Vec<DocMeta>, game: &Option<String>) -> (res: Option<DocMeta>)
    ensures
        context_document(manifest::doc_views(docs@), model::option_text(*game)) == (match res {
            Some(doc) => Some(doc@),
            None => None,
        }),
{
    let ghost views = manifest::doc_views(docs@);
    match game {
        Some(g) => {
            let mut i: usize = 0;
            while i < docs.len()
                invariant
                    views == manifest::doc_views(docs@),
                    model::option_text(*game) == Some(g@),
                    i <= docs@.len(),
                    first_of_game(views, g@, 0) == first_of_game(views, g@, i as int),
                decreases docs@.len() - i,
            {
                assert(views[i as int] == docs@[i as int]@);
                if docs[i].game == *g {
                    return Some(docs[i].clone());
                }
                i = i + 1;
            }
            None
        },
        None => None,
    }
}

/// A whole document as the only result.
pub fn whole_document_results(doc: &DocMeta, text: String) -> (res: Vec<RetrievalResult>)
    ensures
        model::result_views(res@) == seq![whole_document(doc@, text@)],
{
    let result = RetrievalResult {
        chunk: Chunk {
            id: doc.game.clone(),
            text,
            game: doc.game.clone(),
            doc_type: doc.doc_type,
            page: None,
            embedding: None,
        },
        score_bits: SCORE_ONE,
    };
    let mut out: Vec<RetrievalResult> = Vec::new();
    out.push(result);
    assert(model::result_views(out@) == seq![whole_document(doc@, text@)]);
    out
}

/// Whether document `i` is the first of a game.
pub open spec fn first_document(docs: Seq<DocMetaView>, game: Seq<char>, i: int) -> bool {
    &&& 0 <= i < docs.len()
    &&& docs[i].game == game
    &&& forall|j: int| 0 <= j < i ==> (#[trigger] docs[j]).game != game
}

proof fn lemma_first_of_game(docs: Seq<DocMetaView>, game: Seq<char>, from: int)
    requires
        0 <= from,
        forall|j: int| 0 <= j < from && j < docs.len() ==> (#[trigger] docs[j]).game != game,
    ensures
        match first_of_game(docs, game, from) {
            Some(doc) => exists|i: int| #[trigger] first_document(docs, game, i) && docs[i] == doc,
            None => forall|i: int| 0 <= i < docs.len() ==> (#[trigger] docs[i]).game != game,
        },
    decreases docs.len() - from,
{
    if from < docs.len() {
        if docs[from].game == game {
            assert(first_document(docs, game, from));
        } else {
            lemma_first_of_game(docs, game, from + 1);
        }
    }
}

/// A question about a game is answered from the first document of that game. There is none exactly
/// when no game is named or no document is of it.
pub proof fn law_context_document(docs: Seq<DocMetaView>, game: Option<Seq<char>>)
    ensures
        match context_document(docs, game) {
            Some(doc) => game is Some && exists|i: int| #[trigger]
                first_document(docs, game.unwrap(), i) && docs[i] == doc,
            None => game is None || forall|i: int|
                0 <= i < docs.len() ==> (#[trigger] docs[i]).game != game.unwrap(),
        },
{
    if game is Some {
        lemma_first_of_game(docs, game.unwrap(), 0);
    }
}

/// A whole document as a result has the document's text, game and kind, no page and the score one.
pub proof fn law_whole_document(doc: DocMetaView, text: Seq<char>)
    ensures
        ({
            let r = whole_document(doc, text);
            &&& r.chunk.text == text
            &&& r.chunk.game == doc.game
            &&& r.chunk.id == doc.game
            &&& r.chunk.doc_type == doc.doc_type
            &&& r.chunk.page is None
            &&& r.chunk.embedding is None
            &&& r.score_bits == 0x3f80_0000
        }),
{
}

} // verus!
