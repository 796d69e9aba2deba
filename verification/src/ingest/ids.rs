//! The stored chunks of a document, and their ids.

use crate::ingest::manifest::{DocMeta, DocMetaView};
use crate::model;
use crate::model::{Chunk, ChunkView, DocType, RawChunk, RawChunkView};
use crate::text;
use std::collections::HashMap;
use vstd::prelude::*;

verus! {

/// How a page is written in an id.
pub open spec fn page_name(page: Option<u32>) -> Seq<char> {
    match page {
        Some(p) => text::decimal(p as nat),
        None => "none"@,
    }
}

/// The id of the chunk that is the `n`th on its page, counted from zero.
pub open spec fn chunk_id(game: Seq<char>, doc_type: DocType, page: Option<u32>, n: nat) -> Seq<char> {
    game.push('-') + model::doc_type_name(doc_type).push('-') + page_name(page).push('-')
        + text::decimal(n)
}

/// The pages of chunks.
pub open spec fn pages_of(raw: Seq<RawChunkView>) -> Seq<Option<u32>> {
    raw.map_values(|c: RawChunkView| c.page)
}

/// How often a page occurs.
pub open spec fn occurrences(pages: Seq<Option<u32>>, page: Option<u32>) -> nat
    decreases pages.len(),
{
    if pages.len() == 0 {
        0
    } else {
        occurrences(pages.drop_last(), page) + if pages.last() == page {
            1nat
        } else {
            0nat
        }
    }
}

/// The vectors of a list.
pub open spec fn vector_views(list: Seq<Vec<u32>>) -> Seq<Seq<u32>> {
    list.map_values(|v: Vec<u32>| v@)
}

/// The stored form of chunk `i` of a document.
pub open spec fn stored_at(
    doc: DocMetaView,
    raw: Seq<RawChunkView>,
    embeddings: Seq<Seq<u32>>,
    i: int,
) -> ChunkView {
    ChunkView {
        id: chunk_id(
            doc.game,
            doc.doc_type,
            raw[i].page,
            occurrences(pages_of(raw).take(i), raw[i].page),
        ),
        text: raw[i].text,
        game: doc.game,
        doc_type: doc.doc_type,
        page: raw[i].page,
        embedding: Some(embeddings[i]),
    }
}

/// The stored chunks of a document, as many as there are chunks with an embedding.
pub open spec fn stored(doc: DocMetaView, raw: Seq<RawChunkView>, embeddings: Seq<Seq<u32>>) -> Seq<
    ChunkView,
> {
    let n = if raw.len() <= embeddings.len() {
        raw.len()
    } else {
        embeddings.len()
    };
    Seq::new(n, |i: int| stored_at(doc, raw, embeddings, i))
}

/// A number for a page.
spec fn page_key(page: Option<u32>) -> u64 {
    match page {
        Some(p) => p as u64,
        None => 0x1_0000_0000,
    }
}

/// A number for a page.
fn key_of(page: Option<u32>) -> (res: u64)
    ensures
        res == page_key(page),
{
    match page {
        Some(p) => p as u64,
        None => 0x1_0000_0000,
    }
}

/// The id of the chunk that is the `n`th on its page, counted from zero.
fn make_id(game: &str, doc_type: DocType, page: Option<u32>, n: u64) -> (res: String)
    ensures
        res@ == chunk_id(game@, doc_type, page, n as nat),
{
    let mut id = String::new();
    id.append(game);
    id.push('-');
    id.append(doc_type.name());
    id.push('-');
    match page {
        Some(p) => {
            text::push_decimal(&mut id, p as u64);
        },
        None => {
            id.append("none");
        },
    }
    id.push('-');
    text::push_decimal(&mut id, n);
    assert(id@ == chunk_id(game@, doc_type, page, n as nat));
    id
}

/// What the counters hold: for each page how often it came so far.
spec fn counted(counters: Map<u64, u64>, pages: Seq<Option<u32>>) -> bool {
    forall|page: Option<u32>|
        #![trigger page_key(page)]
        occurrences(pages, page) == if counters.contains_key(page_key(page)) {
            counters[page_key(page)] as nat
        } else {
            0
        }
}

/// Pairs the chunks of a document with their embeddings and gives each an id.
pub fn stored_chunks(doc: &DocMeta, raw: &Vec<RawChunk>, embeddings: &Vec<Vec<u32>>) -> (res: Vec<
    Chunk,
>)
    ensures
        model::chunk_views(res@) == stored(
            doc@,
            model::raw_views(raw@),
            vector_views(embeddings@),
        ),
{
    broadcast use vstd::std_specs::hash::group_hash_axioms;

    let n: usize = if raw.len() <= embeddings.len() {
        raw.len()
    } else {
        embeddings.len()
    };
    let ghost views = model::raw_views(raw@);
    let ghost pages = pages_of(views);
    let ghost all = stored(doc@, views, vector_views(embeddings@));
    let mut counters: HashMap<u64, u64> = HashMap::new();
    let mut out: Vec<Chunk> = Vec::new();
    let mut i: usize = 0;
    assert(pages.take(0).len() == 0);
    assert(counted(counters@, pages.take(0)));
    assert(model::chunk_views(out@) == all.take(0));
    while i < n
        invariant
            vstd::std_specs::hash::obeys_key_model::<u64>(),
            n <= raw@.len(),
            n <= embeddings@.len(),
            views == model::raw_views(raw@),
            pages == pages_of(views),
            all == stored(doc@, views, vector_views(embeddings@)),
            all.len() == n,
            i <= n,
            counted(counters@, pages.take(i as int)),
            model::chunk_views(out@) == all.take(i as int),
        decreases n - i,
    {
        broadcast use vstd::std_specs::hash::group_hash_axioms;

        let page = raw[i].page;
        let key = key_of(page);
        let count: u64 = match counters.get(&key) {
            Some(c) => *c,
            None => 0,
        };
        proof {
            assert(occurrences(pages.take(i as int), page) == count);
            lemma_occurrences_bound(pages.take(i as int), page);
        }
        let id = make_id(doc.game.as_str(), doc.doc_type, page, count);
        let embedding: Vec<u32> = embeddings[i].clone();
        assert(embedding@ == embeddings@[i as int]@);
        let chunk = Chunk {
            id,
            text: raw[i].text.clone(),
            game: doc.game.clone(),
            doc_type: doc.doc_type,
            page,
            embedding: Some(embedding),
        };
        proof {
            assert(views[i as int] == raw@[i as int]@);
            assert(all.take(i + 1) == all.take(i as int).push(all[i as int]));
            assert(pages.take(i + 1).drop_last() == pages.take(i as int));
            assert(pages.take(i + 1).last() == page);
        }
        let ghost before = counters@;
        counters.insert(key, count + 1);
        assert forall|p: Option<u32>| #![trigger page_key(p)]
            occurrences(pages.take(i + 1), p) == if counters@.contains_key(page_key(p)) {
                counters@[page_key(p)] as nat
            } else {
                0
            } by {
            assert(page_key(p) == page_key(page) ==> p == page);
        }
        let ghost done = model::chunk_views(out@);
        out.push(chunk);
        assert(model::chunk_views(out@) == done.push(chunk@));
        i = i + 1;
    }
    assert(all.take(n as int) == all);
    out
}

proof fn lemma_occurrences_bound(pages: Seq<Option<u32>>, page: Option<u32>)
    ensures
        occurrences(pages, page) <= pages.len(),
    decreases pages.len(),
{
    if pages.len() > 0 {
        lemma_occurrences_bound(pages.drop_last(), page);
    }
}

proof fn lemma_occurrences_grow(pages: Seq<Option<u32>>, page: Option<u32>, i: int, j: int)
    requires
        0 <= i <= j <= pages.len(),
    ensures
        occurrences(pages.take(i), page) <= occurrences(pages.take(j), page),
    decreases j - i,
{
    if i < j {
        lemma_occurrences_grow(pages, page, i, j - 1);
        assert(pages.take(j).drop_last() == pages.take(j - 1));
    }
}

proof fn lemma_hyphen_splits(a: Seq<char>, b: Seq<char>, c: Seq<char>, d: Seq<char>)
    requires
        a.push('-') + b == c.push('-') + d,
        forall|i: int| 0 <= i < a.len() ==> #[trigger] a[i] != '-',
        forall|i: int| 0 <= i < c.len() ==> #[trigger] c[i] != '-',
    ensures
        a == c,
        b == d,
{
    let x = a.push('-') + b;
    let y = c.push('-') + d;
    assert(x[a.len() as int] == '-');
    assert(y[c.len() as int] == '-');
    if a.len() < c.len() {
        assert(y[a.len() as int] == c[a.len() as int]);
    }
    if c.len() < a.len() {
        assert(x[c.len() as int] == a[c.len() as int]);
    }
    assert(a == x.take(a.len() as int));
    assert(c == y.take(a.len() as int));
    assert(b == x.skip(a.len() as int + 1));
    assert(d == y.skip(a.len() as int + 1));
}

proof fn lemma_page_name(page: Option<u32>)
    ensures
        forall|i: int| 0 <= i < page_name(page).len() ==> #[trigger] page_name(page)[i] != '-',
        page is None <==> page_name(page)[0] == 'n',
        page_name(page).len() > 0,
{
    reveal_strlit("none");
    match page {
        Some(p) => {
            text::lemma_decimal_digits(p as nat);
        },
        None => {},
    }
}

proof fn lemma_page_name_injective(a: Option<u32>, b: Option<u32>)
    requires
        page_name(a) == page_name(b),
    ensures
        a == b,
{
    lemma_page_name(a);
    lemma_page_name(b);
    match (a, b) {
        (Some(p), Some(q)) => {
            text::lemma_decimal_injective(p as nat, q as nat);
        },
        _ => {},
    }
}

/// No two chunks of a document have the same id.
pub proof fn law_ids_are_unique(
    doc: DocMetaView,
    raw: Seq<RawChunkView>,
    embeddings: Seq<Seq<u32>>,
    i: int,
    j: int,
)
    requires
        0 <= i < j < stored(doc, raw, embeddings).len(),
    ensures
        stored(doc, raw, embeddings)[i].id != stored(doc, raw, embeddings)[j].id,
{
    let pages = pages_of(raw);
    let p = raw[i].page;
    let q = raw[j].page;
    let m = occurrences(pages.take(i), p);
    let n = occurrences(pages.take(j), q);
    let x = chunk_id(doc.game, doc.doc_type, p, m);
    let y = chunk_id(doc.game, doc.doc_type, q, n);
    if x == y {
        let head = doc.game.push('-') + model::doc_type_name(doc.doc_type).push('-');
        let k = head.len() as int;
        let s = page_name(p).push('-') + text::decimal(m);
        let t = page_name(q).push('-') + text::decimal(n);
        assert(x == head + s);
        assert(y == head + t);
        assert(s == x.skip(k));
        assert(t == y.skip(k));
        lemma_page_name(p);
        lemma_page_name(q);
        lemma_hyphen_splits(page_name(p), text::decimal(m), page_name(q), text::decimal(n));
        lemma_page_name_injective(p, q);
        text::lemma_decimal_injective(m, n);
        assert(pages.take(i + 1).drop_last() == pages.take(i));
        assert(pages.take(i + 1).last() == p);
        lemma_occurrences_grow(pages, p, i + 1, j);
    }
}

proof fn lemma_occurrences_counted(pages: Seq<Option<u32>>, page: Option<u32>)
    ensures
        occurrences(pages, page) == pages.to_multiset().count(page),
    decreases pages.len(),
{
    pages.to_multiset_ensures();
    if pages.len() > 0 {
        let before = pages.drop_last();
        before.to_multiset_ensures();
        lemma_occurrences_counted(before, page);
        assert(pages == before.push(pages.last()));
    }
}

/// Every chunk that has an embedding is stored, in order, with its own text, page and embedding and
/// with the game and the kind of its document. Its id is made of these and of how many chunks before
/// it are on its page.
pub proof fn law_stored(doc: DocMetaView, raw: Seq<RawChunkView>, embeddings: Seq<Seq<u32>>)
    ensures
        ({
            let chunks = stored(doc, raw, embeddings);
            &&& chunks.len() <= raw.len() && chunks.len() <= embeddings.len()
            &&& chunks.len() == raw.len() || chunks.len() == embeddings.len()
            &&& forall|i: int|
                0 <= i < chunks.len() ==> {
                    let c = #[trigger] chunks[i];
                    &&& c.text == raw[i].text
                    &&& c.page == raw[i].page
                    &&& c.embedding == Some(embeddings[i])
                    &&& c.game == doc.game
                    &&& c.doc_type == doc.doc_type
                    &&& c.id == doc.game + "-"@ + (match doc.doc_type {
                        DocType::Rules => "rules"@,
                        DocType::Faq => "faq"@,
                        DocType::Reference => "reference"@,
                    }) + "-"@ + (match raw[i].page {
                        Some(p) => text::decimal(p as nat),
                        None => "none"@,
                    }) + "-"@ + text::decimal(
                        raw.take(i).map_values(|r: RawChunkView| r.page).to_multiset().count(
                            raw[i].page,
                        ),
                    )
                }
        }),
{
    reveal_strlit("-");
    let chunks = stored(doc, raw, embeddings);
    assert forall|i: int| 0 <= i < chunks.len() implies (#[trigger] chunks[i]).id == doc.game + "-"@
        + (match doc.doc_type {
        DocType::Rules => "rules"@,
        DocType::Faq => "faq"@,
        DocType::Reference => "reference"@,
    }) + "-"@ + (match raw[i].page {
        Some(p) => text::decimal(p as nat),
        None => "none"@,
    }) + "-"@ + text::decimal(
        raw.take(i).map_values(|r: RawChunkView| r.page).to_multiset().count(raw[i].page),
    ) by {
        assert(pages_of(raw).take(i) == raw.take(i).map_values(|r: RawChunkView| r.page));
        lemma_occurrences_counted(pages_of(raw).take(i), raw[i].page);
    }
}

} // verus!
