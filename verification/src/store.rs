//! What goes into the store's table and comes out of it.

use crate::model;
use crate::model::{Chunk, ChunkView};
use crate::text;
use vstd::prelude::*;

verus! {

/// The chunks that have an embedding.
pub open spec fn embedded(chunks: Seq<ChunkView>) -> Seq<ChunkView>
    decreases chunks.len(),
{
    if chunks.len() == 0 {
        seq![]
    } else {
        let before = embedded(chunks.drop_last());
        if chunks.last().embedding is Some {
            before.push(chunks.last())
        } else {
            before
        }
    }
}

/// The columns below `n`, without the column `skip`.
pub open spec fn columns_below(n: int, skip: int) -> Seq<int>
    decreases n,
{
    if n <= 0 {
        seq![]
    } else if n - 1 == skip {
        columns_below(n - 1, skip)
    } else {
        columns_below(n - 1, skip).push(n - 1)
    }
}

/// The chunks to store: those that have an embedding.
pub fn storable(chunks: &Vec<Chunk>) -> (res: Vec<Chunk>)
    ensures
        model::chunk_views(res@) == embedded(model::chunk_views(chunks@)),
{
    let ghost all = model::chunk_views(chunks@);
    let mut out: Vec<Chunk> = Vec::new();
    let mut i: usize = 0;
    assert(all.take(0).len() == 0);
    assert(model::chunk_views(out@) == Seq::<ChunkView>::empty());
    while i < chunks.len()
        invariant
            all == model::chunk_views(chunks@),
            i <= chunks@.len(),
            model::chunk_views(out@) == embedded(all.take(i as int)),
        decreases chunks@.len() - i,
    {
        proof {
            assert(all.take(i + 1).drop_last() == all.take(i as int));
            assert(all.take(i + 1).last() == chunks@[i as int]@);
        }
        if chunks[i].embedding.is_some() {
            let ghost before = model::chunk_views(out@);
            let chunk = chunks[i].clone();
            out.push(chunk);
            assert(model::chunk_views(out@) == before.push(chunk@));
        }
        i = i + 1;
    }
    assert(all.take(i as int) == all);
    out
}

/// The columns to read of a table with `n` columns: all but the embedding.
pub fn columns_without(n: usize, embedding: usize) -> (res: Vec<usize>)
    ensures
        res@.map_values(|c: usize| c as int) == columns_below(n as int, embedding as int),
{
    let mut out: Vec<usize> = Vec::new();
    let mut i: usize = 0;
    assert(out@.map_values(|c: usize| c as int) == columns_below(0, embedding as int));
    while i < n
        invariant
            i <= n,
            out@.map_values(|c: usize| c as int) == columns_below(i as int, embedding as int),
        decreases n - i,
    {
        if i != embedding {
            let ghost before = out@.map_values(|c: usize| c as int);
            out.push(i);
            assert(out@.map_values(|c: usize| c as int) == before.push(i as int));
        }
        i = i + 1;
    }
    out
}

/// The condition that limits a query to a game: the name in quotes, with each quote in it doubled.
pub open spec fn game_condition(game: Seq<char>) -> Seq<char> {
    "game = '"@ + text::replaced(game, "'"@, "''"@) + "'"@
}

/// The condition that limits a query to a game.
pub fn game_predicate(game: &str) -> (res: String)
    ensures
        res@ == game_condition(game@),
{
    proof {
        reveal_strlit("'");
    }
    let quoted = text::replace_all(game, "'", "''");
    let mut out = text::owned("game = '");
    out.append(quoted.as_str());
    out.append("'");
    out
}

/// Whether names are in ascending order, each once.
pub open spec fn strictly_ascending(names: Seq<Seq<char>>) -> bool {
    forall|i: int, j: int|
        0 <= i < j < names.len() ==> text::text_le(#[trigger] names[i], #[trigger] names[j])
            && names[i] != names[j]
}

/// Puts a name into a list of names in ascending order, unless it is there.
fn insert_name(list: &mut Vec<String>, name: &String)
    requires
        strictly_ascending(text::texts(old(list)@)),
    ensures
        strictly_ascending(text::texts(final(list)@)),
        forall|x: Seq<char>|
            text::texts(final(list)@).contains(x) <==> text::texts(old(list)@).contains(x) || x
                == name@,
{
    let ghost before = text::texts(list@);
    let mut at: usize = 0;
    while at < list.len() && text::is_text_le(list[at].as_str(), name.as_str())
        invariant
            list@ == old(list)@,
            before == text::texts(list@),
            strictly_ascending(before),
            at <= list@.len(),
            forall|i: int|
                0 <= i < at ==> text::text_le(#[trigger] before[i], name@) && before[i] != name@,
        decreases list@.len() - at,
    {
        assert(before[at as int] == list@[at as int]@);
        if list[at] == *name {
            return;
        }
        at = at + 1;
    }
    list.insert(at, name.clone());
    proof {
        let after = text::texts(list@);
        assert(after == before.insert(at as int, name@));
        assert forall|i: int, j: int| 0 <= i < j < after.len() implies text::text_le(
            #[trigger] after[i],
            #[trigger] after[j],
        ) && after[i] != after[j] by {
            if j < at {
                assert(after[i] == before[i] && after[j] == before[j]);
            } else if i < at {
                assert(after[i] == before[i]);
                if j > at {
                    assert(after[j] == before[j - 1]);
                }
            } else {
                let first = before[at as int];
                assert(after[j] == before[j - 1]);
                if i == at {
                    text::lemma_text_le_total(name@, first);
                    if j - 1 > at {
                        text::lemma_text_le_transitive(name@, first, before[j - 1]);
                    }
                } else {
                    assert(after[i] == before[i - 1]);
                }
            }
        }
        assert forall|x: Seq<char>| after.contains(x) <==> before.contains(x) || x == name@ by {
            if before.contains(x) {
                let k = choose|k: int| 0 <= k < before.len() && before[k] == x;
                assert(after[if k < at {
                    k
                } else {
                    k + 1
                }] == x);
            }
            if x == name@ {
                assert(after[at as int] == x);
            }
            if after.contains(x) {
                let k = choose|k: int| 0 <= k < after.len() && after[k] == x;
                if k < at {
                    assert(before[k] == x);
                } else if k > at {
                    assert(before[k - 1] == x);
                }
            }
        }
    }
}

/// The different names of a list, in ascending order.
pub fn distinct_names(names: &Vec<String>) -> (res: Vec<String>)
    ensures
        strictly_ascending(text::texts(res@)),
        forall|x: Seq<char>| text::texts(res@).contains(x) <==> text::texts(names@).contains(x),
{
    let ghost all = text::texts(names@);
    let mut out: Vec<String> = Vec::new();
    let mut i: usize = 0;
    assert(text::texts(out@) == all.take(0));
    while i < names.len()
        invariant
            all == text::texts(names@),
            i <= names@.len(),
            strictly_ascending(text::texts(out@)),
            forall|x: Seq<char>|
                text::texts(out@).contains(x) <==> all.take(i as int).contains(x),
        decreases names@.len() - i,
    {
        insert_name(&mut out, &names[i]);
        proof {
            let earlier = all.take(i as int);
            let now = all.take(i + 1);
            assert(now == earlier.push(names@[i as int]@));
            assert forall|x: Seq<char>| now.contains(x) <==> earlier.contains(x) || x
                == names@[i as int]@ by {
                if earlier.contains(x) {
                    let k = choose|k: int| 0 <= k < earlier.len() && earlier[k] == x;
                    assert(now[k] == x);
                }
                assert(now[i as int] == names@[i as int]@);
            }
        }
        i = i + 1;
    }
    assert(all.take(i as int) == all);
    out
}

/// Every chunk with an embedding is stored, and nothing else is.
pub proof fn law_only_embedded_chunks_are_stored(chunks: Seq<ChunkView>)
    ensures
        forall|i: int|
            0 <= i < embedded(chunks).len() ==> (#[trigger] embedded(chunks)[i]).embedding is Some
                && chunks.contains(embedded(chunks)[i]),
        forall|i: int|
            0 <= i < chunks.len() && (#[trigger] chunks[i]).embedding is Some ==> embedded(
                chunks,
            ).contains(chunks[i]),
    decreases chunks.len(),
{
    if chunks.len() > 0 {
        let before = chunks.drop_last();
        let kept = embedded(before);
        let all = embedded(chunks);
        law_only_embedded_chunks_are_stored(before);
        assert(chunks.last() == chunks[chunks.len() - 1]);
        assert forall|i: int| 0 <= i < all.len() implies (#[trigger] all[i]).embedding is Some
            && chunks.contains(all[i]) by {
            if i < kept.len() {
                assert(kept[i] == all[i]);
                let k = choose|k: int| 0 <= k < before.len() && before[k] == kept[i];
                assert(chunks[k] == all[i]);
            }
        }
        assert forall|i: int| 0 <= i < chunks.len() && (
        #[trigger] chunks[i]).embedding is Some implies all.contains(chunks[i]) by {
            if i < before.len() {
                assert(before[i] == chunks[i]);
                let k = choose|k: int| 0 <= k < kept.len() && kept[k] == before[i];
                assert(all[k] == chunks[i]);
            } else {
                assert(all[all.len() - 1] == chunks[i]);
            }
        }
    }
}

/// What is stored are the chunks with an embedding, in order and each as often as it comes.
pub proof fn law_embedded(chunks: Seq<ChunkView>)
    ensures
        embedded(chunks) == chunks.filter(|c: ChunkView| c.embedding is Some),
    decreases chunks.len(),
{
    reveal(Seq::filter);
    if chunks.len() > 0 {
        law_embedded(chunks.drop_last());
    }
}

/// The columns to read are all columns but one, each once and in ascending order.
pub proof fn law_columns(n: int, skip: int)
    ensures
        forall|c: int| #[trigger] columns_below(n, skip).contains(c) <==> 0 <= c < n && c != skip,
        forall|i: int, j: int|
            0 <= i < j < columns_below(n, skip).len() ==> #[trigger] columns_below(n, skip)[i]
                < #[trigger] columns_below(n, skip)[j],
    decreases n,
{
    if n > 0 {
        let before = columns_below(n - 1, skip);
        let all = columns_below(n, skip);
        law_columns(n - 1, skip);
        assert forall|i: int, j: int| 0 <= i < j < all.len() implies #[trigger] all[i]
            < #[trigger] all[j] by {
            if j == before.len() {
                assert(before.contains(before[i]));
            }
        }
        assert forall|c: int| #[trigger] all.contains(c) <==> 0 <= c < n && c != skip by {
            assert(before.contains(c) <==> 0 <= c < n - 1 && c != skip);
            if before.contains(c) {
                let k = choose|k: int| 0 <= k < before.len() && before[k] == c;
                assert(all[k] == c);
            }
            if c == n - 1 && c != skip {
                assert(all[before.len() as int] == c);
            }
            if all.contains(c) {
                let k = choose|k: int| 0 <= k < all.len() && all[k] == c;
                if k < before.len() {
                    assert(before[k] == c);
                }
            }
        }
    }
}

/// A character as it is written between quotes.
pub open spec fn quoted(c: char) -> Seq<char> {
    if c == '\'' {
        seq!['\'', '\'']
    } else {
        seq![c]
    }
}

proof fn lemma_quoted(game: Seq<char>)
    ensures
        text::replaced(game, "'"@, "''"@) == game.map_values(|c: char| quoted(c)).flatten(),
    decreases game.len(),
{
    reveal_strlit("'");
    reveal_strlit("''");
    let parts = game.map_values(|c: char| quoted(c));
    if game.len() > 0 {
        let rest = game.skip(1);
        lemma_quoted(rest);
        assert(parts.drop_first() == rest.map_values(|c: char| quoted(c)));
        assert(parts.first() == quoted(game[0]));
        assert("''"@ == seq!['\'', '\'']);
        if game[0] == '\'' {
            assert(game.subrange(0, 1) == "'"@);
            assert(text::occurs_at(game, "'"@, 0));
        } else {
            if text::occurs_at(game, "'"@, 0) {
                assert(game.subrange(0, 1)[0] == "'"@[0]);
            }
        }
    }
}

/// The condition names the game between quotes, every character as it is but quotes doubled.
pub proof fn law_game_condition(game: Seq<char>)
    ensures
        game_condition(game) == "game = '"@ + game.map_values(|c: char| quoted(c)).flatten() + "'"@,
{
    lemma_quoted(game);
}

} // verus!
