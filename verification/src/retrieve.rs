//! Reciprocal rank fusion of retrievals.
//!
//! A chunk that several lists hold is scored by the sum of `1 / (RRF_K + rank)` over its ranks, in
//! single precision. Grouping the ranks and ordering by the scores stand here.

use crate::model;
use crate::model::{Chunk, ChunkView, QueryOptions, RetrievalResult, RetrievalResultView};
use crate::sorting;
use crate::sorting::Ranked;
use crate::text;
use vstd::prelude::*;

verus! {

/// What is added to a rank before its reciprocal is taken.
pub const RRF_K: u32 = 60;

/// How many times the wanted number of results each rewritten question retrieves.
pub const FANOUT: usize = 3;

/// A chunk with its ranks in the lists that hold it, counted from zero.
#[derive(Debug)]
pub struct Fused {
    pub chunk: Chunk,
    pub ranks: Vec<usize>,
}

/// What a [`Fused`] holds.
pub struct FusedView {
    pub chunk: ChunkView,
    pub ranks: Seq<int>,
}

/// The ranks as numbers.
pub open spec fn rank_numbers(ranks: Seq<usize>) -> Seq<int> {
    ranks.map_values(|r: usize| r as int)
}

impl View for Fused {
    type V = FusedView;

    open spec fn view(&self) -> FusedView {
        FusedView { chunk: self.chunk@, ranks: rank_numbers(self.ranks@) }
    }
}

/// What each element of a list holds.
pub open spec fn fused_views(list: Seq<Fused>) -> Seq<FusedView> {
    list.map_values(|f: Fused| f@)
}

/// What the lists of a fusion hold.
pub open spec fn list_views(lists: Seq<Vec<RetrievalResult>>) -> Seq<Seq<RetrievalResultView>> {
    lists.map_values(|l: Vec<RetrievalResult>| model::result_views(l@))
}

/// A chunk at a rank.
pub struct Entry {
    pub chunk: ChunkView,
    pub rank: int,
}

/// The chunks of a list with their ranks.
pub open spec fn entries_of(list: Seq<RetrievalResultView>) -> Seq<Entry> {
    Seq::new(list.len(), |i: int| Entry { chunk: list[i].chunk, rank: i })
}

/// The chunks of all lists with their ranks, list by list.
pub open spec fn all_entries(lists: Seq<Seq<RetrievalResultView>>) -> Seq<Entry>
    decreases lists.len(),
{
    if lists.len() == 0 {
        seq![]
    } else {
        all_entries(lists.drop_last()) + entries_of(lists.last())
    }
}

/// The first element from `from` on with an id.
pub open spec fn position_of(acc: Seq<FusedView>, id: Seq<char>, from: int) -> Option<int>
    decreases acc.len() - from,
{
    if from < 0 || from >= acc.len() {
        None
    } else if acc[from].chunk.id == id {
        Some(from)
    } else {
        position_of(acc, id, from + 1)
    }
}

/// One more chunk at a rank: another rank of a chunk that is there, or a new chunk at the end.
pub open spec fn with_entry(acc: Seq<FusedView>, e: Entry) -> Seq<FusedView> {
    match position_of(acc, e.chunk.id, 0) {
        Some(i) => acc.update(
            i,
            FusedView { chunk: acc[i].chunk, ranks: acc[i].ranks.push(e.rank) },
        ),
        None => acc.push(FusedView { chunk: e.chunk, ranks: seq![e.rank] }),
    }
}

/// The chunks of some entries, each once and with all its ranks, in the order they first come.
pub open spec fn grouped(entries: Seq<Entry>) -> Seq<FusedView>
    decreases entries.len(),
{
    if entries.len() == 0 {
        seq![]
    } else {
        with_entry(grouped(entries.drop_last()), entries.last())
    }
}

/// The first element with an id.
fn find_id(acc: &Vec<Fused>, id: &String) -> (res: Option<usize>)
    ensures
        position_of(fused_views(acc@), id@, 0) == (match res {
            Some(i) => Some(i as int),
            None => None,
        }),
        res is Some ==> res.unwrap() < acc@.len(),
{
    let ghost views = fused_views(acc@);
    let mut i: usize = 0;
    while i < acc.len()
        invariant
            views == fused_views(acc@),
            i <= acc@.len(),
            position_of(views, id@, 0) == position_of(views, id@, i as int),
        decreases acc@.len() - i,
    {
        assert(views[i as int] == acc@[i as int]@);
        if acc[i].chunk.id == *id {
            return Some(i);
        }
        i = i + 1;
    }
    None
}

/// Adds a chunk at a rank.
fn add_entry(acc: &mut Vec<Fused>, chunk: &Chunk, rank: usize)
    ensures
        fused_views(final(acc)@) == with_entry(
            fused_views(old(acc)@),
            (Entry { chunk: chunk@, rank: rank as int }),
        ),
{
    let ghost before = fused_views(acc@);
    match find_id(acc, &chunk.id) {
        Some(i) => {
            let ghost was = acc@[i as int]@;
            acc[i].ranks.push(rank);
            proof {
                assert(before[i as int] == was);
                assert(acc@[i as int]@.ranks == was.ranks.push(rank as int));
            }
            assert(fused_views(acc@) == before.update(
                i as int,
                FusedView { chunk: was.chunk, ranks: was.ranks.push(rank as int) },
            ));
        },
        None => {
            let mut ranks: Vec<usize> = Vec::new();
            ranks.push(rank);
            let f = Fused { chunk: chunk.clone(), ranks };
            assert(f@.ranks == seq![rank as int]);
            acc.push(f);
            assert(fused_views(acc@) == before.push(f@));
        },
    }
}

/// Groups the chunks of several lists by their ids, with the ranks each has in them.
pub fn group_by_id(lists: &Vec<Vec<RetrievalResult>>) -> (res: Vec<Fused>)
    ensures
        fused_views(res@) == grouped(all_entries(list_views(lists@))),
{
    let ghost views = list_views(lists@);
    let mut acc: Vec<Fused> = Vec::new();
    let mut i: usize = 0;
    assert(views.take(0).len() == 0);
    assert(fused_views(acc@) == Seq::<FusedView>::empty());
    while i < lists.len()
        invariant
            views == list_views(lists@),
            i <= lists@.len(),
            fused_views(acc@) == grouped(all_entries(views.take(i as int))),
        decreases lists@.len() - i,
    {
        let list = &lists[i];
        let ghost before = all_entries(views.take(i as int));
        let ghost here = entries_of(views[i as int]);
        let mut k: usize = 0;
        assert(before + here.take(0) == before);
        assert(views[i as int] == model::result_views(list@));
        while k < list.len()
            invariant
                here == entries_of(model::result_views(list@)),
                k <= list@.len(),
                fused_views(acc@) == grouped(before + here.take(k as int)),
            decreases list@.len() - k,
        {
            add_entry(&mut acc, &list[k].chunk, k);
            proof {
                let now = before + here.take(k + 1);
                assert(here[k as int] == (Entry { chunk: list@[k as int].chunk@, rank: k as int }));
                assert(now.drop_last() == before + here.take(k as int));
                assert(now.last() == here[k as int]);
            }
            k = k + 1;
        }
        proof {
            assert(here.take(k as int) == here);
            assert(views.take(i + 1).drop_last() == views.take(i as int));
            assert(views.take(i + 1).last() == views[i as int]);
        }
        i = i + 1;
    }
    assert(views.take(i as int) == views);
    acc
}

/// The place of a single's bit pattern in the order of all singles: negative before positive, and
/// negative ones by falling magnitude.
pub open spec fn total_key(bits: u32) -> int {
    if bits < 0x8000_0000 {
        bits as int
    } else {
        0x7fff_ffff - bits
    }
}

/// The place of a single's bit pattern in the order of all singles.
fn key_of(bits: u32) -> (res: i64)
    ensures
        res == total_key(bits),
{
    if bits < 0x8000_0000 {
        bits as i64
    } else {
        0x7fff_ffff - bits as i64
    }
}

impl Ranked for RetrievalResult {
    /// Greater scores come first.
    open spec fn may_precede(self, other: RetrievalResult) -> bool {
        total_key(self.score_bits) >= total_key(other.score_bits)
    }

    proof fn lemma_total(a: RetrievalResult, b: RetrievalResult) {
    }

    proof fn lemma_transitive(a: RetrievalResult, b: RetrievalResult, c: RetrievalResult) {
    }

    fn precedes(&self, other: &RetrievalResult) -> (res: bool) {
        key_of(self.score_bits) >= key_of(other.score_bits)
    }
}

/// Whether `best` are the first results by falling score and `rest` the others.
pub open spec fn splits_by_score(
    best: Seq<RetrievalResult>,
    rest: Seq<RetrievalResult>,
    all: Seq<RetrievalResult>,
) -> bool {
    &&& sorting::in_order(best + rest)
    &&& (best + rest).to_multiset() == all.to_multiset()
}

/// The `top_k` results with the greatest scores, by falling score.
pub fn best_results(results: Vec<RetrievalResult>, top_k: usize) -> (res: Vec<RetrievalResult>)
    ensures
        exists|rest: Seq<RetrievalResult>| splits_by_score(res@, rest, results@),
        sorting::in_order(res@),
        res@.len() == if top_k <= results@.len() {
            top_k as nat
        } else {
            results@.len()
        },
{
    let ghost all = results@;
    let mut out = sorting::sort(results);
    let ghost sorted = out@;
    if top_k < out.len() {
        out.truncate(top_k);
        proof {
            let rest = sorted.skip(top_k as int);
            assert(out@ == sorted.take(top_k as int));
            assert(out@ + rest == sorted);
            assert(splits_by_score(out@, rest, all));
            assert forall|i: int, j: int| 0 <= i < j < out@.len() implies (
            #[trigger] out@[i]).may_precede(#[trigger] out@[j]) by {
                assert(sorted[i].may_precede(sorted[j]));
            }
        }
    } else {
        proof {
            assert(out@ + Seq::<RetrievalResult>::empty() == out@);
            assert(splits_by_score(out@, seq![], all));
        }
    }
    out
}

/// The questions to retrieve for: the question as it was asked, and its rewrites.
pub fn expand_queries(question: &str, rewrites: &Vec<String>) -> (res: Vec<String>)
    ensures
        text::texts(res@) == seq![question@] + text::texts(rewrites@),
{
    let mut out: Vec<String> = Vec::new();
    out.push(text::owned(question));
    let mut rest = text::copy_texts(rewrites);
    let ghost tail = text::texts(rest@);
    assert(text::texts(out@) == seq![question@]);
    out.append(&mut rest);
    assert(text::texts(out@) == seq![question@] + tail);
    out
}

/// The options that each of several questions retrieves with.
pub fn fanned_out(options: &QueryOptions) -> (res: QueryOptions)
    requires
        options.top_k * FANOUT <= usize::MAX,
    ensures
        res.top_k == options.top_k * FANOUT,
        model::option_text(res.game_filter) == model::option_text(options.game_filter),
{
    options.with_top_k(options.top_k * FANOUT)
}

} // verus!
