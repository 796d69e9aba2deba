//! The pages of an extracted rulebook.

use crate::page_marker;
use vstd::prelude::*;

verus! {

/// The lines of each page. A page starts behind a page marker; what comes before the first marker
/// belongs to no page.
pub open spec fn pages(lines: Seq<Seq<char>>) -> Seq<Seq<Seq<char>>>
    decreases lines.len(),
{
    if lines.len() == 0 {
        seq![]
    } else {
        let before = pages(lines.drop_last());
        if page_marker::page_marker(lines.last()) {
            before.push(seq![])
        } else if before.len() == 0 {
            before
        } else {
            before.drop_last().push(before.last().push(lines.last()))
        }
    }
}

/// The number of page markers among the lines.
pub open spec fn marker_count(lines: Seq<Seq<char>>) -> nat
    decreases lines.len(),
{
    if lines.len() == 0 {
        0
    } else {
        marker_count(lines.drop_last()) + if page_marker::page_marker(lines.last()) {
            1nat
        } else {
            0nat
        }
    }
}

/// There is one page for each marker, whatever number the marker shows.
pub proof fn law_one_page_per_marker(lines: Seq<Seq<char>>)
    ensures
        pages(lines).len() == marker_count(lines),
    decreases lines.len(),
{
    if lines.len() > 0 {
        law_one_page_per_marker(lines.drop_last());
    }
}

/// Lines before the first page marker are dropped.
pub proof fn law_preamble_is_dropped(preamble: Seq<Seq<char>>, rest: Seq<Seq<char>>)
    requires
        forall|i: int|
            0 <= i < preamble.len() ==> !page_marker::page_marker(#[trigger] preamble[i]),
    ensures
        pages(preamble + rest) == pages(rest),
    decreases preamble.len() + rest.len(),
{
    let all = preamble + rest;
    if rest.len() > 0 {
        law_preamble_is_dropped(preamble, rest.drop_last());
        assert(all.drop_last() == preamble + rest.drop_last());
        assert(all.last() == rest.last());
    } else if preamble.len() > 0 {
        assert(all == preamble);
        assert(all.last() == preamble[preamble.len() - 1]);
        law_preamble_is_dropped(preamble.drop_last(), rest);
        assert(all.drop_last() == preamble.drop_last() + rest);
    }
}

/// The lines behind exactly `page` page markers, without the markers. Page zero is what comes before
/// the first marker.
pub open spec fn lines_on_page(lines: Seq<Seq<char>>, page: nat) -> Seq<Seq<char>>
    decreases lines.len(),
{
    if lines.len() == 0 {
        seq![]
    } else {
        let before = lines_on_page(lines.drop_last(), page);
        if page_marker::page_marker(lines.last()) || marker_count(lines) != page {
            before
        } else {
            before.push(lines.last())
        }
    }
}

/// No line is behind more markers than there are.
proof fn lemma_no_lines_ahead(lines: Seq<Seq<char>>, page: nat)
    requires
        page > marker_count(lines),
    ensures
        lines_on_page(lines, page) == Seq::<Seq<char>>::empty(),
    decreases lines.len(),
{
    if lines.len() > 0 {
        lemma_no_lines_ahead(lines.drop_last(), page);
    }
}

/// The pages are counted from one: each holds the lines behind as many markers.
pub proof fn law_pages_are_counted_from_one(lines: Seq<Seq<char>>, i: int)
    requires
        0 <= i < pages(lines).len(),
    ensures
        pages(lines)[i] == lines_on_page(lines, (i + 1) as nat),
    decreases lines.len(),
{
    law_one_page_per_marker(lines);
    let before = lines.drop_last();
    law_one_page_per_marker(before);
    if i < pages(before).len() {
        law_pages_are_counted_from_one(before, i);
    } else {
        lemma_no_lines_ahead(before, (i + 1) as nat);
    }
}

/// A prefix of the lines holds no more markers than all of them.
pub proof fn lemma_marker_count_prefix(lines: Seq<Seq<char>>, n: int)
    requires
        0 <= n <= lines.len(),
    ensures
        marker_count(lines.take(n)) <= marker_count(lines),
    decreases lines.len(),
{
    if n == lines.len() {
        assert(lines.take(n) == lines);
    } else {
        lemma_marker_count_prefix(lines.drop_last(), n);
        assert(lines.drop_last().take(n) == lines.take(n));
    }
}

/// The number of page markers is that of the lines that are one.
pub proof fn law_marker_count(lines: Seq<Seq<char>>)
    ensures
        marker_count(lines) == lines.filter(|l: Seq<char>| page_marker::page_marker(l)).len(),
    decreases lines.len(),
{
    reveal(Seq::filter);
    if lines.len() > 0 {
        law_marker_count(lines.drop_last());
    }
}

/// A page marker ends the page before it, and the lines behind it up to the next marker are a page.
pub proof fn law_new_page(before: Seq<Seq<char>>, marker: Seq<char>, page: Seq<Seq<char>>)
    requires
        page_marker::page_marker(marker),
        forall|i: int| 0 <= i < page.len() ==> !page_marker::page_marker(#[trigger] page[i]),
    ensures
        pages(before.push(marker) + page) == pages(before).push(page),
    decreases page.len(),
{
    let all = before.push(marker) + page;
    if page.len() == 0 {
        assert(all == before.push(marker));
        assert(all.drop_last() == before);
        assert(page == Seq::<Seq<char>>::empty());
    } else {
        let rest = page.drop_last();
        assert forall|i: int| 0 <= i < rest.len() implies !page_marker::page_marker(
            #[trigger] rest[i],
        ) by {
            assert(rest[i] == page[i]);
        }
        law_new_page(before, marker, rest);
        assert(all.drop_last() == before.push(marker) + rest);
        assert(all.last() == page[page.len() - 1]);
        assert(pages(before).push(rest).drop_last() == pages(before));
        assert(rest.push(page.last()) == page);
    }
}

} // verus!
