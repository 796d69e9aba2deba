//! What holds of the sections of every text.

use crate::ingest::pages;
use crate::ingest::sections;
use crate::ingest::sections::{ParseState, SectionView};
use crate::page_marker;
use crate::text;
use vstd::prelude::*;

verus! {

/// Whether a text has two line feeds in a row at position `i`.
pub open spec fn double_newline_at(s: Seq<char>, i: int) -> bool {
    0 <= i && i + 1 < s.len() && s[i] == '\n' && s[i + 1] == '\n'
}

/// A paragraph ends with a line feed, starts with something else, and has no empty line in it.
pub open spec fn well_formed_paragraph(p: Seq<char>) -> bool {
    &&& p.len() > 0
    &&& p[0] != '\n'
    &&& p.last() == '\n'
    &&& forall|i: int| !#[trigger] double_newline_at(p, i)
}

/// A section has a paragraph, all its paragraphs are well formed, and only the first can start with a
/// number sign.
pub open spec fn well_formed_section(s: SectionView) -> bool {
    &&& s.paragraphs.len() > 0
    &&& open_section(s)
}

/// What holds of a section that may still be without a paragraph.
pub open spec fn open_section(s: SectionView) -> bool {
    &&& forall|i: int|
        0 <= i < s.paragraphs.len() ==> well_formed_paragraph(#[trigger] s.paragraphs[i])
    &&& forall|i: int| 1 <= i < s.paragraphs.len() ==> (#[trigger] s.paragraphs[i])[0] != '#'
}

/// The paragraphs one after another.
pub open spec fn paragraphs_text(paragraphs: Seq<Seq<char>>) -> Seq<char>
    decreases paragraphs.len(),
{
    if paragraphs.len() == 0 {
        seq![]
    } else {
        paragraphs_text(paragraphs.drop_last()) + paragraphs.last()
    }
}

/// The paragraphs of all sections one after another.
pub open spec fn sections_text(list: Seq<SectionView>) -> Seq<char>
    decreases list.len(),
{
    if list.len() == 0 {
        seq![]
    } else {
        sections_text(list.drop_last()) + paragraphs_text(list.last().paragraphs)
    }
}

/// The lines that are neither blank nor page markers, each with a line feed behind it.
pub open spec fn content_text(lines: Seq<Seq<char>>) -> Seq<char>
    decreases lines.len(),
{
    if lines.len() == 0 {
        seq![]
    } else {
        let before = content_text(lines.drop_last());
        if text::blank(lines.last()) || page_marker::page_marker(lines.last()) {
            before
        } else {
            before + lines.last().push('\n')
        }
    }
}

/// Whether the sections' pages do not decrease and do not pass `page`.
pub open spec fn pages_in_order(list: Seq<SectionView>, page: nat) -> bool {
    &&& forall|i: int| 0 <= i < list.len() ==> (#[trigger] list[i]).page <= page
    &&& forall|i: int, j: int|
        0 <= i <= j < list.len() ==> (#[trigger] list[i]).page <= (#[trigger] list[j]).page
}

/// The sections on a page.
pub open spec fn sections_on(list: Seq<SectionView>, page: nat) -> Seq<SectionView>
    decreases list.len(),
{
    if list.len() == 0 {
        seq![]
    } else {
        let before = sections_on(list.drop_last(), page);
        if list.last().page == page {
            before.push(list.last())
        } else {
            before
        }
    }
}

/// What a state behind some lines holds of a page is the content of that page.
spec fn placed(st: ParseState, lines: Seq<Seq<char>>, page: nat) -> bool {
    let open = if st.page == page {
        paragraphs_text(st.section.paragraphs) + st.paragraph
    } else {
        seq![]
    };
    sections_text(sections_on(st.done, page)) + open == content_text(
        pages::lines_on_page(lines, page),
    )
}

/// What holds behind every line.
spec fn sound(st: ParseState, lines: Seq<Seq<char>>) -> bool {
    &&& st.paragraph.len() > 0 ==> well_formed_paragraph(st.paragraph)
    &&& st.paragraph.len() == 0 ==> st.section.paragraphs.len() == 0
    &&& open_section(st.section)
    &&& st.section.paragraphs.len() > 0 && st.paragraph.len() > 0 ==> st.paragraph[0] != '#'
    &&& forall|i: int| 0 <= i < st.done.len() ==> well_formed_section(#[trigger] st.done[i])
    &&& sections_text(st.done) + paragraphs_text(st.section.paragraphs) + st.paragraph
        == content_text(lines)
    &&& st.section.page == st.page
    &&& pages_in_order(st.done, st.page)
}

/// No line of a text holds a line feed.
pub proof fn lemma_lines_hold_no_newline(s: Seq<char>, k: int)
    requires
        0 <= k < text::lines(s).len(),
    ensures
        forall|i: int| 0 <= i < text::lines(s)[k].len() ==> #[trigger] text::lines(s)[k][i] != '\n',
    decreases s.len(),
{
    if s.len() > 0 {
        let n = text::until(s, '\n');
        text::lemma_until(s, '\n');
        if n < s.len() {
            let head = s.take(n as int);
            if k == 0 {
                assert forall|i: int| 0 <= i < text::lines(s)[0].len() implies #[trigger] text::lines(
                    s,
                )[0][i] != '\n' by {
                    assert(text::lines(s)[0][i] == head[i]);
                    assert(head[i] == s[i]);
                }
            } else {
                lemma_lines_hold_no_newline(s.skip(n as int + 1), k - 1);
                assert(text::lines(s)[k] == text::lines(s.skip(n as int + 1))[k - 1]);
            }
        }
    }
}

/// A line that is not blank, with its line feed, is a well-formed paragraph; so is a well-formed
/// paragraph with such a line behind it.
proof fn lemma_line_joins(p: Seq<char>, line: Seq<char>)
    requires
        p.len() == 0 || well_formed_paragraph(p),
        !text::blank(line),
        forall|i: int| 0 <= i < line.len() ==> #[trigger] line[i] != '\n',
    ensures
        well_formed_paragraph(p + line.push('\n')),
        (p + line.push('\n'))[0] == (if p.len() > 0 {
            p[0]
        } else {
            line[0]
        }),
{
    let q = p + line.push('\n');
    assert(line.len() > 0);
    assert forall|i: int| !#[trigger] double_newline_at(q, i) by {
        if double_newline_at(q, i) {
            if i + 1 < p.len() {
                assert(double_newline_at(p, i));
            } else if i + 1 == p.len() {
                assert(q[i + 1] == line[0]);
            } else {
                assert(q[i] == line[i - p.len()]);
            }
        }
    }
}

proof fn lemma_closed(st: ParseState, lines: Seq<Seq<char>>)
    requires
        sound(st, lines),
    ensures
        ({
            let closed = sections::with_paragraph(st.section, st.paragraph);
            let done = sections::with_section(st.done, closed);
            &&& open_section(closed)
            &&& paragraphs_text(closed.paragraphs) == paragraphs_text(st.section.paragraphs)
                + st.paragraph
            &&& forall|i: int| 0 <= i < done.len() ==> well_formed_section(#[trigger] done[i])
            &&& sections_text(done) == content_text(lines)
            &&& pages_in_order(done, st.page)
        }),
{
    let closed = sections::with_paragraph(st.section, st.paragraph);
    let done = sections::with_section(st.done, closed);
    if st.paragraph.len() > 0 {
        assert(closed.paragraphs.drop_last() == st.section.paragraphs);
    }
    if closed.paragraphs.len() > 0 {
        assert(done.drop_last() == st.done);
        assert(sections_text(st.done) + paragraphs_text(closed.paragraphs) == sections_text(st.done)
            + paragraphs_text(st.section.paragraphs) + st.paragraph);
    } else {
        assert(sections_text(st.done) + Seq::<char>::empty() + Seq::<char>::empty()
            == sections_text(st.done));
    }
}

proof fn lemma_sound(lines: Seq<Seq<char>>)
    requires
        pages::marker_count(lines) <= u32::MAX,
        forall|k: int, i: int|
            0 <= k < lines.len() && 0 <= i < lines[k].len() ==> #[trigger] lines[k][i] != '\n',
    ensures
        sound(sections::parse_lines(lines), lines),
        sections::parse_lines(lines).page == pages::marker_count(lines),
    decreases lines.len(),
{
    if lines.len() == 0 {
        assert(sound(sections::parse_start(), lines));
    } else {
        let before = lines.drop_last();
        assert forall|k: int, i: int|
            0 <= k < before.len() && 0 <= i < before[k].len() implies #[trigger] before[k][i]
            != '\n' by {
            assert(before[k] == lines[k]);
        }
        lemma_sound(before);
        let st = sections::parse_lines(before);
        let line = lines.last();
        assert(line == lines[lines.len() - 1]);
        let next = sections::parse_step(st, line);
        lemma_closed(st, before);
        if page_marker::page_marker(line) {
            page_marker::lemma_page_marker_not_blank(line);
        }
        if text::blank(line) {
        } else if page_marker::page_marker(line) {
            assert(sections_text(next.done) + Seq::<char>::empty() + Seq::<char>::empty()
                == sections_text(next.done));
        } else if !st.after_blank {
            lemma_line_joins(st.paragraph, line);
            let old_text = sections_text(st.done) + paragraphs_text(st.section.paragraphs);
            assert(old_text + (st.paragraph + line.push('\n')) == (old_text + st.paragraph)
                + line.push('\n'));
        } else {
            lemma_line_joins(seq![], line);
            assert(Seq::<char>::empty() + line.push('\n') == line.push('\n'));
            if line[0] == '#' {
                assert(sections_text(next.done) + Seq::<char>::empty() == sections_text(next.done));
            } else {
                assert(sections_text(st.done) + (paragraphs_text(st.section.paragraphs)
                    + st.paragraph) == content_text(before));
            }
        }
    }
}

proof fn lemma_closed_on_page(st: ParseState, lines: Seq<Seq<char>>, page: nat)
    requires
        placed(st, lines, page),
        st.section.page == st.page,
        st.paragraph.len() == 0 ==> st.section.paragraphs.len() == 0,
    ensures
        ({
            let closed = sections::with_paragraph(st.section, st.paragraph);
            &&& paragraphs_text(closed.paragraphs) == paragraphs_text(st.section.paragraphs)
                + st.paragraph
            &&& sections_text(sections_on(sections::with_section(st.done, closed), page))
                == content_text(pages::lines_on_page(lines, page))
        }),
{
    let closed = sections::with_paragraph(st.section, st.paragraph);
    let done = sections::with_section(st.done, closed);
    let on = sections_on(st.done, page);
    if st.paragraph.len() > 0 {
        assert(closed.paragraphs.drop_last() == st.section.paragraphs);
        assert(done.drop_last() == st.done);
        if st.page == page {
            assert(sections_on(done, page) == on.push(closed));
            assert(on.push(closed).drop_last() == on);
        } else {
            assert(sections_text(on) + Seq::<char>::empty() == sections_text(on));
        }
    } else {
        assert(Seq::<char>::empty() + Seq::<char>::empty() == Seq::<char>::empty());
        assert(sections_text(on) + Seq::<char>::empty() == sections_text(on));
    }
}

proof fn lemma_placed(lines: Seq<Seq<char>>, page: nat)
    requires
        pages::marker_count(lines) <= u32::MAX,
        forall|k: int, i: int|
            0 <= k < lines.len() && 0 <= i < lines[k].len() ==> #[trigger] lines[k][i] != '\n',
    ensures
        placed(sections::parse_lines(lines), lines, page),
    decreases lines.len(),
{
    if lines.len() == 0 {
        assert(placed(sections::parse_start(), lines, page));
    } else {
        let before = lines.drop_last();
        assert forall|k: int, i: int|
            0 <= k < before.len() && 0 <= i < before[k].len() implies #[trigger] before[k][i]
            != '\n' by {
            assert(before[k] == lines[k]);
        }
        lemma_sound(before);
        lemma_placed(before, page);
        let st = sections::parse_lines(before);
        let line = lines.last();
        let next = sections::parse_step(st, line);
        lemma_closed_on_page(st, before, page);
        let held = pages::lines_on_page(before, page);
        let on = sections_text(sections_on(next.done, page));
        assert(held.push(line).drop_last() == held);
        assert(on + Seq::<char>::empty() == on);
        if page_marker::page_marker(line) {
            page_marker::lemma_page_marker_not_blank(line);
            assert(Seq::<char>::empty() + Seq::<char>::empty() == Seq::<char>::empty());
        } else if !text::blank(line) && st.page == page {
            let ended = line.push('\n');
            if !st.after_blank {
                let open = paragraphs_text(st.section.paragraphs);
                assert(on + (open + (st.paragraph + ended)) == on + (open + st.paragraph) + ended);
            } else if line[0] == '#' {
                assert(on + (Seq::<char>::empty() + ended) == on + ended);
            } else {
                let open = paragraphs_text(st.section.paragraphs) + st.paragraph;
                assert(on + (open + ended) == on + open + ended);
            }
        }
    }
}

/// Every section of a text has a paragraph, its paragraphs have no empty line in them, and a heading
/// behind a blank line always opens a section. The sections hold the lines of the text that are
/// neither blank nor page markers, all of them and in order, and their pages never go back. The
/// sections on each page hold those lines of that page.
pub proof fn law_sections(text: Seq<char>)
    requires
        pages::marker_count(text::lines(text)) <= u32::MAX,
    ensures
        forall|i: int|
            0 <= i < sections::sections_of(text).len() ==> well_formed_section(
                #[trigger] sections::sections_of(text)[i],
            ),
        sections_text(sections::sections_of(text)) == content_text(text::lines(text)),
        pages_in_order(sections::sections_of(text), pages::marker_count(text::lines(text))),
        forall|page: nat|
            sections_text(#[trigger] sections_on(sections::sections_of(text), page))
                == content_text(pages::lines_on_page(text::lines(text), page)),
{
    let lines = text::lines(text);
    assert forall|k: int, i: int|
        0 <= k < lines.len() && 0 <= i < lines[k].len() implies #[trigger] lines[k][i] != '\n' by {
        lemma_lines_hold_no_newline(text, k);
    }
    lemma_sound(lines);
    let st = sections::parse_lines(lines);
    lemma_closed(st, lines);
    assert forall|page: nat|
        sections_text(#[trigger] sections_on(sections::sections_of(text), page)) == content_text(
            pages::lines_on_page(lines, page),
        ) by {
        lemma_placed(lines, page);
        lemma_closed_on_page(st, lines, page);
    }
}

/// A text without a line of content has no sections.
pub proof fn law_no_content_no_sections(text: Seq<char>)
    requires
        pages::marker_count(text::lines(text)) <= u32::MAX,
        content_text(text::lines(text)).len() == 0,
    ensures
        sections::sections_of(text).len() == 0,
{
    let list = sections::sections_of(text);
    law_sections(text);
    if list.len() > 0 {
        let last = list[list.len() - 1];
        assert(well_formed_section(last));
        assert(well_formed_paragraph(last.paragraphs[last.paragraphs.len() - 1]));
        assert(paragraphs_text(last.paragraphs).len() > 0);
        assert(sections_text(list).len() > 0);
    }
}

} // verus!
