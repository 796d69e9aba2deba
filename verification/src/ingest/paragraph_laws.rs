//! Where paragraphs and sections begin and end.

use crate::ingest::pack;
use crate::ingest::pages;
use crate::ingest::section_laws;
use crate::ingest::sections;
use crate::ingest::sections::{ParseState, SectionView};
use crate::ingest::split_laws;
use crate::page_marker;
use crate::text;
use vstd::prelude::*;

verus! {

/// The paragraphs of sections, one after another.
pub open spec fn all_paragraphs(list: Seq<SectionView>) -> Seq<Seq<char>> {
    list.map_values(|s: SectionView| s.paragraphs).flatten_alt()
}

/// The paragraphs of some lines.
pub open spec fn paragraphs_of(lines: Seq<Seq<char>>) -> Seq<Seq<char>> {
    all_paragraphs(sections::parse_end(sections::parse_lines(lines)))
}

/// Whether a line parts paragraphs: it is blank or a page marker.
pub open spec fn parts(line: Seq<char>) -> bool {
    text::blank(line) || page_marker::page_marker(line)
}

/// The paragraphs of a state without the open one.
spec fn closed(st: ParseState) -> Seq<Seq<char>> {
    all_paragraphs(st.done) + st.section.paragraphs
}

/// The paragraphs of a state.
spec fn held(st: ParseState) -> Seq<Seq<char>> {
    if st.paragraph.len() > 0 {
        closed(st).push(st.paragraph)
    } else {
        closed(st)
    }
}

proof fn lemma_section_pushed(done: Seq<SectionView>, section: SectionView)
    ensures
        all_paragraphs(sections::with_section(done, section)) == all_paragraphs(done)
            + section.paragraphs,
{
    if section.paragraphs.len() > 0 {
        let parts = done.map_values(|s: SectionView| s.paragraphs);
        split_laws::lemma_flatten_push(parts, section.paragraphs);
        assert(done.push(section).map_values(|s: SectionView| s.paragraphs) == parts.push(
            section.paragraphs,
        ));
    } else {
        assert(all_paragraphs(done) + section.paragraphs == all_paragraphs(done));
    }
}

/// Closing what is open keeps the paragraphs.
proof fn lemma_closing(st: ParseState)
    ensures
        ({
            let section = sections::with_paragraph(st.section, st.paragraph);
            &&& all_paragraphs(sections::with_section(st.done, section)) == held(st)
            &&& all_paragraphs(st.done) + section.paragraphs == held(st)
        }),
{
    let section = sections::with_paragraph(st.section, st.paragraph);
    lemma_section_pushed(st.done, section);
    if st.paragraph.len() > 0 {
        assert(all_paragraphs(st.done) + st.section.paragraphs.push(st.paragraph) == closed(st).push(
            st.paragraph,
        ));
    }
}

/// What one more line does to the paragraphs.
proof fn lemma_step(st: ParseState, line: Seq<char>)
    ensures
        ({
            let next = sections::parse_step(st, line);
            &&& text::blank(line) ==> closed(next) == closed(st) && next.paragraph == st.paragraph
                && next.after_blank
            &&& page_marker::page_marker(line) ==> closed(next) == held(st) && next.paragraph.len()
                == 0 && !next.after_blank
            &&& !parts(line) && !st.after_blank ==> closed(next) == closed(st) && next.paragraph
                == st.paragraph + line.push('\n') && !next.after_blank
            &&& !parts(line) && st.after_blank ==> closed(next) == held(st) && next.paragraph
                == line.push('\n') && !next.after_blank
        }),
{
    let next = sections::parse_step(st, line);
    lemma_closing(st);
    if page_marker::page_marker(line) {
        page_marker::lemma_page_marker_not_blank(line);
        assert(all_paragraphs(next.done) + next.section.paragraphs == all_paragraphs(next.done));
    } else if !text::blank(line) && st.after_blank && line[0] == '#' {
        assert(all_paragraphs(next.done) + next.section.paragraphs == all_paragraphs(next.done));
    }
}

/// How the state behind `a`, a parting line and `b` stands to that behind `b` alone.
spec fn follows(s: ParseState, t: ParseState, before: Seq<Seq<char>>) -> bool {
    if t.paragraph.len() == 0 {
        &&& held(s) == before + held(t)
        &&& s.paragraph.len() == 0 || s.after_blank
    } else {
        &&& closed(s) == before + closed(t)
        &&& s.paragraph == t.paragraph
        &&& s.after_blank == t.after_blank
    }
}

proof fn lemma_follows(a: Seq<Seq<char>>, sep: Seq<char>, b: Seq<Seq<char>>)
    requires
        parts(sep),
    ensures
        follows(
            sections::parse_lines(a.push(sep) + b),
            sections::parse_lines(b),
            held(sections::parse_lines(a)),
        ),
    decreases b.len(),
{
    let all = a.push(sep) + b;
    let before = held(sections::parse_lines(a));
    if b.len() == 0 {
        let st = sections::parse_lines(a);
        assert(all == a.push(sep));
        assert(all.drop_last() == a);
        lemma_step(st, sep);
        let t = sections::parse_start();
        assert(closed(t) == Seq::<Seq<char>>::empty());
        assert(before + Seq::<Seq<char>>::empty() == before);
    } else {
        let line = b.last();
        let s = sections::parse_lines(a.push(sep) + b.drop_last());
        let t = sections::parse_lines(b.drop_last());
        lemma_follows(a, sep, b.drop_last());
        assert(all.drop_last() == a.push(sep) + b.drop_last());
        assert(all.last() == line);
        lemma_step(s, line);
        lemma_step(t, line);
        if t.paragraph.len() > 0 {
            assert((before + closed(t)).push(t.paragraph) == before + closed(t).push(t.paragraph));
        }
        assert(Seq::<char>::empty() + line.push('\n') == line.push('\n'));
    }
}

/// Blank lines and page markers part paragraphs: those of the lines before one and of the lines behind
/// it follow one another.
pub proof fn law_parting_lines(a: Seq<Seq<char>>, sep: Seq<char>, b: Seq<Seq<char>>)
    requires
        parts(sep),
    ensures
        paragraphs_of(a.push(sep) + b) == paragraphs_of(a) + paragraphs_of(b),
{
    let s = sections::parse_lines(a.push(sep) + b);
    let t = sections::parse_lines(b);
    let before = held(sections::parse_lines(a));
    lemma_follows(a, sep, b);
    lemma_closing(s);
    lemma_closing(t);
    lemma_closing(sections::parse_lines(a));
    if t.paragraph.len() > 0 {
        assert((before + closed(t)).push(t.paragraph) == before + closed(t).push(t.paragraph));
    }
}

proof fn lemma_run(lines: Seq<Seq<char>>)
    requires
        forall|i: int| 0 <= i < lines.len() ==> !parts(#[trigger] lines[i]),
    ensures
        ({
            let st = sections::parse_lines(lines);
            &&& closed(st) == Seq::<Seq<char>>::empty()
            &&& st.paragraph == split_laws::with_feeds(lines).flatten_alt()
            &&& !st.after_blank
        }),
    decreases lines.len(),
{
    if lines.len() == 0 {
        assert(closed(sections::parse_start()) == Seq::<Seq<char>>::empty());
        assert(split_laws::with_feeds(lines).len() == 0);
    } else {
        let before = lines.drop_last();
        assert forall|i: int| 0 <= i < before.len() implies !parts(#[trigger] before[i]) by {
            assert(before[i] == lines[i]);
        }
        lemma_run(before);
        assert(!parts(lines[lines.len() - 1]));
        lemma_step(sections::parse_lines(before), lines.last());
        assert(split_laws::with_feeds(lines).drop_last() == split_laws::with_feeds(before));
    }
}

/// Lines that are neither blank nor page markers are one paragraph, each with a line feed behind it.
pub proof fn law_unparted_lines(lines: Seq<Seq<char>>)
    requires
        lines.len() > 0,
        forall|i: int| 0 <= i < lines.len() ==> !parts(#[trigger] lines[i]),
    ensures
        paragraphs_of(lines) == seq![
            lines.map_values(|l: Seq<char>| l.push('\n')).flatten_alt(),
        ],
        paragraphs_of(seq![]) == Seq::<Seq<char>>::empty(),
{
    let st = sections::parse_lines(lines);
    lemma_run(lines);
    lemma_closing(st);
    assert(split_laws::with_feeds(lines) == lines.map_values(|l: Seq<char>| l.push('\n')));
    assert(split_laws::with_feeds(lines).last().len() > 0);
    assert(closed(st).push(st.paragraph) == seq![st.paragraph]);
    lemma_closing(sections::parse_start());
    assert(closed(sections::parse_start()) == Seq::<Seq<char>>::empty());
}

/// Whether a section that is not the first on its page starts with a number sign.
pub open spec fn opened_by_heading(list: Seq<SectionView>) -> bool {
    forall|i: int|
        0 < i < list.len() && (#[trigger] list[i]).page == list[i - 1].page
            ==> list[i].paragraphs[0][0] == '#'
}

/// The first paragraph of what is open.
spec fn open_first(st: ParseState) -> Seq<char> {
    if st.section.paragraphs.len() > 0 {
        st.section.paragraphs[0]
    } else {
        st.paragraph
    }
}

spec fn headed(st: ParseState) -> bool {
    &&& opened_by_heading(st.done)
    &&& st.done.len() > 0 && st.done.last().page == st.page ==> open_first(st).len() > 0
        && open_first(st)[0] == '#'
    &&& st.done.len() > 0 ==> st.done.last().page <= st.page
    &&& st.section.page == st.page
    &&& st.section.paragraphs.len() > 0 ==> st.section.paragraphs[0].len() > 0
}

proof fn lemma_headed_closed(st: ParseState)
    requires
        headed(st),
    ensures
        ({
            let section = sections::with_paragraph(st.section, st.paragraph);
            let done = sections::with_section(st.done, section);
            &&& opened_by_heading(done)
            &&& done.len() > 0 ==> done.last().page <= st.page
            &&& section.paragraphs.len() > 0 ==> section.paragraphs[0] == open_first(st)
                && open_first(st).len() > 0
        }),
{
    let section = sections::with_paragraph(st.section, st.paragraph);
    let done = sections::with_section(st.done, section);
    if section.paragraphs.len() > 0 {
        assert forall|i: int|
            0 < i < done.len() && (#[trigger] done[i]).page == done[i - 1].page implies
            done[i].paragraphs[0][0] == '#' by {
            if i < st.done.len() {
                assert(done[i] == st.done[i]);
                assert(done[i - 1] == st.done[i - 1]);
            } else {
                assert(done[i - 1] == st.done.last());
            }
        }
    }
}

proof fn lemma_headed(lines: Seq<Seq<char>>)
    requires
        pages::marker_count(lines) <= u32::MAX,
    ensures
        headed(sections::parse_lines(lines)),
        sections::parse_lines(lines).page == pages::marker_count(lines),
    decreases lines.len(),
{
    if lines.len() > 0 {
        let st = sections::parse_lines(lines.drop_last());
        let line = lines.last();
        lemma_headed(lines.drop_last());
        lemma_headed_closed(st);
        if page_marker::page_marker(line) {
            page_marker::lemma_page_marker_not_blank(line);
        }
    }
}

/// A section ends only where a page does or where a heading follows: the next section is on another
/// page or starts with a number sign. Within a section only the first paragraph can start with one.
pub proof fn law_section_ends(text: Seq<char>)
    requires
        pages::marker_count(text::lines(text)) <= u32::MAX,
    ensures
        opened_by_heading(sections::sections_of(text)),
        all_paragraphs(sections::sections_of(text)) == paragraphs_of(text::lines(text)),
        forall|i: int, k: int|
            0 <= i < sections::sections_of(text).len() && 1 <= k < sections::sections_of(
                text,
            )[i].paragraphs.len() ==> (#[trigger] sections::sections_of(text)[i].paragraphs[k])[0]
                != '#',
{
    let list = sections::sections_of(text);
    lemma_headed(text::lines(text));
    lemma_headed_closed(sections::parse_lines(text::lines(text)));
    section_laws::law_sections(text);
    assert forall|i: int, k: int|
        0 <= i < list.len() && 1 <= k < list[i].paragraphs.len() implies (
    #[trigger] list[i].paragraphs[k])[0] != '#' by {
        assert(section_laws::well_formed_section(list[i]));
    }
}

/// The level of a section is the number of signs that its first line starts with, six at most. It has
/// none exactly when that line does not start with one.
pub proof fn law_heading_level(section: SectionView)
    ensures
        section.paragraphs.len() == 0 ==> sections::heading_level(section) is None,
        section.paragraphs.len() > 0 ==> {
            let lines = text::lines(section.paragraphs[0]);
            match sections::heading_level(section) {
                Some(n) => {
                    &&& lines.len() > 0
                    &&& 1 <= n <= 6
                    &&& n <= lines[0].len()
                    &&& forall|i: int| 0 <= i < n ==> #[trigger] lines[0][i] == '#'
                    &&& n < 6 && n < lines[0].len() ==> lines[0][n as int] != '#'
                },
                None => lines.len() == 0 || lines[0].len() == 0 || lines[0][0] != '#',
            }
        },
{
    if section.paragraphs.len() > 0 && text::lines(section.paragraphs[0]).len() > 0 {
        lemma_leading_hashes(text::lines(section.paragraphs[0])[0]);
    }
}

proof fn lemma_leading_hashes(s: Seq<char>)
    ensures
        sections::leading_hashes(s) <= s.len(),
        forall|i: int| 0 <= i < sections::leading_hashes(s) ==> #[trigger] s[i] == '#',
        sections::leading_hashes(s) < s.len() ==> s[sections::leading_hashes(s) as int] != '#',
    decreases s.len(),
{
    if s.len() > 0 && s[0] == '#' {
        let rest = s.skip(1);
        lemma_leading_hashes(rest);
        assert forall|i: int| 0 <= i < sections::leading_hashes(s) implies #[trigger] s[i] == '#' by {
            if i > 0 {
                assert(rest[i - 1] == s[i]);
            }
        }
    }
}

proof fn lemma_joined_feeds(list: Seq<Seq<char>>)
    requires
        list.len() > 0,
    ensures
        text::joined(list, "\n"@).push('\n') == list.map_values(
            |p: Seq<char>| p.push('\n'),
        ).flatten_alt(),
    decreases list.len(),
{
    reveal_strlit("\n");
    let all = list.map_values(|p: Seq<char>| p.push('\n'));
    let before = list.drop_last();
    assert(all.drop_last() == before.map_values(|p: Seq<char>| p.push('\n')));
    assert(all.last() == list.last().push('\n'));
    assert(all.flatten_alt() == all.drop_last().flatten_alt() + all.last());
    if before.len() == 0 {
        assert(all.drop_last().flatten_alt() == Seq::<char>::empty());
        assert(text::joined(list, "\n"@) == list.last());
        assert(Seq::<char>::empty() + all.last() == all.last());
    } else {
        lemma_joined_feeds(before);
        let head = text::joined(before, "\n"@);
        assert(head + "\n"@ == head.push('\n'));
        assert((head.push('\n') + list.last()).push('\n') == head.push('\n') + list.last().push(
            '\n',
        ));
    }
}

/// The text of a section is its paragraphs, each with a line feed behind it.
pub proof fn law_section_text(section: SectionView)
    requires
        section.paragraphs.len() > 0,
    ensures
        pack::section_text(section) == section.paragraphs.map_values(
            |p: Seq<char>| p.push('\n'),
        ).flatten_alt(),
{
    lemma_joined_feeds(section.paragraphs);
}

} // verus!
