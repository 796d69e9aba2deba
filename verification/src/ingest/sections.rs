//! The sections of a rulebook: runs of paragraphs under one heading on one page.

use crate::ingest::pages;
use crate::page_marker;
use crate::text;
use vstd::prelude::*;

verus! {

/// Paragraphs under one heading, with the page they start on.
#[derive(Debug)]
pub struct Section {
    pub paragraphs: Vec<String>,
    pub page: u32,
}

/// What a [`Section`] holds.
#[verifier::ext_equal]
pub struct SectionView {
    pub paragraphs: Seq<Seq<char>>,
    pub page: u32,
}

impl View for Section {
    type V = SectionView;

    open spec fn view(&self) -> SectionView {
        SectionView { paragraphs: text::texts(self.paragraphs@), page: self.page }
    }
}

/// What each section of a list holds.
pub open spec fn section_views(list: Seq<Section>) -> Seq<SectionView> {
    list.map_values(|s: Section| s@)
}

/// A section without paragraphs.
pub open spec fn empty_section(page: u32) -> SectionView {
    SectionView { paragraphs: seq![], page }
}

/// How many number signs a text starts with.
pub open spec fn leading_hashes(s: Seq<char>) -> nat
    decreases s.len(),
{
    if s.len() == 0 || s[0] != '#' {
        0
    } else {
        1 + leading_hashes(s.skip(1))
    }
}

/// The first line of a section, if it has one.
pub open spec fn first_line(section: SectionView) -> Option<Seq<char>> {
    if section.paragraphs.len() == 0 || text::lines(section.paragraphs[0]).len() == 0 {
        None
    } else {
        Some(text::lines(section.paragraphs[0])[0])
    }
}

/// The level of the heading that a section starts with: its number signs, six at most.
pub open spec fn heading_level(section: SectionView) -> Option<u8> {
    match first_line(section) {
        Some(line) => {
            let hashes = leading_hashes(line);
            if hashes == 0 {
                None
            } else if hashes > 6 {
                Some(6u8)
            } else {
                Some(hashes as u8)
            }
        },
        None => None,
    }
}

impl Section {
    /// A section without paragraphs.
    pub fn new(page: u32) -> (res: Self)
        ensures
            res@ == empty_section(page),
    {
        let res = Section { paragraphs: Vec::new(), page };
        assert(res@ == empty_section(page));
        res
    }

    /// The first line of the section, if it has one.
    pub fn first_line(&self) -> (res: Option<String>)
        ensures
            first_line(self@) == (match res {
                Some(line) => Some(line@),
                None => None,
            }),
    {
        if self.paragraphs.len() == 0 {
            return None;
        }
        assert(self@.paragraphs[0] == self.paragraphs@[0]@);
        let lines = text::lines_of(self.paragraphs[0].as_str());
        if lines.len() == 0 {
            assert(text::texts(lines@).len() == 0);
            return None;
        }
        assert(text::texts(lines@)[0] == lines@[0]@);
        Some(lines[0].clone())
    }

    /// The level of the heading that the section starts with, if it starts with one.
    pub fn heading_level(&self) -> (res: Option<u8>)
        ensures
            res == heading_level(self@),
    {
        match self.first_line() {
            Some(line) => {
                let chars = text::chars_of(line.as_str());
                let mut n: usize = 0;
                assert(chars@.skip(0) == chars@);
                while n < chars.len() && n < 6 && chars[n] == '#'
                    invariant
                        n <= chars@.len(),
                        n <= 6,
                        leading_hashes(chars@) == n + leading_hashes(chars@.skip(n as int)),
                    decreases chars@.len() - n,
                {
                    assert(chars@.skip(n as int).skip(1) == chars@.skip(n + 1));
                    n = n + 1;
                }
                if n == 0 {
                    None
                } else {
                    Some(n as u8)
                }
            },
            None => None,
        }
    }
}

/// How far the lines of a text have been sorted into sections.
#[verifier::ext_equal]
pub struct ParseState {
    pub page: nat,
    pub after_blank: bool,
    pub paragraph: Seq<char>,
    pub section: SectionView,
    pub done: Seq<SectionView>,
}

/// The section with the open paragraph added, if that holds anything.
pub open spec fn with_paragraph(section: SectionView, paragraph: Seq<char>) -> SectionView {
    if paragraph.len() > 0 {
        SectionView { paragraphs: section.paragraphs.push(paragraph), page: section.page }
    } else {
        section
    }
}

/// The finished sections with one more, if that holds any paragraph.
pub open spec fn with_section(done: Seq<SectionView>, section: SectionView) -> Seq<SectionView> {
    if section.paragraphs.len() > 0 {
        done.push(section)
    } else {
        done
    }
}

/// Before the first line: page zero, nothing open.
pub open spec fn parse_start() -> ParseState {
    ParseState {
        page: 0,
        after_blank: false,
        paragraph: seq![],
        section: empty_section(0),
        done: seq![],
    }
}

/// One more line. A blank line ends the open paragraph, a page marker ends paragraph, section and
/// page, and a heading behind a blank line ends the section. Any other line joins the paragraph.
pub open spec fn parse_step(st: ParseState, line: Seq<char>) -> ParseState {
    if text::blank(line) {
        ParseState { after_blank: true, ..st }
    } else if page_marker::page_marker(line) {
        ParseState {
            page: st.page + 1,
            after_blank: false,
            paragraph: seq![],
            section: empty_section((st.page + 1) as u32),
            done: with_section(st.done, with_paragraph(st.section, st.paragraph)),
        }
    } else if !st.after_blank {
        ParseState { paragraph: st.paragraph + line.push('\n'), ..st }
    } else {
        let closed = with_paragraph(st.section, st.paragraph);
        if line[0] == '#' {
            ParseState {
                page: st.page,
                after_blank: false,
                paragraph: line.push('\n'),
                section: empty_section(st.page as u32),
                done: with_section(st.done, closed),
            }
        } else {
            ParseState {
                page: st.page,
                after_blank: false,
                paragraph: line.push('\n'),
                section: closed,
                done: st.done,
            }
        }
    }
}

/// The state behind some lines.
pub open spec fn parse_lines(lines: Seq<Seq<char>>) -> ParseState
    decreases lines.len(),
{
    if lines.len() == 0 {
        parse_start()
    } else {
        parse_step(parse_lines(lines.drop_last()), lines.last())
    }
}

/// All sections, with what is still open closed.
pub open spec fn parse_end(st: ParseState) -> Seq<SectionView> {
    with_section(st.done, with_paragraph(st.section, st.paragraph))
}

/// The sections of a text.
pub open spec fn sections_of(text: Seq<char>) -> Seq<SectionView> {
    parse_end(parse_lines(text::lines(text)))
}

/// The page counter counts page markers.
proof fn lemma_page_counts_markers(lines: Seq<Seq<char>>)
    ensures
        parse_lines(lines).page == pages::marker_count(lines),
    decreases lines.len(),
{
    if lines.len() > 0 {
        lemma_page_counts_markers(lines.drop_last());
        if page_marker::page_marker(lines.last()) {
            page_marker::lemma_page_marker_not_blank(lines.last());
        }
    }
}

/// Sorts the lines of a text into sections.
pub fn parse_sections(text: &str) -> (res: Vec<Section>)
    requires
        pages::marker_count(text::lines(text@)) <= u32::MAX,
    ensures
        section_views(res@) == sections_of(text@),
{
    let lines = text::lines_of(text);
    let ghost all = text::lines(text@);
    let mut page: u32 = 0;
    let mut after_blank = false;
    let mut paragraph = String::new();
    let mut section = Section::new(0);
    let mut done: Vec<Section> = Vec::new();
    let mut i: usize = 0;
    proof {
        assert(all.take(0).len() == 0);
        assert(section_views(done@) == parse_start().done);
    }
    while i < lines.len()
        invariant
            all == text::lines(text@),
            text::texts(lines@) == all,
            pages::marker_count(all) <= u32::MAX,
            i <= lines@.len(),
            parse_lines(all.take(i as int)) == (ParseState {
                page: page as nat,
                after_blank,
                paragraph: paragraph@,
                section: section@,
                done: section_views(done@),
            }),
        decreases lines@.len() - i,
    {
        let line = &lines[i];
        let ghost st = parse_lines(all.take(i as int));
        proof {
            assert(all.take(i + 1).drop_last() == all.take(i as int));
            assert(all.take(i + 1).last() == line@);
            lemma_page_counts_markers(all.take(i + 1));
            pages::lemma_marker_count_prefix(all, i + 1);
        }
        if text::is_blank(line.as_str()) {
            after_blank = true;
        } else if page_marker::is_page_marker(line.as_str()) {
            close(&mut done, section, paragraph);
            page = page + 1;
            paragraph = String::new();
            section = Section::new(page);
            after_blank = false;
        } else {
            if after_blank {
                if starts_with_hash(line.as_str()) {
                    close(&mut done, section, paragraph);
                    section = Section::new(page);
                } else {
                    add_paragraph(&mut section, paragraph);
                }
                paragraph = String::new();
            }
            after_blank = false;
            paragraph.append(line.as_str());
            paragraph.push('\n');
            proof {
                assert(paragraph@ == parse_step(st, line@).paragraph);
            }
        }
        i = i + 1;
    }
    assert(all.take(i as int) == all);
    close(&mut done, section, paragraph);
    done
}

/// Adds a paragraph to a section, unless it is empty.
fn add_paragraph(section: &mut Section, paragraph: String)
    ensures
        final(section)@ == with_paragraph(old(section)@, paragraph@),
{
    if !paragraph.as_str().is_empty() {
        section.paragraphs.push(paragraph);
        assert(section@.paragraphs == old(section)@.paragraphs.push(paragraph@));
    }
}

/// Closes the open paragraph and then the section.
fn close(done: &mut Vec<Section>, section: Section, paragraph: String)
    ensures
        section_views(final(done)@) == with_section(
            section_views(old(done)@),
            with_paragraph(section@, paragraph@),
        ),
{
    let mut section = section;
    add_paragraph(&mut section, paragraph);
    if section.paragraphs.len() > 0 {
        done.push(section);
        assert(section_views(done@) == section_views(old(done)@).push(section@));
    }
}

/// Whether a line that is not blank starts with a number sign.
fn starts_with_hash(line: &str) -> (res: bool)
    requires
        !text::blank(line@),
    ensures
        res == (line@[0] == '#'),
{
    let chars = text::chars_of(line);
    assert(chars@.len() > 0);
    chars[0] == '#'
}

} // verus!
