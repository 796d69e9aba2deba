//! The lines that separate the pages of an extracted rulebook, such as `=== PAGE 7 ===`.

use crate::text;
use vstd::prelude::*;

verus! {

/// The pattern of a page marker line.
pub const PAGE_MARKER: &'static str = r"^=+ PAGE \d+ =+$";

/// Characters of the Unicode general category `Nd` (decimal digits).
pub open spec fn decimal_digit(c: char) -> bool {
    let x = c as u32;
    ||| 0x30 <= x <= 0x39
    ||| 0x660 <= x <= 0x669
    ||| 0x6f0 <= x <= 0x6f9
    ||| 0x7c0 <= x <= 0x7c9
    ||| 0x966 <= x <= 0x96f
    ||| 0x9e6 <= x <= 0x9ef
    ||| 0xa66 <= x <= 0xa6f
    ||| 0xae6 <= x <= 0xaef
    ||| 0xb66 <= x <= 0xb6f
    ||| 0xbe6 <= x <= 0xbef
    ||| 0xc66 <= x <= 0xc6f
    ||| 0xce6 <= x <= 0xcef
    ||| 0xd66 <= x <= 0xd6f
    ||| 0xde6 <= x <= 0xdef
    ||| 0xe50 <= x <= 0xe59
    ||| 0xed0 <= x <= 0xed9
    ||| 0xf20 <= x <= 0xf29
    ||| 0x1040 <= x <= 0x1049
    ||| 0x1090 <= x <= 0x1099
    ||| 0x17e0 <= x <= 0x17e9
    ||| 0x1810 <= x <= 0x1819
    ||| 0x1946 <= x <= 0x194f
    ||| 0x19d0 <= x <= 0x19d9
    ||| 0x1a80 <= x <= 0x1a89
    ||| 0x1a90 <= x <= 0x1a99
    ||| 0x1b50 <= x <= 0x1b59
    ||| 0x1bb0 <= x <= 0x1bb9
    ||| 0x1c40 <= x <= 0x1c49
    ||| 0x1c50 <= x <= 0x1c59
    ||| 0xa620 <= x <= 0xa629
    ||| 0xa8d0 <= x <= 0xa8d9
    ||| 0xa900 <= x <= 0xa909
    ||| 0xa9d0 <= x <= 0xa9d9
    ||| 0xa9f0 <= x <= 0xa9f9
    ||| 0xaa50 <= x <= 0xaa59
    ||| 0xabf0 <= x <= 0xabf9
    ||| 0xff10 <= x <= 0xff19
    ||| 0x104a0 <= x <= 0x104a9
    ||| 0x10d30 <= x <= 0x10d39
    ||| 0x10d40 <= x <= 0x10d49
    ||| 0x11066 <= x <= 0x1106f
    ||| 0x110f0 <= x <= 0x110f9
    ||| 0x11136 <= x <= 0x1113f
    ||| 0x111d0 <= x <= 0x111d9
    ||| 0x112f0 <= x <= 0x112f9
    ||| 0x11450 <= x <= 0x11459
    ||| 0x114d0 <= x <= 0x114d9
    ||| 0x11650 <= x <= 0x11659
    ||| 0x116c0 <= x <= 0x116c9
    ||| 0x116d0 <= x <= 0x116e3
    ||| 0x11730 <= x <= 0x11739
    ||| 0x118e0 <= x <= 0x118e9
    ||| 0x11950 <= x <= 0x11959
    ||| 0x11bf0 <= x <= 0x11bf9
    ||| 0x11c50 <= x <= 0x11c59
    ||| 0x11d50 <= x <= 0x11d59
    ||| 0x11da0 <= x <= 0x11da9
    ||| 0x11f50 <= x <= 0x11f59
    ||| 0x16130 <= x <= 0x16139
    ||| 0x16a60 <= x <= 0x16a69
    ||| 0x16ac0 <= x <= 0x16ac9
    ||| 0x16b50 <= x <= 0x16b59
    ||| 0x16d70 <= x <= 0x16d79
    ||| 0x1ccf0 <= x <= 0x1ccf9
    ||| 0x1d7ce <= x <= 0x1d7ff
    ||| 0x1e140 <= x <= 0x1e149
    ||| 0x1e2f0 <= x <= 0x1e2f9
    ||| 0x1e4f0 <= x <= 0x1e4f9
    ||| 0x1e5f1 <= x <= 0x1e5fa
    ||| 0x1e950 <= x <= 0x1e959
    ||| 0x1fbf0 <= x <= 0x1fbf9
}

/// Whether `s` is a non-empty run of equals signs.
pub open spec fn equals_run(s: Seq<char>) -> bool {
    s.len() > 0 && forall|i: int| 0 <= i < s.len() ==> #[trigger] s[i] == '='
}

/// Whether `s` is a non-empty run of decimal digits.
pub open spec fn digit_run(s: Seq<char>) -> bool {
    s.len() > 0 && forall|i: int| 0 <= i < s.len() ==> decimal_digit(#[trigger] s[i])
}

/// Whether `line` is `left`, ` PAGE `, `number`, a space and `right`, with runs of equals signs
/// around a number.
pub open spec fn marker_parts(
    line: Seq<char>,
    left: Seq<char>,
    number: Seq<char>,
    right: Seq<char>,
) -> bool {
    &&& equals_run(left)
    &&& digit_run(number)
    &&& equals_run(right)
    &&& line == left + seq![' ', 'P', 'A', 'G', 'E', ' '] + number + seq![' '] + right
}

/// Whether `line` starts a new page.
pub open spec fn page_marker(line: Seq<char>) -> bool {
    exists|left: Seq<char>, number: Seq<char>, right: Seq<char>|
        #[trigger] marker_parts(line, left, number, right)
}

/// Calls `regex::Regex::new` and `Regex::is_match`. Of the one pattern that is admitted the
/// contract claims that it compiles, and that it matches exactly the page marker lines: `\d` is the
/// Unicode category `Nd`, and `^` and `$` stand for the ends of the whole text.
#[verifier::external_body]
fn regex_is_match(pattern: &str, line: &str) -> (res: bool)
    requires
        pattern@ == PAGE_MARKER@,
    ensures
        res == page_marker(line@),
{
    regex::Regex::new(pattern).unwrap().is_match(line)
}

/// Whether `line` starts a new page.
pub fn is_page_marker(line: &str) -> (res: bool)
    ensures
        res == page_marker(line@),
{
    regex_is_match(PAGE_MARKER, line)
}

/// A page marker line is not blank.
pub proof fn lemma_page_marker_not_blank(line: Seq<char>)
    requires
        page_marker(line),
    ensures
        !text::blank(line),
{
    let (left, number, right) = choose|left: Seq<char>, number: Seq<char>, right: Seq<char>|
        #[trigger] marker_parts(line, left, number, right);
    assert(line[0] == left[0]);
    assert(!text::whitespace('='));
}

} // verus!
