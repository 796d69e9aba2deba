//! The form in which texts are compared during evaluation.

use crate::text;
use vstd::prelude::*;
use vstd::utf8::*;

verus! {

/// The lowercase equivalent of a text that `str::to_lowercase` gives.
pub uninterp spec fn unicode_lowercase(s: Seq<char>) -> Seq<char>;

/// The lowercase equivalent of an ASCII character.
pub open spec fn ascii_lower(c: char) -> char {
    if 'A' as int <= c as int <= 'Z' as int {
        (c as int + 32) as char
    } else {
        c
    }
}

/// The lowercase equivalent of an ASCII text.
pub open spec fn ascii_lowercase(s: Seq<char>) -> Seq<char> {
    s.map_values(|c: char| ascii_lower(c))
}

/// `str::to_lowercase` gives a text that is a function of its argument. In an ASCII text it maps the
/// letters one for one and leaves everything else alone.
pub assume_specification[ str::to_lowercase ](s: &str) -> (res: String)
    ensures
        res@ == unicode_lowercase(s@),
        is_ascii_chars(s@) ==> res@ == ascii_lowercase(s@),
;

/// A text without superscript and subscript tags.
pub open spec fn without_tags(s: Seq<char>) -> Seq<char> {
    text::replaced(
        text::replaced(
            text::replaced(text::replaced(s, "<sup>"@, ""@), "</sup>"@, ""@),
            "<sub>"@,
            ""@,
        ),
        "</sub>"@,
        ""@,
    )
}

/// Whether a character marks emphasis.
pub open spec fn emphasis(c: char) -> bool {
    c == '*' || c == '_'
}

/// A text without its emphasis marks.
pub open spec fn without_emphasis(s: Seq<char>) -> Seq<char>
    decreases s.len(),
{
    if s.len() == 0 {
        seq![]
    } else {
        let before = without_emphasis(s.drop_last());
        if emphasis(s.last()) {
            before
        } else {
            before.push(s.last())
        }
    }
}

/// The words of a text: the longest runs of characters that are not white space.
pub open spec fn words(s: Seq<char>) -> Seq<Seq<char>>
    decreases s.len(),
{
    if s.len() == 0 {
        seq![]
    } else {
        let before = s.drop_last();
        if text::whitespace(s.last()) {
            words(before)
        } else if before.len() == 0 || text::whitespace(before.last()) {
            words(before).push(seq![s.last()])
        } else {
            words(before).drop_last().push(words(before).last().push(s.last()))
        }
    }
}

/// The words of a text with one space between neighbours.
pub open spec fn collapsed(s: Seq<char>) -> Seq<char> {
    text::joined(words(s), seq![' '])
}

/// A lowercase text without tags and emphasis marks, and with single spaces.
pub open spec fn cleaned(lowered: Seq<char>) -> Seq<char> {
    collapsed(without_emphasis(without_tags(lowered)))
}

/// The form in which a text is compared.
pub open spec fn normalized(s: Seq<char>) -> Seq<char> {
    cleaned(unicode_lowercase(s))
}

/// A word is not empty and holds no white space.
pub open spec fn is_word(w: Seq<char>) -> bool {
    &&& w.len() > 0
    &&& forall|i: int| 0 <= i < w.len() ==> !text::whitespace(#[trigger] w[i])
}

/// The words of a text are words, and a text that does not end in white space ends in its last word.
pub proof fn law_words(s: Seq<char>)
    ensures
        forall|i: int| 0 <= i < words(s).len() ==> is_word(#[trigger] words(s)[i]),
        s.len() > 0 && !text::whitespace(s.last()) ==> words(s).len() > 0,
    decreases s.len(),
{
    if s.len() > 0 {
        let before = words(s.drop_last());
        law_words(s.drop_last());
        assert forall|i: int| 0 <= i < words(s).len() implies is_word(#[trigger] words(s)[i]) by {
            if i < before.len() {
                assert(is_word(before[i]));
            }
        }
    }
}

pub(crate) proof fn lemma_words_concat_word(s: Seq<char>, w: Seq<char>)
    requires
        is_word(w),
        s.len() == 0 || text::whitespace(s.last()),
    ensures
        words(s + w) == words(s).push(w),
    decreases w.len(),
{
    let all = s + w;
    let before = w.drop_last();
    assert(all.drop_last() == s + before);
    assert(all.last() == w.last());
    assert(!text::whitespace(w[w.len() - 1]));
    if before.len() == 0 {
        assert(s + before == s);
        assert(w == seq![w.last()]);
    } else {
        assert forall|i: int| 0 <= i < before.len() implies !text::whitespace(
            #[trigger] before[i],
        ) by {
            assert(before[i] == w[i]);
        }
        lemma_words_concat_word(s, before);
        assert((s + before).last() == before[before.len() - 1]);
        assert(before.push(w.last()) == w);
        assert(words(s).push(before).drop_last() == words(s));
    }
}

proof fn lemma_words_of_joined(list: Seq<Seq<char>>)
    requires
        forall|i: int| 0 <= i < list.len() ==> is_word(#[trigger] list[i]),
    ensures
        words(text::joined(list, seq![' '])) == list,
    decreases list.len(),
{
    if list.len() > 0 {
        let before = list.drop_last();
        let w = list[list.len() - 1];
        assert(is_word(w));
        assert(list == before.push(w));
        lemma_words_of_joined(before);
        if before.len() == 0 {
            lemma_words_concat_word(seq![], w);
            assert(Seq::<char>::empty() + w == w);
        } else {
            let spaced = text::joined(before, seq![' ']) + seq![' '];
            assert(spaced.last() == ' ');
            assert(spaced.drop_last() == text::joined(before, seq![' ']));
            lemma_words_concat_word(spaced, w);
        }
    }
}

/// Collapsing a collapsed text changes nothing, and keeps the words.
pub proof fn law_collapse_is_stable(s: Seq<char>)
    ensures
        words(collapsed(s)) == words(s),
        collapsed(collapsed(s)) == collapsed(s),
{
    law_words(s);
    lemma_words_of_joined(words(s));
}

proof fn lemma_without_emphasis(s: Seq<char>)
    ensures
        forall|i: int|
            0 <= i < without_emphasis(s).len() ==> !emphasis(#[trigger] without_emphasis(s)[i]),
    decreases s.len(),
{
    if s.len() > 0 {
        let before = without_emphasis(s.drop_last());
        let all = without_emphasis(s);
        lemma_without_emphasis(s.drop_last());
        assert forall|i: int| 0 <= i < all.len() implies !emphasis(#[trigger] all[i]) by {
            if i < before.len() {
                assert(all[i] == before[i]);
            }
        }
    }
}

/// The characters of the words of a text are characters of the text.
proof fn lemma_words_characters(s: Seq<char>)
    requires
        forall|i: int| 0 <= i < s.len() ==> !emphasis(#[trigger] s[i]),
    ensures
        forall|k: int, i: int|
            0 <= k < words(s).len() && 0 <= i < words(s)[k].len() ==> !emphasis(
                #[trigger] words(s)[k][i],
            ),
    decreases s.len(),
{
    if s.len() > 0 {
        let before = s.drop_last();
        assert forall|i: int| 0 <= i < before.len() implies !emphasis(#[trigger] before[i]) by {
            assert(before[i] == s[i]);
        }
        lemma_words_characters(before);
        law_words(before);
        assert(s.last() == s[s.len() - 1]);
        assert forall|k: int, i: int|
            0 <= k < words(s).len() && 0 <= i < words(s)[k].len() implies !emphasis(
            #[trigger] words(s)[k][i],
        ) by {
            if k < words(before).len() && i < words(before)[k].len() {
                assert(words(s)[k][i] == words(before)[k][i]);
            }
        }
    }
}

proof fn lemma_joined_characters(list: Seq<Seq<char>>)
    requires
        forall|k: int, i: int|
            0 <= k < list.len() && 0 <= i < list[k].len() ==> !emphasis(#[trigger] list[k][i]),
    ensures
        forall|i: int|
            0 <= i < text::joined(list, seq![' ']).len() ==> !emphasis(
                #[trigger] text::joined(list, seq![' '])[i],
            ),
    decreases list.len(),
{
    if list.len() > 1 {
        let before = list.drop_last();
        assert forall|k: int, i: int|
            0 <= k < before.len() && 0 <= i < before[k].len() implies !emphasis(
            #[trigger] before[k][i],
        ) by {
            assert(before[k][i] == list[k][i]);
        }
        lemma_joined_characters(before);
        let head = text::joined(before, seq![' ']);
        let last = list[list.len() - 1];
        let all = text::joined(list, seq![' ']);
        assert(all == head + seq![' '] + last);
        assert forall|i: int| 0 <= i < all.len() implies !emphasis(#[trigger] all[i]) by {
            if i < head.len() {
                assert(all[i] == head[i]);
            } else if i > head.len() {
                assert(all[i] == list[list.len() - 1][i - head.len() - 1]);
            }
        }
    } else if list.len() == 1 {
        assert(text::joined(list, seq![' ']) == list[0]);
    }
}

/// The compared form of a text has no emphasis marks, no space at either end, and no two white space
/// characters in a row: collapsing it changes nothing.
pub proof fn law_cleaned(lowered: Seq<char>)
    ensures
        forall|i: int| 0 <= i < cleaned(lowered).len() ==> !emphasis(#[trigger] cleaned(lowered)[i]),
        collapsed(cleaned(lowered)) == cleaned(lowered),
{
    let kept = without_emphasis(without_tags(lowered));
    lemma_without_emphasis(without_tags(lowered));
    lemma_words_characters(kept);
    lemma_joined_characters(words(kept));
    law_collapse_is_stable(kept);
}

/// Whether a text holds none of the superscript and subscript tags.
pub open spec fn tag_free(s: Seq<char>) -> bool {
    &&& !text::occurs(s, "<sup>"@)
    &&& !text::occurs(s, "</sup>"@)
    &&& !text::occurs(s, "<sub>"@)
    &&& !text::occurs(s, "</sub>"@)
}

proof fn lemma_emphasis_free(s: Seq<char>)
    requires
        forall|i: int| 0 <= i < s.len() ==> !emphasis(#[trigger] s[i]),
    ensures
        without_emphasis(s) == s,
    decreases s.len(),
{
    if s.len() > 0 {
        let before = s.drop_last();
        assert forall|i: int| 0 <= i < before.len() implies !emphasis(#[trigger] before[i]) by {
            assert(before[i] == s[i]);
        }
        lemma_emphasis_free(before);
        assert(s.last() == s[s.len() - 1]);
        assert(before.push(s.last()) == s);
    }
}

/// Cleaning a cleaned text changes nothing, provided that no tag has come about by the cleaning.
pub proof fn law_cleaning_is_stable(lowered: Seq<char>)
    requires
        tag_free(cleaned(lowered)),
    ensures
        cleaned(cleaned(lowered)) == cleaned(lowered),
{
    let r = cleaned(lowered);
    law_cleaned(lowered);
    text::lemma_nothing_replaced(r, "<sup>"@, ""@);
    text::lemma_nothing_replaced(r, "</sup>"@, ""@);
    text::lemma_nothing_replaced(r, "<sub>"@, ""@);
    text::lemma_nothing_replaced(r, "</sub>"@, ""@);
    lemma_emphasis_free(r);
}

/// The compared form of a text is its own compared form, provided that no tag has come about by
/// normalizing it and that lowercasing leaves it alone.
pub proof fn law_normalizing_is_stable(s: Seq<char>)
    ensures
        tag_free(normalized(s)) && unicode_lowercase(normalized(s)) == normalized(s) ==> normalized(
            normalized(s),
        ) == normalized(s),
{
    if tag_free(normalized(s)) {
        law_cleaning_is_stable(unicode_lowercase(s));
    }
}

/// A character that lowercasing an ASCII text leaves alone.
spec fn ascii_lower_case(c: char) -> bool {
    (c as int) < 128 && ascii_lower(c) == c
}

/// Whether lowercasing leaves every character of an ASCII text alone.
spec fn all_lower(s: Seq<char>) -> bool {
    forall|i: int| 0 <= i < s.len() ==> ascii_lower_case(#[trigger] s[i])
}

proof fn lemma_replaced_lower(s: Seq<char>, pat: Seq<char>)
    requires
        all_lower(s),
    ensures
        all_lower(text::replaced(s, pat, ""@)),
    decreases s.len(),
{
    reveal_strlit("");
    if s.len() == 0 || pat.len() == 0 {
    } else if text::occurs_at(s, pat, 0) {
        let rest = s.skip(pat.len() as int);
        assert forall|i: int| 0 <= i < rest.len() implies ascii_lower_case(#[trigger] rest[i]) by {
            assert(rest[i] == s[i + pat.len()]);
        }
        lemma_replaced_lower(rest, pat);
        assert(""@ + text::replaced(rest, pat, ""@) == text::replaced(rest, pat, ""@));
    } else {
        let rest = s.skip(1);
        assert forall|i: int| 0 <= i < rest.len() implies ascii_lower_case(#[trigger] rest[i]) by {
            assert(rest[i] == s[i + 1]);
        }
        lemma_replaced_lower(rest, pat);
        assert(ascii_lower_case(s[0]));
    }
}

proof fn lemma_without_emphasis_lower(s: Seq<char>)
    requires
        all_lower(s),
    ensures
        all_lower(without_emphasis(s)),
    decreases s.len(),
{
    if s.len() > 0 {
        let before = s.drop_last();
        assert forall|i: int| 0 <= i < before.len() implies ascii_lower_case(
            #[trigger] before[i],
        ) by {
            assert(before[i] == s[i]);
        }
        lemma_without_emphasis_lower(before);
        assert(ascii_lower_case(s[s.len() - 1]));
    }
}

proof fn lemma_words_lower(s: Seq<char>)
    requires
        all_lower(s),
    ensures
        forall|k: int| 0 <= k < words(s).len() ==> all_lower(#[trigger] words(s)[k]),
    decreases s.len(),
{
    if s.len() > 0 {
        let before = s.drop_last();
        assert forall|i: int| 0 <= i < before.len() implies ascii_lower_case(
            #[trigger] before[i],
        ) by {
            assert(before[i] == s[i]);
        }
        lemma_words_lower(before);
        law_words(before);
        assert(ascii_lower_case(s[s.len() - 1]));
        assert forall|k: int| 0 <= k < words(s).len() implies all_lower(#[trigger] words(s)[k]) by {
            if k < words(before).len() {
                assert(all_lower(words(before)[k]));
            }
        }
    }
}

proof fn lemma_joined_lower(list: Seq<Seq<char>>)
    requires
        forall|k: int| 0 <= k < list.len() ==> all_lower(#[trigger] list[k]),
    ensures
        all_lower(text::joined(list, seq![' '])),
    decreases list.len(),
{
    if list.len() > 1 {
        let before = list.drop_last();
        assert forall|k: int| 0 <= k < before.len() implies all_lower(#[trigger] before[k]) by {
            assert(before[k] == list[k]);
        }
        lemma_joined_lower(before);
        assert(all_lower(list[list.len() - 1]));
        assert(ascii_lower_case(' '));
    } else if list.len() == 1 {
        assert(all_lower(list[0]));
    }
}

/// The compared form of an ASCII text is ASCII and its own compared form, provided that no tag has
/// come about by normalizing it.
pub proof fn law_normalizing_ascii_is_stable(s: Seq<char>)
    requires
        is_ascii_chars(s),
        tag_free(cleaned(ascii_lowercase(s))),
    ensures
        ({
            let r = cleaned(ascii_lowercase(s));
            &&& is_ascii_chars(r)
            &&& cleaned(ascii_lowercase(r)) == r
        }),
{
    let lowered = ascii_lowercase(s);
    let r = cleaned(lowered);
    assert forall|i: int| 0 <= i < lowered.len() implies ascii_lower_case(#[trigger] lowered[i]) by {
        assert(0 <= s[i] as int <= 127);
        assert(lowered[i] == ascii_lower(s[i]));
    }
    lemma_replaced_lower(lowered, "<sup>"@);
    let a = text::replaced(lowered, "<sup>"@, ""@);
    lemma_replaced_lower(a, "</sup>"@);
    let b = text::replaced(a, "</sup>"@, ""@);
    lemma_replaced_lower(b, "<sub>"@);
    lemma_replaced_lower(text::replaced(b, "<sub>"@, ""@), "</sub>"@);
    lemma_without_emphasis_lower(without_tags(lowered));
    lemma_words_lower(without_emphasis(without_tags(lowered)));
    lemma_joined_lower(words(without_emphasis(without_tags(lowered))));
    assert(all_lower(r));
    assert(is_ascii_chars(r)) by {
        assert forall|i: int| 0 <= i < r.len() implies '\0' <= #[trigger] r[i] <= '\u{7f}' by {
            assert(ascii_lower_case(r[i]));
        }
    }
    assert(ascii_lowercase(r) == r) by {
        assert forall|i: int| 0 <= i < r.len() implies ascii_lowercase(r)[i] == #[trigger] r[i] by {
            assert(ascii_lower_case(r[i]));
        }
    }
    law_cleaning_is_stable(lowered);
}

/// The words of a text, joined, when one more character comes.
proof fn lemma_words_push(s: Seq<char>, c: char)
    ensures
        text::whitespace(c) ==> words(s.push(c)) == words(s),
        !text::whitespace(c) && s.len() > 0 && !text::whitespace(s.last()) ==> collapsed(s.push(c))
            == collapsed(s).push(c),
        !text::whitespace(c) && (s.len() == 0 || text::whitespace(s.last())) ==> collapsed(s.push(c))
            == (if words(s).len() > 0 {
            collapsed(s).push(' ').push(c)
        } else {
            seq![c]
        }),
{
    let t = s.push(c);
    assert(t.drop_last() == s);
    law_words(s);
    if !text::whitespace(c) {
        if s.len() > 0 && !text::whitespace(s.last()) {
            let before = words(s).drop_last();
            assert(words(t).drop_last() == before);
            if before.len() > 0 {
                assert(collapsed(t) == collapsed(s).push(c));
            } else {
                assert(words(s)[0].push(c) == words(t)[0]);
            }
        } else {
            assert(words(t).drop_last() == words(s));
            if words(s).len() > 0 {
                assert(collapsed(t) == collapsed(s).push(' ').push(c));
            }
        }
    }
}

/// Removes emphasis marks and collapses white space.
fn collapse(s: &str) -> (res: String)
    ensures
        res@ == collapsed(without_emphasis(s@)),
{
    let chars = text::chars_of(s);
    let mut out = String::new();
    let mut pending = false;
    let mut i: usize = 0;
    assert(chars@.take(0).len() == 0);
    while i < chars.len()
        invariant
            chars@ == s@,
            i <= chars@.len(),
            ({
                let kept = without_emphasis(chars@.take(i as int));
                &&& out@ == collapsed(kept)
                &&& pending == (kept.len() > 0 && text::whitespace(kept.last()))
                &&& out@.len() > 0 <==> words(kept).len() > 0
            }),
        decreases chars@.len() - i,
    {
        let c: char = chars[i];
        let ghost kept = without_emphasis(chars@.take(i as int));
        proof {
            assert(chars@.take(i + 1).drop_last() == chars@.take(i as int));
            assert(chars@.take(i + 1).last() == c);
            lemma_words_push(kept, c);
            law_words(kept);
            law_words(kept.push(c));
        }
        if c != '*' && c != '_' {
            if text::is_whitespace(c) {
                pending = true;
            } else {
                if pending && !out.as_str().is_empty() {
                    out.push(' ');
                }
                out.push(c);
                pending = false;
            }
            assert(kept.push(c).last() == c);
        }
        i = i + 1;
    }
    assert(chars@.take(i as int) == chars@);
    out
}

/// Takes a lowercase text to the form in which texts are compared.
pub fn clean(lowered: &str) -> (res: String)
    ensures
        res@ == cleaned(lowered@),
{
    proof {
        reveal_strlit("<sup>");
        reveal_strlit("</sup>");
        reveal_strlit("<sub>");
        reveal_strlit("</sub>");
    }
    let s = text::replace_all(lowered, "<sup>", "");
    let s = text::replace_all(s.as_str(), "</sup>", "");
    let s = text::replace_all(s.as_str(), "<sub>", "");
    let s = text::replace_all(s.as_str(), "</sub>", "");
    collapse(s.as_str())
}

/// Takes a text to the form in which texts are compared: lowercase, without superscript and subscript
/// tags and emphasis marks, and with single spaces between words.
pub fn normalize(s: &str) -> (res: String)
    ensures
        res@ == normalized(s@),
        is_ascii_chars(s@) ==> res@ == cleaned(ascii_lowercase(s@)),
{
    let lowered = s.to_lowercase();
    clean(lowered.as_str())
}

} // verus!
