//! What normalizing does to a text, part by part.

use crate::eval::normalize;
use crate::text;
use vstd::prelude::*;
use vstd::utf8::*;

verus! {

/// A run of characters that are not white space is a word. White space parts the words before it from
/// those behind it.
pub proof fn law_words_are_parted(a: Seq<char>, space: char, b: Seq<char>, word: Seq<char>)
    requires
        text::whitespace(space),
        normalize::is_word(word),
    ensures
        normalize::words(seq![]) == Seq::<Seq<char>>::empty(),
        normalize::words(word) == seq![word],
        normalize::words(a.push(space) + b) == normalize::words(a) + normalize::words(b),
    decreases b.len(),
{
    normalize::lemma_words_concat_word(seq![], word);
    assert(Seq::<char>::empty() + word == word);
    assert(Seq::<Seq<char>>::empty().push(word) == seq![word]);
    let all = a.push(space) + b;
    if b.len() == 0 {
        assert(all == a.push(space));
        assert(a.push(space).drop_last() == a);
        assert(normalize::words(a) + Seq::<Seq<char>>::empty() == normalize::words(a));
    } else {
        let before = b.drop_last();
        let c = b.last();
        law_words_are_parted(a, space, before, word);
        normalize::law_words(before);
        assert(all.drop_last() == a.push(space) + before);
        assert(all.last() == c);
        let x = normalize::words(a);
        let y = normalize::words(before);
        if text::whitespace(c) {
        } else if before.len() == 0 {
            assert((a.push(space) + before).last() == space);
            assert((x + y).push(seq![c]) == x + y.push(seq![c]));
        } else {
            assert((a.push(space) + before).last() == before.last());
            if text::whitespace(before.last()) {
                assert((x + y).push(seq![c]) == x + y.push(seq![c]));
            } else {
                assert(y.len() > 0);
                assert((x + y).last() == y.last());
                assert((x + y).drop_last() == x + y.drop_last());
                assert((x + y.drop_last()).push(y.last().push(c)) == x + y.drop_last().push(
                    y.last().push(c),
                ));
            }
        }
    }
}

/// Removing emphasis removes asterisks and underscores, and nothing else.
pub proof fn law_without_emphasis(s: Seq<char>)
    ensures
        normalize::without_emphasis(s) == s.filter(|c: char| c != '*' && c != '_'),
    decreases s.len(),
{
    reveal(Seq::filter);
    if s.len() > 0 {
        law_without_emphasis(s.drop_last());
    }
}

/// Whether a text holds no less-than sign.
pub open spec fn plain(s: Seq<char>) -> bool {
    forall|i: int| 0 <= i < s.len() ==> #[trigger] s[i] != '<'
}

/// A text without a less-than sign stays in front of whatever is replaced.
proof fn lemma_plain_prefix(a: Seq<char>, rest: Seq<char>, pat: Seq<char>)
    requires
        plain(a),
        pat.len() > 0,
        pat[0] == '<',
    ensures
        text::replaced(a + rest, pat, ""@) == a + text::replaced(rest, pat, ""@),
    decreases a.len(),
{
    let s = a + rest;
    if a.len() == 0 {
        assert(s == rest);
        assert(a + text::replaced(rest, pat, ""@) == text::replaced(rest, pat, ""@));
    } else {
        let tail = a.skip(1);
        assert forall|i: int| 0 <= i < tail.len() implies #[trigger] tail[i] != '<' by {
            assert(tail[i] == a[i + 1]);
        }
        if text::occurs_at(s, pat, 0) {
            assert(s.subrange(0, pat.len() as int)[0] == a[0]);
        }
        lemma_plain_prefix(tail, rest, pat);
        assert(s.skip(1) == tail + rest);
        assert(seq![s[0]] + (tail + text::replaced(rest, pat, ""@)) == a + text::replaced(
            rest,
            pat,
            ""@,
        ));
    }
}

/// A tag goes where it is the one that is replaced, and stays where it is another.
proof fn lemma_tag_prefix(tag: Seq<char>, rest: Seq<char>, pat: Seq<char>)
    requires
        is_tag(tag),
        is_tag(pat),
    ensures
        text::replaced(tag + rest, pat, ""@) == if pat == tag {
            text::replaced(rest, pat, ""@)
        } else {
            tag + text::replaced(rest, pat, ""@)
        },
{
    reveal_strlit("");
    lemma_tag_shape(tag);
    lemma_tag_shape(pat);
    let s = tag + rest;
    if pat == tag {
        assert(s.subrange(0, pat.len() as int) == pat);
        assert(text::occurs_at(s, pat, 0));
        assert(s.skip(pat.len() as int) == rest);
        assert(""@ + text::replaced(rest, pat, ""@) == text::replaced(rest, pat, ""@));
    } else {
        if text::occurs_at(s, pat, 0) {
            let part = s.subrange(0, pat.len() as int);
            if pat.len() < tag.len() {
                assert(part[pat.len() - 1] == tag[pat.len() - 1]);
            } else if pat.len() > tag.len() {
                assert(part[tag.len() - 1] == tag[tag.len() - 1]);
                assert(pat[tag.len() - 1] != '>');
            } else {
                assert(part == tag);
            }
        }
        let tail = tag.skip(1);
        assert(s.skip(1) == tail + rest);
        lemma_plain_prefix(tail, rest, pat);
        assert(seq![s[0]] + (tail + text::replaced(rest, pat, ""@)) == tag + text::replaced(
            rest,
            pat,
            ""@,
        ));
    }
}

/// Replacing a tag behind a text without a less-than sign and a tag.
proof fn lemma_one_pass(a: Seq<char>, tag: Seq<char>, rest: Seq<char>, pat: Seq<char>)
    requires
        plain(a),
        is_tag(tag),
        is_tag(pat),
    ensures
        text::replaced(a + rest, pat, ""@) == a + text::replaced(rest, pat, ""@),
        text::replaced(a + tag + rest, pat, ""@) == if pat == tag {
            a + text::replaced(rest, pat, ""@)
        } else {
            a + tag + text::replaced(rest, pat, ""@)
        },
{
    lemma_tag_shape(pat);
    lemma_plain_prefix(a, rest, pat);
    lemma_plain_prefix(a, tag + rest, pat);
    lemma_tag_prefix(tag, rest, pat);
    assert(a + tag + rest == a + (tag + rest));
    let r = text::replaced(rest, pat, ""@);
    assert(a + (tag + r) == a + tag + r);
}

/// A superscript or subscript tag, opening or closing.
pub open spec fn is_tag(tag: Seq<char>) -> bool {
    tag == "<sup>"@ || tag == "</sup>"@ || tag == "<sub>"@ || tag == "</sub>"@
}

proof fn lemma_tag_shape(tag: Seq<char>)
    requires
        is_tag(tag),
    ensures
        tag.len() > 0,
        tag[0] == '<',
        plain(tag.skip(1)),
        tag.last() == '>',
        forall|i: int| 0 <= i < tag.len() - 1 ==> #[trigger] tag[i] != '>',
{
    reveal_strlit("<sup>");
    reveal_strlit("</sup>");
    reveal_strlit("<sub>");
    reveal_strlit("</sub>");
    assert forall|i: int| 0 <= i < tag.skip(1).len() implies #[trigger] tag.skip(1)[i] != '<' by {
        assert(tag.skip(1)[i] == tag[i + 1]);
    }
}

/// A superscript or subscript tag behind a text without one goes, the text stays, and what follows is
/// treated alike. A text without a less-than sign stays as it is.
pub proof fn law_tags_go(a: Seq<char>, tag: Seq<char>, rest: Seq<char>)
    requires
        plain(a),
        is_tag(tag),
    ensures
        normalize::without_tags(a + tag + rest) == a + normalize::without_tags(rest),
        normalize::without_tags(a) == a,
{
    let p1 = "<sup>"@;
    let p2 = "</sup>"@;
    let p3 = "<sub>"@;
    let p4 = "</sub>"@;
    let r1 = text::replaced(rest, p1, ""@);
    let r2 = text::replaced(r1, p2, ""@);
    let r3 = text::replaced(r2, p3, ""@);
    lemma_one_pass(a, tag, rest, p1);
    lemma_one_pass(a, tag, r1, p2);
    lemma_one_pass(a, tag, r2, p3);
    lemma_one_pass(a, tag, r3, p4);
    let none = Seq::<char>::empty();
    assert(a + none == a);
    lemma_one_pass(a, tag, none, p1);
    lemma_one_pass(a, tag, none, p2);
    lemma_one_pass(a, tag, none, p3);
    lemma_one_pass(a, tag, none, p4);
    lemma_tags_differ();
}

proof fn lemma_tags_differ()
    ensures
        "<sup>"@ != "</sup>"@,
        "<sup>"@ != "<sub>"@,
        "<sup>"@ != "</sub>"@,
        "</sup>"@ != "<sub>"@,
        "</sup>"@ != "</sub>"@,
        "<sub>"@ != "</sub>"@,
{
    reveal_strlit("<sup>");
    reveal_strlit("</sup>");
    reveal_strlit("<sub>");
    reveal_strlit("</sub>");
    assert("<sup>"@[3] == 'p' && "<sub>"@[3] == 'b');
    assert("</sup>"@[4] == 'p' && "</sub>"@[4] == 'b');
}

/// The compared form of a text is that of its lowercase text without tags and emphasis: the words of
/// it with a single space between neighbours.
pub proof fn law_compared_form(s: Seq<char>)
    ensures
        normalize::normalized(s) == text::joined(
            normalize::words(
                normalize::without_tags(normalize::unicode_lowercase(s)).filter(
                    |c: char| c != '*' && c != '_',
                ),
            ),
            seq![' '],
        ),
{
    law_without_emphasis(normalize::without_tags(normalize::unicode_lowercase(s)));
}

/// Lowercasing an ASCII text maps `A` to `a` and so on, and leaves all else.
pub proof fn law_ascii_lowercase(s: Seq<char>)
    requires
        is_ascii_chars(s),
    ensures
        normalize::ascii_lowercase(s).len() == s.len(),
        forall|i: int|
            0 <= i < s.len() ==> (#[trigger] normalize::ascii_lowercase(s)[i]) as int == if 'A'
                <= s[i] <= 'Z' {
                s[i] as int + 32
            } else {
                s[i] as int
            },
{
}

} // verus!
