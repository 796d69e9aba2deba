//! What the functions on texts give, said of their results.

use crate::text;
use vstd::prelude::*;

verus! {

/// White space is the tab, the line feed and its like, the space, and the spaces and separators that
/// Unicode adds to them.
pub proof fn law_whitespace(c: char)
    ensures
        text::whitespace(c) <==> {
            ||| c == '\t' || c == '\n' || c == '\u{b}' || c == '\u{c}' || c == '\r' || c == ' '
            ||| c == '\u{85}' || c == '\u{a0}' || c == '\u{1680}'
            ||| '\u{2000}' <= c <= '\u{200a}'
            ||| c == '\u{2028}' || c == '\u{2029}' || c == '\u{202f}' || c == '\u{205f}'
            ||| c == '\u{3000}'
        },
{
}

/// A text without a line feed is one line, or none if it is empty.
pub proof fn law_last_line(line: Seq<char>)
    requires
        forall|i: int| 0 <= i < line.len() ==> #[trigger] line[i] != '\n',
    ensures
        text::lines(line) == if line.len() == 0 {
            Seq::<Seq<char>>::empty()
        } else {
            seq![line]
        },
{
    text::lemma_until_is(line, '\n', line.len() as int);
}

/// What comes before the first line feed is the first line, without a carriage return at its end, and
/// the lines behind it are the others.
pub proof fn law_first_line(line: Seq<char>, rest: Seq<char>)
    requires
        forall|i: int| 0 <= i < line.len() ==> #[trigger] line[i] != '\n',
    ensures
        ({
            let all = text::lines(line.push('\n') + rest);
            &&& all.len() == text::lines(rest).len() + 1
            &&& all.skip(1) == text::lines(rest)
            &&& line.len() > 0 && line.last() == '\r' ==> all[0] == line.drop_last()
            &&& line.len() == 0 || line.last() != '\r' ==> all[0] == line
        }),
{
    let s = line.push('\n') + rest;
    let n = line.len() as int;
    assert forall|i: int| 0 <= i < n implies #[trigger] s[i] != '\n' by {
        assert(s[i] == line[i]);
    }
    assert(s[n] == '\n');
    text::lemma_until_is(s, '\n', n);
    assert(s.take(n) == line);
    assert(s.skip(n + 1) == rest);
    assert(text::lines(s) == seq![text::without_cr(line)] + text::lines(rest));
    assert(text::lines(s).skip(1) == text::lines(rest));
}

/// Joining puts the separator between neighbours and nowhere else.
pub proof fn law_joined(a: Seq<Seq<char>>, b: Seq<Seq<char>>, part: Seq<char>, sep: Seq<char>)
    ensures
        text::joined(seq![], sep) == Seq::<char>::empty(),
        text::joined(seq![part], sep) == part,
        a.len() > 0 && b.len() > 0 ==> text::joined(a + b, sep) == text::joined(a, sep) + sep
            + text::joined(b, sep),
    decreases b.len(),
{
    if a.len() > 0 && b.len() > 0 {
        let before = b.drop_last();
        assert((a + b).drop_last() == a + before);
        if before.len() == 0 {
            assert(a + before == a);
        } else {
            law_joined(a, before, part, sep);
            let x = text::joined(a, sep);
            let y = text::joined(before, sep);
            assert(x + sep + y + sep + b.last() == x + sep + (y + sep + b.last()));
        }
    }
}

/// Trimming takes away white space at both ends and all of it, and nothing else.
pub proof fn law_trimmed(s: Seq<char>)
    ensures
        ({
            let t = text::trimmed_end(text::trimmed_start(s));
            &&& t.len() > 0 ==> !text::whitespace(t[0]) && !text::whitespace(t.last())
            &&& exists|a: Seq<char>, b: Seq<char>|
                {
                    &&& #[trigger] text::blank(a)
                    &&& #[trigger] text::blank(b)
                    &&& s == a + t + b
                }
        }),
{
    let u = text::trimmed_start(s);
    let t = text::trimmed_end(u);
    let a = lemma_trimmed_start(s);
    let b = lemma_trimmed_end(u);
    assert(s == a + t + b);
    if t.len() > 0 {
        assert(u[0] == t[0]);
    }
}

proof fn lemma_trimmed_start(s: Seq<char>) -> (a: Seq<char>)
    ensures
        text::blank(a),
        s == a + text::trimmed_start(s),
        text::trimmed_start(s).len() > 0 ==> !text::whitespace(text::trimmed_start(s)[0]),
    decreases s.len(),
{
    if s.len() > 0 && text::whitespace(s[0]) {
        let rest = lemma_trimmed_start(s.skip(1));
        let a = seq![s[0]] + rest;
        assert forall|i: int| 0 <= i < a.len() implies text::whitespace(#[trigger] a[i]) by {
            if i > 0 {
                assert(a[i] == rest[i - 1]);
            }
        }
        assert(s == seq![s[0]] + s.skip(1));
        assert(s == a + text::trimmed_start(s));
        a
    } else {
        assert(s == Seq::<char>::empty() + s);
        seq![]
    }
}

proof fn lemma_trimmed_end(s: Seq<char>) -> (b: Seq<char>)
    ensures
        text::blank(b),
        s == text::trimmed_end(s) + b,
        text::trimmed_end(s).len() > 0 ==> !text::whitespace(text::trimmed_end(s).last()),
    decreases s.len(),
{
    if s.len() > 0 && text::whitespace(s.last()) {
        let rest = lemma_trimmed_end(s.drop_last());
        let b = rest.push(s.last());
        assert forall|i: int| 0 <= i < b.len() implies text::whitespace(#[trigger] b[i]) by {
            if i < rest.len() {
                assert(b[i] == rest[i]);
            }
        }
        assert(s == s.drop_last().push(s.last()));
        assert(s == text::trimmed_end(s) + b);
        b
    } else {
        assert(s == s + Seq::<char>::empty());
        seq![]
    }
}

/// What stands before the first occurrence of a pattern stays, the occurrence is replaced, and what
/// stands behind it is treated alike. A text without an occurrence stays as it is.
pub proof fn law_replaced(a: Seq<char>, b: Seq<char>, pat: Seq<char>, by: Seq<char>)
    requires
        pat.len() > 0,
        forall|at: int| 0 <= at < a.len() ==> !#[trigger] text::occurs_at(a + pat + b, pat, at),
    ensures
        text::replaced(a + pat + b, pat, by) == a + by + text::replaced(b, pat, by),
        forall|s: Seq<char>|
            !#[trigger] text::occurs(s, pat) ==> text::replaced(s, pat, by) == s,
    decreases a.len(),
{
    let s = a + pat + b;
    assert forall|t: Seq<char>| !#[trigger] text::occurs(t, pat) implies text::replaced(t, pat, by)
        == t by {
        text::lemma_nothing_replaced(t, pat, by);
    }
    if a.len() == 0 {
        assert(s.subrange(0, pat.len() as int) == pat);
        assert(text::occurs_at(s, pat, 0));
        assert(s.skip(pat.len() as int) == b);
        assert(a + by == by);
    } else {
        let rest = a.skip(1);
        assert(!text::occurs_at(s, pat, 0));
        assert(s.skip(1) == rest + pat + b);
        assert forall|at: int| 0 <= at < rest.len() implies !#[trigger] text::occurs_at(
            rest + pat + b,
            pat,
            at,
        ) by {
            assert(!text::occurs_at(s, pat, at + 1));
            assert((rest + pat + b).subrange(at, at + pat.len()) == s.subrange(
                at + 1,
                at + 1 + pat.len(),
            ));
        }
        law_replaced(rest, b, pat, by);
        assert(seq![s[0]] + (rest + by + text::replaced(b, pat, by)) == a + by + text::replaced(
            b,
            pat,
            by,
        ));
    }
}

/// The number that a text writes, digit by digit.
pub open spec fn number_of(s: Seq<char>) -> int {
    s.fold_left(0int, |n: int, c: char| 10 * n + (c as int - 48))
}

/// A number in decimal is made of digits, without a zero in front, and read back it is the number.
pub proof fn law_decimal(n: nat)
    ensures
        number_of(text::decimal(n)) == n,
        n > 0 ==> text::decimal(n)[0] != '0',
        n == 0 ==> text::decimal(n) == seq!['0'],
        forall|i: int|
            0 <= i < text::decimal(n).len() ==> '0' <= #[trigger] text::decimal(n)[i] <= '9',
    decreases n,
{
    let s = text::decimal(n);
    let f = |m: int, c: char| 10 * m + (c as int - 48);
    text::lemma_decimal_digits(n);
    if n < 10 {
        assert(s.drop_last().len() == 0);
        assert(s.drop_last().fold_left(0int, f) == 0);
        assert(s.fold_left(0int, f) == f(0int, s.last()));
    } else {
        law_decimal(n / 10);
        text::lemma_decimal_digits(n / 10);
        assert(s.drop_last() == text::decimal(n / 10));
        assert(s.fold_left(0int, f) == f(s.drop_last().fold_left(0int, f), s.last()));
    }
}

/// Whether two texts agree before position `i`, where the first one ends or has the lesser character.
pub open spec fn decides(a: Seq<char>, b: Seq<char>, i: int) -> bool {
    &&& 0 <= i <= a.len()
    &&& i <= b.len()
    &&& a.take(i) == b.take(i)
    &&& i == a.len() || (i < b.len() && a[i] < b[i])
}

/// A text comes before another, or equals it, if it is the start of it, or if it has the lesser
/// character where they first differ.
pub proof fn law_text_le(a: Seq<char>, b: Seq<char>)
    ensures
        text::text_le(a, b) <==> exists|i: int| #[trigger] decides(a, b, i),
    decreases a.len(),
{
    if a.len() == 0 {
        assert(a.take(0) == b.take(0));
        assert(decides(a, b, 0));
    } else if b.len() == 0 {
    } else if a[0] != b[0] {
        if a[0] < b[0] {
            assert(a.take(0) == b.take(0));
            assert(decides(a, b, 0));
        }
        assert forall|i: int| #[trigger] decides(a, b, i) implies a[0] < b[0] by {
            if i > 0 {
                assert(a.take(i)[0] == b.take(i)[0]);
            }
        }
    } else {
        let x = a.skip(1);
        let y = b.skip(1);
        law_text_le(x, y);
        if text::text_le(x, y) {
            let i = choose|i: int| #[trigger] decides(x, y, i);
            assert(a.take(i + 1) == seq![a[0]] + x.take(i));
            assert(b.take(i + 1) == seq![b[0]] + y.take(i));
            assert(decides(a, b, i + 1));
        }
        assert forall|i: int| #[trigger] decides(a, b, i) implies text::text_le(x, y) by {
            assert(i > 0);
            assert(x.take(i - 1) == a.take(i).skip(1));
            assert(y.take(i - 1) == b.take(i).skip(1));
            assert(decides(x, y, i - 1));
        }
    }
}

} // verus!
