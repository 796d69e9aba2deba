//! File paths with `/` as the separator, compared component by component.

use crate::text;
use vstd::prelude::*;

verus! {

/// The named components of a path: what stands between separators, without empty names and `.`.
pub open spec fn names(path: Seq<char>) -> Seq<Seq<char>>
    decreases path.len(),
{
    if path.len() == 0 {
        seq![]
    } else {
        let n = text::until(path, '/');
        let head = path.take(n as int);
        let rest = if n < path.len() {
            names(path.skip(n as int + 1))
        } else {
            seq![]
        };
        if head.len() == 0 || head == seq!['.'] {
            rest
        } else {
            seq![head] + rest
        }
    }
}

/// Whether a path starts at the root.
pub open spec fn rooted(path: Seq<char>) -> bool {
    path.len() > 0 && path[0] == '/'
}

/// Whether a path starts with the component `.`.
pub open spec fn dotted(path: Seq<char>) -> bool {
    path.len() > 0 && path[0] == '.' && (path.len() == 1 || path[1] == '/')
}

/// Whether two paths have the same components. Repeated and trailing separators do not count, and
/// `.` counts only at the beginning.
pub open spec fn same_components(a: Seq<char>, b: Seq<char>) -> bool {
    &&& rooted(a) == rooted(b)
    &&& dotted(a) == dotted(b)
    &&& names(a) == names(b)
}

/// The named components of a path.
fn names_of(path: &Vec<char>) -> (res: Vec<String>)
    ensures
        text::texts(res@) == names(path@),
{
    let n: usize = path.len();
    let mut out: Vec<String> = Vec::new();
    let mut start: usize = 0;
    assert(path@.skip(0) == path@);
    assert(text::texts(out@) + names(path@) == names(path@));
    while start < n
        invariant
            n == path@.len(),
            start <= n,
            text::texts(out@) + names(path@.skip(start as int)) == names(path@),
        decreases n - start,
    {
        let mut end: usize = start;
        while end < n && path[end] != '/'
            invariant
                n == path@.len(),
                start <= end <= n,
                forall|i: int| start <= i < end ==> #[trigger] path@[i] != '/',
            decreases n - end,
        {
            end = end + 1;
        }
        let ghost rest = path@.skip(start as int);
        let ghost before = text::texts(out@);
        proof {
            assert forall|i: int| 0 <= i < end - start implies #[trigger] rest[i] != '/' by {
                assert(rest[i] == path@[start + i]);
            }
            text::lemma_until_is(rest, '/', end - start);
            assert(rest.take(end - start) == path@.subrange(start as int, end as int));
        }
        let dot = end == start + 1 && path[start] == '.';
        proof {
            let head = rest.take(end - start);
            if head == seq!['.'] {
                assert(head.len() == 1);
                assert(head[0] == path@[start as int]);
            }
            if dot {
                assert(head == seq!['.']);
            }
        }
        if end > start && !dot {
            let name = text::string_of(path, start, end);
            out.push(name);
            assert(text::texts(out@) == before.push(name@));
        }
        let ghost tail = if end < n {
            names(rest.skip(end - start + 1))
        } else {
            seq![]
        };
        proof {
            assert(text::texts(out@) + tail == before + names(rest));
        }
        if end < n {
            assert(rest.skip(end - start + 1) == path@.skip(end + 1));
            start = end + 1;
        } else {
            assert(path@.skip(n as int).len() == 0);
            start = n;
        }
    }
    assert(path@.skip(start as int).len() == 0);
    assert(text::texts(out@) + names(path@.skip(start as int)) == text::texts(out@));
    out
}

/// Whether two paths have the same components.
pub fn same_path(a: &str, b: &str) -> (res: bool)
    ensures
        res == same_components(a@, b@),
{
    let x = text::chars_of(a);
    let y = text::chars_of(b);
    let rooted_x = x.len() > 0 && x[0] == '/';
    let rooted_y = y.len() > 0 && y[0] == '/';
    let dotted_x = x.len() > 0 && x[0] == '.' && (x.len() == 1 || x[1] == '/');
    let dotted_y = y.len() > 0 && y[0] == '.' && (y.len() == 1 || y[1] == '/');
    if rooted_x != rooted_y || dotted_x != dotted_y {
        return false;
    }
    let names_x = names_of(&x);
    let names_y = names_of(&y);
    text::same_texts(&names_x, &names_y)
}

/// What stands between separators is a name unless it is empty or `.`.
pub proof fn law_one_name(part: Seq<char>)
    requires
        forall|i: int| 0 <= i < part.len() ==> #[trigger] part[i] != '/',
    ensures
        names(part) == if part.len() == 0 || part == seq!['.'] {
            Seq::<Seq<char>>::empty()
        } else {
            seq![part]
        },
{
    text::lemma_until_is(part, '/', part.len() as int);
    assert(part.take(part.len() as int) == part);
    assert(seq![part] + Seq::<Seq<char>>::empty() == seq![part]);
}

/// The names of a path are those before a separator and those behind it.
pub proof fn law_names_concat(a: Seq<char>, b: Seq<char>)
    ensures
        names(a.push('/') + b) == names(a) + names(b),
    decreases a.len(),
{
    let path = a.push('/') + b;
    text::lemma_until(a, '/');
    let n = text::until(a, '/') as int;
    assert forall|i: int| 0 <= i < n implies #[trigger] path[i] != '/' by {
        assert(path[i] == a[i]);
    }
    text::lemma_until_is(path, '/', n);
    assert(path.take(n) == a.take(n));
    if n < a.len() {
        let rest = a.skip(n + 1);
        assert(path.skip(n + 1) == rest.push('/') + b);
        law_names_concat(rest, b);
        let head = seq![a.take(n)];
        assert(head + (names(rest) + names(b)) == (head + names(rest)) + names(b));
    } else {
        assert(path.skip(n + 1) == b);
        law_one_name(a);
        assert(a.take(n) == a);
        assert(Seq::<Seq<char>>::empty() + names(b) == names(b));
    }
}

/// Two paths are the same if they have the same names, both or neither start at the root, and both or
/// neither start with `.`.
pub proof fn law_same_components(a: Seq<char>, b: Seq<char>)
    ensures
        same_components(a, b) <==> {
            &&& names(a) == names(b)
            &&& a.len() > 0 && a[0] == '/' <==> b.len() > 0 && b[0] == '/'
            &&& a == seq!['.'] || a.take(2) == seq!['.', '/'] && a.len() >= 2 <==> b == seq!['.'] || b.take(2)
                == seq!['.', '/'] && b.len() >= 2
        },
{
    lemma_dotted(a);
    lemma_dotted(b);
}

proof fn lemma_dotted(a: Seq<char>)
    ensures
        dotted(a) <==> a == seq!['.'] || a.take(2) == seq!['.', '/'] && a.len() >= 2,
{
    if a.len() >= 2 {
        assert(a.take(2).len() == 2);
        assert(a.take(2)[0] == a[0] && a.take(2)[1] == a[1]);
        if a[0] == '.' && a[1] == '/' {
            assert(a.take(2) == seq!['.', '/']);
        }
    } else if a.len() == 1 && a[0] == '.' {
        assert(a == seq!['.']);
    }
}

} // verus!
