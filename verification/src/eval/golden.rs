//! Loading of the examples.

use crate::errors::EvalError;
use crate::eval::examples::EvalExample;
use crate::text;
use vstd::prelude::*;

verus! {

/// A line of the example file: the example it holds, or the messages of why it holds none.
pub enum GoldenLine {
    Example(EvalExample),
    Malformed(Vec<String>),
}

/// Whether line `k` is the first that holds no example.
pub open spec fn first_malformed(lines: Seq<GoldenLine>, k: int) -> bool {
    &&& 0 <= k < lines.len()
    &&& lines[k] is Malformed
    &&& forall|j: int| 0 <= j < k ==> (#[trigger] lines[j]) is Example
}

/// The examples of a file, one per line. The first line that holds none is an error, named by its
/// position.
pub fn golden_set(path: &str, lines: Vec<GoldenLine>) -> (res: Result<Vec<EvalExample>, EvalError>)
    ensures
        match res {
            Ok(examples) => {
                &&& examples@.len() == lines@.len()
                &&& forall|i: int|
                    0 <= i < lines@.len() ==> #[trigger] lines@[i] == GoldenLine::Example(
                        examples@[i],
                    )
            },
            Err(e) => {
                &&& e matches EvalError::ParseFile { path: at, line, causes }
                &&& at@ == path@
                &&& first_malformed(lines@, line as int)
                &&& lines@[line as int] == GoldenLine::Malformed(causes)
            },
        },
{
    let ghost all = lines@;
    let mut out: Vec<EvalExample> = Vec::new();
    for line in it: lines.into_iter()
        invariant
            it.seq() == all,
            out@.len() == it.index(),
            forall|i: int|
                0 <= i < it.index() ==> #[trigger] all[i] == GoldenLine::Example(out@[i]),
    {
        match line {
            GoldenLine::Example(example) => {
                out.push(example);
            },
            GoldenLine::Malformed(causes) => {
                return Err(
                    EvalError::ParseFile { path: text::owned(path), line: out.len(), causes },
                );
            },
        }
    }
    Ok(out)
}

} // verus!
