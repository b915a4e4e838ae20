//! Diff records: the tagged outcome per relative path, the rule that turns a
//! similarity score into a record, and the glyph shown on the terminal.

use vstd::prelude::*;
use crate::Score;
use crate::SCORE_ONE;

verus! {

/// What a reconciliation found out about one relative path.
#[derive(Clone, Copy, PartialEq, Eq, Structural, Debug)]
pub enum Diff {
    /// The path exists only under root A.
    OnlyInA,
    /// The path exists only under root B.
    OnlyInB,
    /// The path exists under both roots and its images differ.
    Different { similarity: Score },
}

/// One record of the run: a relative path with what was found out about it.
#[derive(Clone, Debug)]
pub struct DiffResult {
    pub diff: Diff,
    pub path: String,
}

/// Builds one record per path that exists only under root A.
pub fn only_in_a_records(paths: &Vec<String>) -> (r: Vec<DiffResult>)
    ensures
        r@.len() == paths@.len(),
        forall|i: int|
            0 <= i < r@.len() ==> r@[i].path@ == paths.deep_view()[i] && r@[i].diff
                == Diff::OnlyInA,
{
    let mut out: Vec<DiffResult> = Vec::new();
    let mut i: usize = 0;
    while i < paths.len()
        invariant
            0 <= i <= paths.len(),
            out@.len() == i,
            forall|j: int|
                0 <= j < i ==> out@[j].path@ == paths.deep_view()[j] && out@[j].diff
                    == Diff::OnlyInA,
        decreases paths.len() - i,
    {
        let p: String = paths[i].clone();
        out.push(DiffResult { diff: Diff::OnlyInA, path: p });
        i = i + 1;
    }
    out
}

/// Builds one record per path that exists only under root B.
pub fn only_in_b_records(paths: &Vec<String>) -> (r: Vec<DiffResult>)
    ensures
        r@.len() == paths@.len(),
        forall|i: int|
            0 <= i < r@.len() ==> r@[i].path@ == paths.deep_view()[i] && r@[i].diff
                == Diff::OnlyInB,
{
    let mut out: Vec<DiffResult> = Vec::new();
    let mut i: usize = 0;
    while i < paths.len()
        invariant
            0 <= i <= paths.len(),
            out@.len() == i,
            forall|j: int|
                0 <= j < i ==> out@[j].path@ == paths.deep_view()[j] && out@[j].diff
                    == Diff::OnlyInB,
        decreases paths.len() - i,
    {
        let p: String = paths[i].clone();
        out.push(DiffResult { diff: Diff::OnlyInB, path: p });
        i = i + 1;
    }
    out
}

/// Turns a common path's similarity score into a record: a `Different`
/// record exists exactly when the score is below one.
pub fn changed_record(path: &String, similarity: Score) -> (r: Option<DiffResult>)
    ensures
        match r {
            Some(d) => similarity.micros < SCORE_ONE && d.path@ == path@ && d.diff
                == (Diff::Different { similarity }),
            None => similarity.micros >= SCORE_ONE,
        },
{
    if similarity.is_different() {
        Some(DiffResult { diff: Diff::Different { similarity }, path: path.clone() })
    } else {
        None
    }
}

/// The category glyph that prefixes a record's terminal line.
pub fn glyph(d: &Diff) -> (r: &'static str)
    ensures
        match d {
            Diff::OnlyInA => r@ == "-"@,
            Diff::OnlyInB => r@ == "+"@,
            Diff::Different { .. } => r@ == "≠"@,
        },
{
    match d {
        Diff::OnlyInA => "-",
        Diff::OnlyInB => "+",
        Diff::Different { .. } => "≠",
    }
}

} // verus!
