//! The HTML report: a single self-contained document with the embedded
//! stylesheet and script, one plain line per one-sided record, and one
//! block of three linked thumbnails per changed record.

use vstd::prelude::*;
use vstd::string::StringExecFns;
use crate::paths::spec_thumb_path;
use crate::paths::thumb_path;
use crate::records::Diff;
use crate::records::DiffResult;

verus! {

/// The document's head: the embedded stylesheet, then the preamble
/// section's opening tag.
pub open spec fn spec_header(style: Seq<char>) -> Seq<char> {
    "<style>"@ + style + "</style><div>"@
}

/// One preamble line: a plain sentence for a path present on one side
/// only; changed records contribute nothing here.
pub open spec fn spec_preamble_entry(r: DiffResult) -> Seq<char> {
    match r.diff {
        Diff::OnlyInA => "<div>"@ + r.path@ + " is only present in A</div>"@,
        Diff::OnlyInB => "<div>"@ + r.path@ + " is only present in B</div>"@,
        Diff::Different { .. } => Seq::empty(),
    }
}

/// The preamble lines of all records, in record order.
pub open spec fn spec_preamble(rs: Seq<DiffResult>) -> Seq<char>
    decreases rs.len(),
{
    if rs.len() == 0 {
        Seq::empty()
    } else {
        spec_preamble(rs.drop_last()) + spec_preamble_entry(rs.last())
    }
}

/// One changed record's block: the path as its label, a dismiss control,
/// and three linked thumbnails (side A, side B, diff) that open the
/// full-size asset.
pub open spec fn spec_diff_block(p: Seq<char>) -> Seq<char> {
    "<div class=\"diff\">"@ + p + " <span class=\"x\">x</span><div><a href=\"a/"@ + p
        + "\"><img loading=\"lazy\" src=\"a/"@ + spec_thumb_path(p) + "\"></a><a href=\"b/"@ + p
        + "\"><img loading=\"lazy\" src=\"b/"@ + spec_thumb_path(p) + "\"></a><a href=\"diff/"@ + p
        + "\"><img loading=\"lazy\" src=\"diff/"@ + spec_thumb_path(p) + "\"></a></div></div>"@
}

/// The block of one record if it is a changed record, nothing otherwise.
pub open spec fn spec_diff_entry(r: DiffResult) -> Seq<char> {
    match r.diff {
        Diff::Different { .. } => spec_diff_block(r.path@),
        _ => Seq::empty(),
    }
}

/// The blocks of all changed records, in record order.
pub open spec fn spec_diff_section(rs: Seq<DiffResult>) -> Seq<char>
    decreases rs.len(),
{
    if rs.len() == 0 {
        Seq::empty()
    } else {
        spec_diff_section(rs.drop_last()) + spec_diff_entry(rs.last())
    }
}

/// The whole document: head, preamble lines, the changed-record section,
/// and the embedded script.
pub open spec fn spec_report(rs: Seq<DiffResult>, style: Seq<char>, script: Seq<char>) -> Seq<
    char,
> {
    spec_header(style) + spec_preamble(rs) + "</div><div class=\"diffs\">"@ + spec_diff_section(rs)
        + "</div><script>"@ + script + "</script>"@
}

/// Renders the report document for the given records, with the stylesheet
/// and script texts embedded (see `spec_report`). The caller writes the
/// result over any previous report in one truncating write.
pub fn render_report(results: &Vec<DiffResult>, style: &str, script: &str) -> (r: String)
    ensures
        r@ == spec_report(results@, style@, script@),
{
    let ghost rs = results@;
    let mut out: String = String::new();
    out.append("<style>");
    out.append(style);
    out.append("</style><div>");
    assert(out@ =~= spec_header(style@));
    let mut i: usize = 0;
    while i < results.len()
        invariant
            rs == results@,
            0 <= i <= rs.len(),
            out@ == spec_header(style@) + spec_preamble(rs.subrange(0, i as int)),
        decreases rs.len() - i,
    {
        proof {
            assert(rs.subrange(0, i + 1).drop_last() =~= rs.subrange(0, i as int));
            assert(rs.subrange(0, i + 1).last() == rs[i as int]);
        }
        let res: &DiffResult = &results[i];
        match res.diff {
            Diff::OnlyInA => {
                out.append("<div>");
                out.append(res.path.as_str());
                out.append(" is only present in A</div>");
            },
            Diff::OnlyInB => {
                out.append("<div>");
                out.append(res.path.as_str());
                out.append(" is only present in B</div>");
            },
            Diff::Different { .. } => {},
        }
        assert(out@ =~= spec_header(style@) + spec_preamble(rs.subrange(0, i + 1)));
        i = i + 1;
    }
    proof {
        assert(rs.subrange(0, rs.len() as int) =~= rs);
    }
    out.append("</div><div class=\"diffs\">");
    let ghost mid = spec_header(style@) + spec_preamble(rs) + "</div><div class=\"diffs\">"@;
    assert(out@ =~= mid);
    let mut j: usize = 0;
    while j < results.len()
        invariant
            rs == results@,
            0 <= j <= rs.len(),
            mid == spec_header(style@) + spec_preamble(rs) + "</div><div class=\"diffs\">"@,
            out@ == mid + spec_diff_section(rs.subrange(0, j as int)),
        decreases rs.len() - j,
    {
        proof {
            assert(rs.subrange(0, j + 1).drop_last() =~= rs.subrange(0, j as int));
            assert(rs.subrange(0, j + 1).last() == rs[j as int]);
        }
        let res: &DiffResult = &results[j];
        match res.diff {
            Diff::Different { .. } => {
                let thumb: String = thumb_path(&res.path);
                out.append("<div class=\"diff\">");
                out.append(res.path.as_str());
                out.append(" <span class=\"x\">x</span><div><a href=\"a/");
                out.append(res.path.as_str());
                out.append("\"><img loading=\"lazy\" src=\"a/");
                out.append(thumb.as_str());
                out.append("\"></a><a href=\"b/");
                out.append(res.path.as_str());
                out.append("\"><img loading=\"lazy\" src=\"b/");
                out.append(thumb.as_str());
                out.append("\"></a><a href=\"diff/");
                out.append(res.path.as_str());
                out.append("\"><img loading=\"lazy\" src=\"diff/");
                out.append(thumb.as_str());
                out.append("\"></a></div></div>");
            },
            _ => {},
        }
        assert(out@ =~= mid + spec_diff_section(rs.subrange(0, j + 1)));
        j = j + 1;
    }
    proof {
        assert(rs.subrange(0, rs.len() as int) =~= rs);
    }
    out.append("</div><script>");
    out.append(script);
    out.append("</script>");
    proof {
        assert(out@ =~= spec_report(rs, style@, script@));
    }
    out
}

} // verus!
