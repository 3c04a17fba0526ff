//! Human-readable terminal renderer. Every text field passes through
//! `sanitize` before it is printed.
use crate::report::sanitize::{sanitize, sanitize_spec};
use crate::report::schema::{Finding, Report};
use crate::text::{decimal, decimal_string, join, join_strings, push_str, strings_view};
use vstd::prelude::*;

verus! {

/// The lines for one finding.
pub open spec fn finding_text(f: Finding) -> Seq<char> {
    "  ["@ + sanitize_spec(f.id@) + "] "@ + sanitize_spec(f.summary@) + " ("@ + sanitize_spec(
        f.category@,
    ) + "/"@ + sanitize_spec(f.confidence@) + ")\n"@ + "    files: "@ + sanitize_spec(
        join(strings_view(f.files@), ", "@),
    ) + "\n"@
        + "    quote: "@ + sanitize_spec(f.evidence_quote@) + "\n"@
}

/// The lines for all findings, in order.
pub open spec fn findings_text(fs: Seq<Finding>) -> Seq<char>
    decreases fs.len(),
{
    if fs.len() == 0 {
        seq![]
    } else {
        findings_text(fs.drop_last()) + finding_text(fs.last())
    }
}

/// The terminal rendering of a report.
pub open spec fn render_terminal_spec(r: Report) -> Seq<char> {
    "seck v"@ + sanitize_spec(r.version@) + " — sandbox "@ + sanitize_spec(
        r.invocation.sandbox_mode@,
    ) + " — backend "@ + sanitize_spec(r.invocation.backend@) + " — model "@ + sanitize_spec(r.invocation.model@) + "\n"@
        + "inputs: "@ + decimal(r.inputs@.len()) + " files\n\n"@ + "findings:\n"@
        + findings_text(r.findings@)
}

/// Every finding of a report is printed, in order: adding a finding to a
/// report adds its block at the end of the terminal text, and that block
/// opens with `  [`, the finding's sanitized id and `] `.
pub proof fn lemma_finding_appended(r: Report, more: Report, f: Finding)
    requires
        more.version@ == r.version@,
        more.invocation.sandbox_mode@ == r.invocation.sandbox_mode@,
        more.invocation.backend@ == r.invocation.backend@,
        more.invocation.model@ == r.invocation.model@,
        more.inputs@.len() == r.inputs@.len(),
        more.findings@ == r.findings@.push(f),
    ensures
        render_terminal_spec(more) == render_terminal_spec(r) + finding_text(f),
        finding_text(f).len() > 3 + sanitize_spec(f.id@).len(),
        finding_text(f).take((5 + sanitize_spec(f.id@).len()) as int) == "  ["@ + sanitize_spec(f.id@)
            + "] "@,
{
    reveal_strlit("  [");
    reveal_strlit("] ");
    let fs = more.findings@;
    assert(fs.drop_last() =~= r.findings@);
    assert(fs.last() == f);
    assert(findings_text(fs) == findings_text(r.findings@) + finding_text(f));
    let head = "  ["@ + sanitize_spec(f.id@) + "] "@;
    let tail = sanitize_spec(f.summary@) + " ("@ + sanitize_spec(f.category@) + "/"@
        + sanitize_spec(f.confidence@) + ")\n"@ + "    files: "@ + sanitize_spec(
        join(strings_view(f.files@), ", "@),
    ) + "\n"@ + "    quote: "@ + sanitize_spec(f.evidence_quote@) + "\n"@;
    assert(finding_text(f) =~= head + tail);
    assert(finding_text(f).take(head.len() as int) =~= head);
    assert(render_terminal_spec(more) =~= render_terminal_spec(r) + finding_text(f));
}

pub fn render_terminal(report: &Report) -> (out: String)
    ensures
        out@ == render_terminal_spec(*report),
{
    let mut out = String::new();
    push_str(&mut out, "seck v");
    let version = sanitize(report.version.as_str());
    push_str(&mut out, version.as_str());
    push_str(&mut out, " — sandbox ");
    let mode = sanitize(report.invocation.sandbox_mode.as_str());
    push_str(&mut out, mode.as_str());
    push_str(&mut out, " — backend ");
    let backend = sanitize(report.invocation.backend.as_str());
    push_str(&mut out, backend.as_str());
    push_str(&mut out, " — model ");
    let model = sanitize(report.invocation.model.as_str());
    push_str(&mut out, model.as_str());
    push_str(&mut out, "\n");
    push_str(&mut out, "inputs: ");
    let n = decimal_string(report.inputs.len() as u64);
    push_str(&mut out, n.as_str());
    push_str(&mut out, " files\n\n");
    push_str(&mut out, "findings:\n");
    let ghost head = out@;
    let ghost fs = report.findings@;
    let mut i: usize = 0;
    assert(fs.take(0) =~= Seq::<Finding>::empty());
    assert(head + findings_text(fs.take(0)) =~= head);
    while i < report.findings.len()
        invariant
            i <= fs.len(),
            fs == report.findings@,
            out@ == head + findings_text(fs.take(i as int)),
        decreases fs.len() - i,
    {
        let f = &report.findings[i];
        assert(fs.take(i + 1).drop_last() =~= fs.take(i as int));
        assert(fs.take(i + 1).last() == *f);
        let ghost before = out@;
        push_str(&mut out, "  [");
        let id = sanitize(f.id.as_str());
        push_str(&mut out, id.as_str());
        push_str(&mut out, "] ");
        let summary = sanitize(f.summary.as_str());
        push_str(&mut out, summary.as_str());
        push_str(&mut out, " (");
        let category = sanitize(f.category.as_str());
        push_str(&mut out, category.as_str());
        push_str(&mut out, "/");
        let confidence = sanitize(f.confidence.as_str());
        push_str(&mut out, confidence.as_str());
        push_str(&mut out, ")\n");
        push_str(&mut out, "    files: ");
        let joined = join_strings(&f.files, ", ");
        let files = sanitize(joined.as_str());
        push_str(&mut out, files.as_str());
        push_str(&mut out, "\n");
        push_str(&mut out, "    quote: ");
        let quote = sanitize(f.evidence_quote.as_str());
        push_str(&mut out, quote.as_str());
        push_str(&mut out, "\n");
        assert(out@ =~= before + finding_text(*f));
        assert(out@ =~= head + findings_text(fs.take(i + 1)));
        i = i + 1;
    }
    assert(fs.take(i as int) =~= fs);
    assert(out@ =~= render_terminal_spec(*report));
    out
}

} // verus!
