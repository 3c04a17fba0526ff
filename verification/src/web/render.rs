//! Server-side rendering. Every piece of report text goes through
//! `sanitize` and then HTML text escaping.
use crate::codec::{html_encode_text, html_text, html_text_char};
use crate::report::sanitize::{sanitize, sanitize_spec};
use crate::report::schema::{Finding, Input, Report};
use crate::text::{decimal, decimal_string, push_str};
use vstd::prelude::*;

verus! {

/// The document head and style sheet.
pub const HTML_HEAD: &'static str = "<!doctype html>
<html lang=\"en\"><head>
<meta charset=\"utf-8\"><title>seck — report</title>
<style>
  body { font: 14px/1.5 -apple-system, system-ui, sans-serif; max-width: 60rem; margin: 2rem auto; padding: 0 1rem; }
  h1 { font-size: 1.4rem; } h2 { font-size: 1.1rem; margin-top: 2rem; }
  .finding { border: 1px solid #ddd; border-radius: 6px; padding: 1rem; margin: 1rem 0; }
  .badge { display: inline-block; padding: 2px 8px; border-radius: 999px; font-size: 0.8rem; background: #eee; }
  pre { white-space: pre-wrap; background: #f6f6f6; padding: 0.5rem; }
  code { font-family: ui-monospace, Menlo, monospace; }
</style></head><body>
";

/// Report text as it reaches the page: sanitized, then HTML-escaped.
pub open spec fn safe_spec(s: Seq<char>) -> Seq<char> {
    html_text(sanitize_spec(s))
}

fn safe(s: &String) -> (r: String)
    ensures
        r@ == safe_spec(s@),
{
    let clean = sanitize(s.as_str());
    html_encode_text(clean.as_str())
}

pub open spec fn input_html(i: Input) -> Seq<char> {
    "<li>"@ + safe_spec(i.path@) + " <code>"@ + safe_spec(i.sha3_256@) + "</code> ("@ + decimal(
        i.size as nat,
    ) + " bytes)</li>"@
}

pub open spec fn inputs_html(xs: Seq<Input>) -> Seq<char>
    decreases xs.len(),
{
    if xs.len() == 0 {
        seq![]
    } else {
        inputs_html(xs.drop_last()) + input_html(xs.last())
    }
}

pub open spec fn finding_html(f: Finding) -> Seq<char> {
    "<div class=\"finding\"><strong>["@ + safe_spec(f.id@) + "]</strong> "@ + safe_spec(f.summary@)
        + "<p><span class=\"badge\">"@ + safe_spec(f.category@)
        + "</span> <span class=\"badge\">"@ + safe_spec(f.confidence@) + "</span></p><pre>"@
        + safe_spec(f.evidence_quote@) + "</pre></div>"@
}

pub open spec fn findings_html(fs: Seq<Finding>) -> Seq<char>
    decreases fs.len(),
{
    if fs.len() == 0 {
        seq![]
    } else {
        findings_html(fs.drop_last()) + finding_html(fs.last())
    }
}

/// The HTML page for a report.
pub open spec fn render_spec(r: Report) -> Seq<char> {
    HTML_HEAD@ + "<h1>seck report — "@ + safe_spec(r.invocation.model@) + "</h1>\n"@
        + "<p>sandbox: <code>"@ + safe_spec(r.invocation.sandbox_mode@)
        + "</code> · backend: <code>"@ + safe_spec(r.invocation.backend@) + "</code> · "@ + (
    if r.invocation.deterministic {
        "deterministic"@
    } else {
        "non-deterministic"@
    }) + "</p>\n"@ + "<h2>Inputs ("@ + decimal(r.inputs@.len()) + ")</h2>\n<ul>"@ + inputs_html(
        r.inputs@,
    ) + "</ul>\n"@ + "<h2>Findings</h2>\n"@ + findings_html(r.findings@) + "</body></html>\n"@
}

/// Two reports that differ only in whether the run was deterministic render
/// to pages that differ only in the sandbox line's last word: the
/// non-deterministic page is the deterministic one with `non-` inserted
/// before `deterministic`.
pub proof fn lemma_determinism_word(det: Report, nondet: Report)
    requires
        det.invocation.deterministic,
        !nondet.invocation.deterministic,
        det.invocation.model@ == nondet.invocation.model@,
        det.invocation.sandbox_mode@ == nondet.invocation.sandbox_mode@,
        det.invocation.backend@ == nondet.invocation.backend@,
        det.inputs@ == nondet.inputs@,
        det.findings@ == nondet.findings@,
    ensures
        exists|i: int|
            0 <= i <= render_spec(det).len() && render_spec(nondet) == render_spec(det).take(i)
                + "non-"@ + render_spec(det).skip(i),
        render_spec(nondet).len() == render_spec(det).len() + 4,
{
    reveal_strlit("deterministic");
    reveal_strlit("non-deterministic");
    reveal_strlit("non-");
    let r = det;
    let pre = HTML_HEAD@ + "<h1>seck report — "@ + safe_spec(r.invocation.model@) + "</h1>\n"@
        + "<p>sandbox: <code>"@ + safe_spec(r.invocation.sandbox_mode@)
        + "</code> · backend: <code>"@ + safe_spec(r.invocation.backend@) + "</code> · "@;
    let post = "</p>\n"@ + "<h2>Inputs ("@ + decimal(r.inputs@.len()) + ")</h2>\n<ul>"@
        + inputs_html(r.inputs@) + "</ul>\n"@ + "<h2>Findings</h2>\n"@ + findings_html(r.findings@)
        + "</body></html>\n"@;
    assert(render_spec(det) =~= pre + "deterministic"@ + post);
    assert(render_spec(nondet) =~= pre + "non-deterministic"@ + post);
    let i = pre.len() as int;
    assert(render_spec(det).take(i) =~= pre);
    assert(render_spec(det).skip(i) =~= "deterministic"@ + post);
    assert(render_spec(nondet) =~= render_spec(det).take(i) + "non-"@ + render_spec(det).skip(i));
}

/// Every finding of a report gets its card on the page, in order: adding a
/// finding to a report adds its card after the others, just before the
/// end of the document, and the card opens with the finding's escaped id.
pub proof fn lemma_finding_card_appended(r: Report, more: Report, f: Finding)
    requires
        more.invocation.model@ == r.invocation.model@,
        more.invocation.sandbox_mode@ == r.invocation.sandbox_mode@,
        more.invocation.backend@ == r.invocation.backend@,
        more.invocation.deterministic == r.invocation.deterministic,
        more.inputs@ == r.inputs@,
        more.findings@ == r.findings@.push(f),
    ensures
        exists|x: Seq<char>|
            render_spec(r) == x + "</body></html>\n"@ && render_spec(more) == x + finding_html(f)
                + "</body></html>\n"@,
        finding_html(f).take(
            ("<div class=\"finding\"><strong>["@ + safe_spec(f.id@) + "]</strong> "@).len() as int,
        ) == "<div class=\"finding\"><strong>["@ + safe_spec(f.id@) + "]</strong> "@,
{
    let fs = more.findings@;
    assert(fs.drop_last() =~= r.findings@);
    assert(fs.last() == f);
    let x = HTML_HEAD@ + "<h1>seck report — "@ + safe_spec(r.invocation.model@) + "</h1>\n"@
        + "<p>sandbox: <code>"@ + safe_spec(r.invocation.sandbox_mode@)
        + "</code> · backend: <code>"@ + safe_spec(r.invocation.backend@) + "</code> · "@ + (
    if r.invocation.deterministic {
        "deterministic"@
    } else {
        "non-deterministic"@
    }) + "</p>\n"@ + "<h2>Inputs ("@ + decimal(r.inputs@.len()) + ")</h2>\n<ul>"@ + inputs_html(
        r.inputs@,
    ) + "</ul>\n"@ + "<h2>Findings</h2>\n"@ + findings_html(r.findings@);
    assert(render_spec(r) =~= x + "</body></html>\n"@);
    assert(render_spec(more) =~= x + finding_html(f) + "</body></html>\n"@);
    let head = "<div class=\"finding\"><strong>["@ + safe_spec(f.id@) + "]</strong> "@;
    let tail = safe_spec(f.summary@) + "<p><span class=\"badge\">"@ + safe_spec(f.category@)
        + "</span> <span class=\"badge\">"@ + safe_spec(f.confidence@) + "</span></p><pre>"@
        + safe_spec(f.evidence_quote@) + "</pre></div>"@;
    assert(finding_html(f) =~= head + tail);
    assert(finding_html(f).take(head.len() as int) =~= head);
}

/// Report text reaches the page without `<` or `>`: no field can open or
/// close a tag, so no script, handler or link can be injected through it.
pub proof fn lemma_safe_has_no_angle_brackets(s: Seq<char>)
    ensures
        forall|i: int|
            0 <= i < safe_spec(s).len() ==> #[trigger] safe_spec(s)[i] != '<' && safe_spec(s)[i]
                != '>',
{
    lemma_html_text_no_angle(sanitize_spec(s));
}

proof fn lemma_html_text_no_angle(s: Seq<char>)
    ensures
        forall|i: int|
            0 <= i < html_text(s).len() ==> #[trigger] html_text(s)[i] != '<' && html_text(s)[i]
                != '>',
    decreases s.len(),
{
    reveal_strlit("&amp;");
    reveal_strlit("&lt;");
    reveal_strlit("&gt;");
    if s.len() > 0 {
        lemma_html_text_no_angle(s.drop_first());
        let head = html_text_char(s[0]);
        let rest = html_text(s.drop_first());
        assert(html_text(s) == head + rest);
        assert forall|i: int| 0 <= i < html_text(s).len() implies #[trigger] html_text(s)[i]
            != '<' && html_text(s)[i] != '>' by {
            if i < head.len() {
                assert(html_text(s)[i] == head[i]);
            } else {
                assert(html_text(s)[i] == rest[i - head.len()]);
            }
        }
    }
}

/// The page for a report.
pub fn render(report: &Report) -> (s: String)
    ensures
        s@ == render_spec(*report),
{
    let mut s = String::new();
    push_str(&mut s, HTML_HEAD);
    push_str(&mut s, "<h1>seck report — ");
    let t = safe(&report.invocation.model);
    push_str(&mut s, t.as_str());
    push_str(&mut s, "</h1>\n");
    push_str(&mut s, "<p>sandbox: <code>");
    let t = safe(&report.invocation.sandbox_mode);
    push_str(&mut s, t.as_str());
    push_str(&mut s, "</code> · backend: <code>");
    let t = safe(&report.invocation.backend);
    push_str(&mut s, t.as_str());
    push_str(&mut s, "</code> · ");
    if report.invocation.deterministic {
        push_str(&mut s, "deterministic");
    } else {
        push_str(&mut s, "non-deterministic");
    }
    push_str(&mut s, "</p>\n");
    push_str(&mut s, "<h2>Inputs (");
    let n = decimal_string(report.inputs.len() as u64);
    push_str(&mut s, n.as_str());
    push_str(&mut s, ")</h2>\n<ul>");
    let ghost head = s@;
    let ghost xs = report.inputs@;
    let mut i: usize = 0;
    assert(xs.take(0) =~= Seq::<Input>::empty());
    assert(head + inputs_html(xs.take(0)) =~= head);
    while i < report.inputs.len()
        invariant
            i <= xs.len(),
            xs == report.inputs@,
            s@ == head + inputs_html(xs.take(i as int)),
        decreases xs.len() - i,
    {
        let x = &report.inputs[i];
        assert(xs.take(i + 1).drop_last() =~= xs.take(i as int));
        assert(xs.take(i + 1).last() == *x);
        let ghost before = s@;
        push_str(&mut s, "<li>");
        let t = safe(&x.path);
        push_str(&mut s, t.as_str());
        push_str(&mut s, " <code>");
        let t = safe(&x.sha3_256);
        push_str(&mut s, t.as_str());
        push_str(&mut s, "</code> (");
        let t = decimal_string(x.size);
        push_str(&mut s, t.as_str());
        push_str(&mut s, " bytes)</li>");
        assert(s@ =~= before + input_html(*x));
        assert(s@ =~= head + inputs_html(xs.take(i + 1)));
        i = i + 1;
    }
    assert(xs.take(i as int) =~= xs);
    push_str(&mut s, "</ul>\n");
    push_str(&mut s, "<h2>Findings</h2>\n");
    let ghost mid = s@;
    let ghost fs = report.findings@;
    let mut j: usize = 0;
    assert(fs.take(0) =~= Seq::<Finding>::empty());
    assert(mid + findings_html(fs.take(0)) =~= mid);
    while j < report.findings.len()
        invariant
            j <= fs.len(),
            fs == report.findings@,
            s@ == mid + findings_html(fs.take(j as int)),
        decreases fs.len() - j,
    {
        let f = &report.findings[j];
        assert(fs.take(j + 1).drop_last() =~= fs.take(j as int));
        assert(fs.take(j + 1).last() == *f);
        let ghost before = s@;
        push_str(&mut s, "<div class=\"finding\"><strong>[");
        let t = safe(&f.id);
        push_str(&mut s, t.as_str());
        push_str(&mut s, "]</strong> ");
        let t = safe(&f.summary);
        push_str(&mut s, t.as_str());
        push_str(&mut s, "<p><span class=\"badge\">");
        let t = safe(&f.category);
        push_str(&mut s, t.as_str());
        push_str(&mut s, "</span> <span class=\"badge\">");
        let t = safe(&f.confidence);
        push_str(&mut s, t.as_str());
        push_str(&mut s, "</span></p><pre>");
        let t = safe(&f.evidence_quote);
        push_str(&mut s, t.as_str());
        push_str(&mut s, "</pre></div>");
        assert(s@ =~= before + finding_html(*f));
        assert(s@ =~= mid + findings_html(fs.take(j + 1)));
        j = j + 1;
    }
    assert(fs.take(j as int) =~= fs);
    push_str(&mut s, "</body></html>\n");
    assert(s@ =~= render_spec(*report));
    s
}

} // verus!
