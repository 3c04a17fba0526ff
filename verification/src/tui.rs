//! The report viewer's state and the text of its panes. Keys: q or Esc
//! (quit), j/k or the arrows (move), Enter (expand a finding), g/G (top,
//! bottom). Every line passes through `sanitize` before it is shown;
//! drawing stands outside this crate.
use crate::report::sanitize::{sanitize, sanitize_spec};
use crate::report::schema::{Finding, Input, Report};
use crate::text::{push_str, str_eq, strings_view};
use vstd::prelude::*;

verus! {

pub struct AppState {
    pub report: Option<Report>,
    pub selected: usize,
    /// The ids of the expanded findings.
    pub expanded: Vec<String>,
}

impl Default for AppState {
    fn default() -> (s: Self)
        ensures
            s.report is None,
            s.selected == 0,
            s.expanded@.len() == 0,
    {
        AppState { report: None, selected: 0, expanded: Vec::new() }
    }
}

/// A key press, as far as the viewer tells keys apart.
#[derive(Clone, Copy, Debug, PartialEq, Eq, Structural)]
pub enum Key {
    /// `q` or Esc.
    Quit,
    /// `j` or Down.
    Down,
    /// `k` or Up.
    Up,
    /// `g`.
    Top,
    /// `G`.
    Bottom,
    /// Enter.
    Enter,
    Other,
}

/// `ids` with `id` added if it was absent, removed if it was present.
pub open spec fn toggled(ids: Set<Seq<char>>, id: Seq<char>) -> Set<Seq<char>> {
    if ids.contains(id) {
        ids.remove(id)
    } else {
        ids.insert(id)
    }
}

/// Expanding a finding and folding it again leaves the expanded set as it
/// was: Enter twice on the same finding changes nothing.
pub proof fn lemma_toggle_twice(ids: Set<Seq<char>>, id: Seq<char>)
    ensures
        toggled(toggled(ids, id), id) == ids,
{
    if ids.contains(id) {
        assert(ids.remove(id).insert(id) =~= ids);
    } else {
        assert(ids.insert(id).remove(id) =~= ids);
    }
}

impl AppState {
    /// The number of findings shown.
    pub open spec fn count(self) -> int {
        match self.report {
            Some(r) => r.findings@.len() as int,
            None => 0,
        }
    }

    /// The ids of the expanded findings, as a set.
    pub open spec fn expanded_ids(self) -> Set<Seq<char>> {
        strings_view(self.expanded@).to_set()
    }

    /// The selection stands on a finding, or at the top when there is none.
    pub open spec fn selection_ok(self) -> bool {
        self.report is Some ==> (self.selected < self.count() || self.selected == 0)
    }

    pub fn new(report: Report) -> (s: Self)
        ensures
            s.report == Some(report),
            s.selected == 0,
            s.expanded@.len() == 0,
    {
        AppState { report: Some(report), selected: 0, expanded: Vec::new() }
    }

    /// Whether `id` is expanded.
    pub fn is_expanded(&self, id: &str) -> (b: bool)
        ensures
            b == self.expanded_ids().contains(id@),
    {
        let mut i: usize = 0;
        while i < self.expanded.len()
            invariant
                i <= self.expanded@.len(),
                forall|k: int| 0 <= k < i ==> self.expanded@[k]@ != id@,
            decreases self.expanded@.len() - i,
        {
            if str_eq(self.expanded[i].as_str(), id) {
                assert(strings_view(self.expanded@)[i as int] == id@);
                return true;
            }
            i = i + 1;
        }
        assert(!strings_view(self.expanded@).contains(id@));
        false
    }

    /// Expands `id` if it is folded, folds it if it is expanded.
    fn toggle(&mut self, id: &str)
        ensures
            final(self).report == old(self).report,
            final(self).selected == old(self).selected,
            final(self).expanded_ids() == toggled(old(self).expanded_ids(), id@),
    {
        let ghost before = strings_view(self.expanded@);
        if self.is_expanded(id) {
            let mut kept: Vec<String> = Vec::new();
            let mut i: usize = 0;
            assert(before.take(0).to_set() =~= Set::<Seq<char>>::empty());
            assert(strings_view(kept@).to_set() =~= Set::<Seq<char>>::empty());
            while i < self.expanded.len()
                invariant
                    i <= self.expanded@.len(),
                    before == strings_view(self.expanded@),
                    strings_view(kept@).to_set() == before.take(i as int).to_set().remove(id@),
                decreases self.expanded@.len() - i,
            {
                proof {
                    assert(before.take(i + 1) =~= before.take(i as int).push(before[i as int]));
                    before.take(i as int).lemma_push_to_set_commute(before[i as int]);
                }
                if !str_eq(self.expanded[i].as_str(), id) {
                    let ghost kb = strings_view(kept@);
                    kept.push(self.expanded[i].clone());
                    proof {
                        assert(strings_view(kept@) =~= kb.push(before[i as int]));
                        kb.lemma_push_to_set_commute(before[i as int]);
                        assert(strings_view(kept@).to_set() =~= before.take(i + 1).to_set().remove(
                            id@,
                        ));
                    }
                } else {
                    assert(strings_view(kept@).to_set() =~= before.take(i + 1).to_set().remove(
                        id@,
                    ));
                }
                i = i + 1;
            }
            assert(before.take(i as int) =~= before);
            self.expanded = kept;
        } else {
            let ghost b = strings_view(self.expanded@);
            self.expanded.push(id.to_owned());
            proof {
                assert(strings_view(self.expanded@) =~= b.push(id@));
                b.lemma_push_to_set_commute(id@);
            }
        }
    }

    /// Applies one key press; `true` asks to quit. Down and Up move within
    /// the findings (Up stops at the top), `g` goes to the first, `G` to
    /// the last, Enter expands or folds the selected finding.
    pub fn handle_key(&mut self, key: Key) -> (quit: bool)
        ensures
            quit == (key == Key::Quit),
            final(self).report == old(self).report,
            final(self).selected == match key {
                Key::Down => if old(self).report is Some && old(self).selected + 1 < old(self).count() {
                    (old(self).selected + 1) as usize
                } else {
                    old(self).selected
                },
                Key::Up => if old(self).selected > 0 {
                    (old(self).selected - 1) as usize
                } else {
                    0
                },
                Key::Top => 0,
                Key::Bottom => if old(self).report is Some {
                    if old(self).count() > 0 {
                        (old(self).count() - 1) as usize
                    } else {
                        0
                    }
                } else {
                    old(self).selected
                },
                _ => old(self).selected,
            },
            final(self).expanded_ids() == if key == Key::Enter && old(self).selected
                < old(self).count() {
                toggled(
                    old(self).expanded_ids(),
                    old(self).report->0.findings@[old(self).selected as int].id@,
                )
            } else {
                old(self).expanded_ids()
            },
            old(self).selection_ok() ==> final(self).selection_ok(),
    {
        match key {
            Key::Quit => {
                return true;
            },
            Key::Down => {
                let n = match &self.report {
                    Some(r) => Some(r.findings.len()),
                    None => None,
                };
                if let Some(n) = n {
                    if self.selected < n && self.selected + 1 < n {
                        self.selected = self.selected + 1;
                    }
                }
            },
            Key::Up => {
                if self.selected > 0 {
                    self.selected = self.selected - 1;
                }
            },
            Key::Top => {
                self.selected = 0;
            },
            Key::Bottom => {
                let n = match &self.report {
                    Some(r) => Some(r.findings.len()),
                    None => None,
                };
                if let Some(n) = n {
                    self.selected = if n > 0 {
                        n - 1
                    } else {
                        0
                    };
                }
            },
            Key::Enter => {
                let id = match &self.report {
                    Some(r) => {
                        if self.selected < r.findings.len() {
                            Some(r.findings[self.selected].id.clone())
                        } else {
                            None
                        }
                    },
                    None => None,
                };
                if let Some(id) = id {
                    self.toggle(id.as_str());
                }
            },
            Key::Other => {},
        }
        false
    }
}

/// A line as shown: sanitized.
pub fn safe_line(s: &str) -> (l: String)
    ensures
        l@ == sanitize_spec(s@),
{
    sanitize(s)
}

/// The files pane: the path of each input.
pub fn file_lines(r: &Report) -> (v: Vec<String>)
    ensures
        strings_view(v@) == r.inputs@.map_values(|i: Input| sanitize_spec(i.path@)),
{
    let mut v: Vec<String> = Vec::new();
    let mut i: usize = 0;
    while i < r.inputs.len()
        invariant
            i <= r.inputs@.len(),
            strings_view(v@) == r.inputs@.take(i as int).map_values(
                |x: Input| sanitize_spec(x.path@),
            ),
        decreases r.inputs@.len() - i,
    {
        let ghost before = strings_view(v@);
        v.push(safe_line(r.inputs[i].path.as_str()));
        assert(strings_view(v@) =~= before.push(sanitize_spec(r.inputs@[i as int].path@)));
        assert(r.inputs@.take(i + 1).map_values(|x: Input| sanitize_spec(x.path@)) =~= r.inputs@.take(
            i as int,
        ).map_values(|x: Input| sanitize_spec(x.path@)).push(sanitize_spec(r.inputs@[i as int].path@)));
        assert(strings_view(v@) =~= r.inputs@.take(i + 1).map_values(
            |x: Input| sanitize_spec(x.path@),
        ));
        i = i + 1;
    }
    assert(r.inputs@.take(i as int) =~= r.inputs@);
    v
}

/// The text of a `bool` (`Display`).
pub open spec fn bool_text(b: bool) -> Seq<char> {
    if b {
        "true"@
    } else {
        "false"@
    }
}

/// The pipeline pane; `temperature` is the sampling temperature as text.
pub open spec fn meta_lines_spec(r: Report, temperature: Seq<char>) -> Seq<Seq<char>> {
    seq![
        sanitize_spec("sandbox: "@ + r.invocation.sandbox_mode@),
        sanitize_spec("backend: "@ + r.invocation.backend@),
        sanitize_spec("temp: "@ + temperature),
        sanitize_spec("deterministic: "@ + bool_text(r.invocation.deterministic)),
    ]
}

fn labelled(label: &str, value: &str) -> (l: String)
    ensures
        l@ == sanitize_spec(label@ + value@),
{
    let mut t = String::new();
    push_str(&mut t, label);
    push_str(&mut t, value);
    safe_line(t.as_str())
}

/// The pipeline pane.
pub fn meta_lines(r: &Report, temperature: &str) -> (v: Vec<String>)
    ensures
        strings_view(v@) == meta_lines_spec(*r, temperature@),
{
    let mut v: Vec<String> = Vec::new();
    v.push(labelled("sandbox: ", r.invocation.sandbox_mode.as_str()));
    v.push(labelled("backend: ", r.invocation.backend.as_str()));
    v.push(labelled("temp: ", temperature));
    let det = if r.invocation.deterministic {
        "true"
    } else {
        "false"
    };
    v.push(labelled("deterministic: ", det));
    assert(strings_view(v@) =~= meta_lines_spec(*r, temperature@));
    v
}

/// A finding's line, marked when it is the selected one.
pub open spec fn finding_line(f: Finding, selected: bool) -> Seq<char> {
    sanitize_spec(
        (if selected {
            "\u{25b6}"@
        } else {
            " "@
        }) + " ["@ + f.id@ + "] "@ + f.summary@,
    )
}

/// The detail line under an expanded finding.
pub open spec fn detail_line(f: Finding) -> Seq<char> {
    sanitize_spec("    "@ + f.category@ + "/"@ + f.confidence@ + " \u{2014} "@ + f.evidence_quote@)
}

/// The findings pane: one line per finding, and its detail line under it
/// when it is expanded.
pub open spec fn findings_pane(fs: Seq<Finding>, selected: int, expanded: Set<Seq<char>>) -> Seq<
    Seq<char>,
>
    decreases fs.len(),
{
    if fs.len() == 0 {
        seq![]
    } else {
        let i = fs.len() - 1;
        findings_pane(fs.drop_last(), selected, expanded) + seq![finding_line(fs[i], i == selected)]
            + if expanded.contains(fs[i].id@) {
            seq![detail_line(fs[i])]
        } else {
            seq![]
        }
    }
}

/// The findings pane for the state `s`.
pub fn finding_lines(r: &Report, s: &AppState) -> (v: Vec<String>)
    ensures
        strings_view(v@) == findings_pane(r.findings@, s.selected as int, s.expanded_ids()),
{
    let mut v: Vec<String> = Vec::new();
    let mut i: usize = 0;
    while i < r.findings.len()
        invariant
            i <= r.findings@.len(),
            strings_view(v@) == findings_pane(
                r.findings@.take(i as int),
                s.selected as int,
                s.expanded_ids(),
            ),
        decreases r.findings@.len() - i,
    {
        let f = &r.findings[i];
        assert(r.findings@.take(i + 1).drop_last() =~= r.findings@.take(i as int));
        let mut t = String::new();
        if i == s.selected {
            push_str(&mut t, "\u{25b6}");
        } else {
            push_str(&mut t, " ");
        }
        push_str(&mut t, " [");
        push_str(&mut t, f.id.as_str());
        push_str(&mut t, "] ");
        push_str(&mut t, f.summary.as_str());
        let ghost before = strings_view(v@);
        v.push(safe_line(t.as_str()));
        if s.is_expanded(f.id.as_str()) {
            let mut d = String::new();
            push_str(&mut d, "    ");
            push_str(&mut d, f.category.as_str());
            push_str(&mut d, "/");
            push_str(&mut d, f.confidence.as_str());
            push_str(&mut d, " \u{2014} ");
            push_str(&mut d, f.evidence_quote.as_str());
            v.push(safe_line(d.as_str()));
        }
        assert(strings_view(v@) =~= findings_pane(
            r.findings@.take(i + 1),
            s.selected as int,
            s.expanded_ids(),
        ));
        i = i + 1;
    }
    assert(r.findings@.take(i as int) =~= r.findings@);
    v
}

} // verus!
