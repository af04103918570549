//! Subagent results: the per-file state of a workdir path, the rendered
//! diff of one path between parent and child, and the text reports handed
//! back to the parent.

use crate::id::AgentId;
use crate::gitops::{path_has_prefix, path_starts_with};
use crate::text::{concat2, concat3, joined};
use vstd::prelude::*;

verus! {

/// What the parent sees of a subagent's work.
#[derive(Debug)]
pub struct SubagentResult {
    pub output: String,
    pub diff: String,
}

/// The consolidated report over several replicas.
#[derive(Debug)]
pub struct ReplicaResult {
    pub report: String,
}

/// The state of one path in a workdir.
#[derive(Debug)]
pub enum FileState {
    Missing,
    Text(String),
    Binary,
}

/// Mathematical view of a [`FileState`].
pub enum FileStateView {
    Missing,
    Text(Seq<char>),
    Binary,
}

impl View for FileState {
    type V = FileStateView;

    open spec fn view(&self) -> FileStateView {
        match self {
            FileState::Missing => FileStateView::Missing,
            FileState::Text(s) => FileStateView::Text(s@),
            FileState::Binary => FileStateView::Binary,
        }
    }
}

/// What a filesystem probe of a path found.
#[derive(Debug)]
pub enum Probe {
    /// nothing at the path
    NotFound,
    /// a character device (an overlay whiteout)
    CharDevice,
    /// something other than a regular file (directory, symlink, ...)
    NotFile,
    /// a regular file with these bytes
    File(Vec<u8>),
}

/// `String::from_utf8`: the text iff the bytes are valid UTF-8 (as the std
/// documentation states), decoded as UTF-8.
#[verifier::external_body]
fn utf8_text(bytes: Vec<u8>) -> (r: Option<String>)
    ensures
        r is Some <==> vstd::utf8::valid_utf8(bytes@),
        r matches Some(s) ==> s@ == vstd::utf8::decode_utf8(bytes@),
{
    String::from_utf8(bytes).ok()
}

/// The state a probe stands for: a whiteout counts as missing, a non-file
/// as binary, a file as text iff it is valid UTF-8.
pub open spec fn file_state_spec(p: Probe) -> FileStateView {
    match p {
        Probe::NotFound => FileStateView::Missing,
        Probe::CharDevice => FileStateView::Missing,
        Probe::NotFile => FileStateView::Binary,
        Probe::File(bytes) => if vstd::utf8::valid_utf8(bytes@) {
            FileStateView::Text(vstd::utf8::decode_utf8(bytes@))
        } else {
            FileStateView::Binary
        },
    }
}

/// Classifies a probed path.
pub fn file_state(probe: Probe) -> (s: FileState)
    ensures
        s@ == file_state_spec(probe),
{
    match probe {
        Probe::NotFound => FileState::Missing,
        Probe::CharDevice => FileState::Missing,
        Probe::NotFile => FileState::Binary,
        Probe::File(bytes) => match utf8_text(bytes) {
            Some(text) => FileState::Text(text),
            None => FileState::Binary,
        },
    }
}

/// The one-line summary of a change that cannot be rendered as text.
pub open spec fn status_spec(old: FileStateView, new: FileStateView) -> Seq<char> {
    match (old, new) {
        (FileStateView::Missing, _) => "Binary or non-text file added"@,
        (_, FileStateView::Missing) => "Binary or non-text file deleted"@,
        _ => "Binary or non-text file changed"@,
    }
}

/// Summary of a non-text change.
pub fn status(old: &FileState, new: &FileState) -> (s: &'static str)
    ensures
        s@ == status_spec(old@, new@),
{
    proof {
        reveal_strlit("Binary or non-text file added");
        reveal_strlit("Binary or non-text file deleted");
        reveal_strlit("Binary or non-text file changed");
    }
    match (old, new) {
        (FileState::Missing, _) => "Binary or non-text file added",
        (_, FileState::Missing) => "Binary or non-text file deleted",
        _ => "Binary or non-text file changed",
    }
}

/// The unified diff (three lines of context) of two texts under the given
/// file headers, as `similar` renders it: empty when nothing changed.
pub uninterp spec fn unified_diff(old: Seq<char>, new: Seq<char>, a: Seq<char>, b: Seq<char>) -> Seq<char>;

/// `similar::TextDiff::from_lines(old, new).unified_diff().header(a, b)`
/// rendered to a string. The rendering is a function of the four texts
/// (no deadline is set), named `unified_diff`.
#[verifier::external_body]
fn unified_diff_text(old: &str, new: &str, a: &str, b: &str) -> (r: String)
    ensures
        r@ == unified_diff(old@, new@, a@, b@),
{
    similar::TextDiff::from_lines(old, new).unified_diff().header(a, b).to_string()
}

/// The rendered diff of a path between two states.
pub open spec fn render_diff_spec(rel: Seq<char>, old: FileStateView, new: FileStateView) -> Seq<char> {
    let a = "a/"@ + rel;
    let b = "b/"@ + rel;
    match (old, new) {
        (FileStateView::Text(o), FileStateView::Text(n)) => unified_diff(o, n, a, b),
        (FileStateView::Missing, FileStateView::Text(n)) => unified_diff(Seq::empty(), n, "/dev/null"@, b),
        (FileStateView::Text(o), FileStateView::Missing) => unified_diff(o, Seq::empty(), a, "/dev/null"@),
        _ => "diff --git "@ + a + " "@ + b + "\n"@ + status_spec(old, new) + "\n"@,
    }
}

/// Renders the change of `rel` from `old` to `new`: a unified diff where
/// both sides are text (a missing side is empty and named `/dev/null`),
/// otherwise a `diff --git` line and a one-line summary.
pub fn render_diff(rel: &str, old: FileState, new: FileState) -> (s: String)
    ensures
        s@ == render_diff_spec(rel@, old@, new@),
{
    let a = concat2("a/", rel);
    let b = concat2("b/", rel);
    let summary = status(&old, &new);
    match (old, new) {
        (FileState::Text(o), FileState::Text(n)) => {
            let r = unified_diff_text(o.as_str(), n.as_str(), a.as_str(), b.as_str());
            r
        },
        (FileState::Missing, FileState::Text(n)) => {
            proof {
                reveal_strlit("");
                assert(""@ =~= Seq::<char>::empty());
            }
            let r = unified_diff_text("", n.as_str(), "/dev/null", b.as_str());
            r
        },
        (FileState::Text(o), FileState::Missing) => {
            proof {
                reveal_strlit("");
                assert(""@ =~= Seq::<char>::empty());
            }
            let r = unified_diff_text(o.as_str(), "", a.as_str(), "/dev/null");
            r
        },
        _ => {
            let mut s = concat3("diff --git ", a.as_str(), " ");
            s.append(b.as_str());
            s.append("\n");
            s.append(summary);
            s.append("\n");
            proof {
                reveal_strlit("diff --git ");
                reveal_strlit(" ");
                reveal_strlit("\n");
            }
            assert(s@ =~= "diff --git "@ + a@ + " "@ + b@ + "\n"@ + summary@ + "\n"@);
            s
        },
    }
}

/// Whether two file states are the same.
pub fn same_state(a: &FileState, b: &FileState) -> (r: bool)
    ensures
        r == (a@ == b@),
{
    match (a, b) {
        (FileState::Missing, FileState::Missing) => true,
        (FileState::Binary, FileState::Binary) => true,
        (FileState::Text(x), FileState::Text(y)) => *x == *y,
        _ => false,
    }
}

/// The diff of one path between the parent's and the child's workdir;
/// `None` when the path is in the same state on both sides.
pub fn diff_path(rel: &str, old: FileState, new: FileState) -> (r: Option<String>)
    ensures
        old@ == new@ ==> r is None,
        old@ != new@ ==> (r matches Some(s) && s@ == render_diff_spec(rel@, old@, new@)),
{
    if same_state(&old, &new) {
        return None;
    }
    Some(render_diff(rel, old, new))
}

/// Joins `parts` with `sep`.
pub fn join(parts: &Vec<String>, sep: &str) -> (s: String)
    ensures
        s@ == joined(parts@.map_values(|p: String| p@), sep@),
{
    let ghost pv = parts@.map_values(|p: String| p@);
    let mut s = String::new();
    let mut i: usize = 0;
    while i < parts.len()
        invariant
            i <= parts@.len(),
            pv == parts@.map_values(|p: String| p@),
            s@ == joined(pv.take(i as int), sep@),
        decreases parts@.len() - i,
    {
        proof {
            assert(pv.take(i + 1).drop_last() =~= pv.take(i as int));
            assert(pv.take(i + 1).last() == parts@[i as int]@);
        }
        if i > 0 {
            s.append(sep);
        } else {
            proof {
                assert(s@ =~= Seq::<char>::empty());
            }
        }
        s.append(parts[i].as_str());
        proof {
            if i == 0 {
                assert(pv.take(1)[0] == parts@[0]@);
                assert(s@ =~= pv.take(1)[0]);
            }
        }
        i = i + 1;
    }
    proof {
        assert(pv.take(i as int) =~= pv);
    }
    s
}

/// Whether `rel` names the same path as `other`, component by component,
/// as `std::path::Path`'s `==` decides it (a function of the two texts).
pub uninterp spec fn path_equals(rel: Seq<char>, other: Seq<char>) -> bool;

/// `std::path::Path::new(rel) == std::path::Path::new(other)`.
#[verifier::external_body]
fn same_path(rel: &str, other: &str) -> (b: bool)
    ensures
        b == path_equals(rel@, other@),
{
    std::path::Path::new(rel) == std::path::Path::new(other)
}

/// A path inside the repository's own `.git` directory, which a workdir
/// diff never shows.
pub open spec fn git_internal_spec(rel: Seq<char>) -> bool {
    path_equals(rel, ".git"@) || path_starts_with(rel, ".git/"@)
}

/// Whether `rel` is `.git` or lies under it.
pub fn is_git_internal(rel: &str) -> (b: bool)
    ensures
        b == git_internal_spec(rel@),
{
    same_path(rel, ".git") || path_has_prefix(rel, ".git/")
}

/// The diffs of the changed, shown paths, in path order: a path is left
/// out when it is inside `.git`, gitignored, or unchanged.
pub open spec fn shown_diffs(paths: Seq<Seq<char>>, ignored: Seq<bool>, states: Seq<(FileStateView, FileStateView)>) -> Seq<Seq<char>>
    decreases paths.len(),
{
    if paths.len() == 0 || ignored.len() < paths.len() || states.len() < paths.len() {
        Seq::empty()
    } else {
        let n = paths.len() - 1;
        let rest = shown_diffs(paths.drop_last(), ignored.take(n), states.take(n));
        if git_internal_spec(paths[n]) || ignored[n] || states[n].0 == states[n].1 {
            rest
        } else {
            rest.push(render_diff_spec(paths[n], states[n].0, states[n].1))
        }
    }
}

/// Whether the `n`-th path's change is shown: it is outside `.git`, not
/// ignored, and its two states differ.
pub open spec fn shows_path(paths: Seq<Seq<char>>, ignored: Seq<bool>, states: Seq<(FileStateView, FileStateView)>, n: int) -> bool {
    !git_internal_spec(paths[n]) && !ignored[n] && states[n].0 != states[n].1
}

/// The shown diffs are exactly the renderings of the shown paths: every
/// shown path's rendering is among them (a deleted or added file
/// included), each of them renders some shown path, and there are none
/// only when no path is shown.
pub proof fn lemma_shown_diffs_cover(paths: Seq<Seq<char>>, ignored: Seq<bool>, states: Seq<(FileStateView, FileStateView)>)
    requires
        ignored.len() == paths.len(),
        states.len() == paths.len(),
    ensures
        forall|n: int| 0 <= n < paths.len() && #[trigger] shows_path(paths, ignored, states, n)
            ==> shown_diffs(paths, ignored, states).contains(render_diff_spec(paths[n], states[n].0, states[n].1)),
        forall|k: int| 0 <= k < shown_diffs(paths, ignored, states).len() ==> exists|n: int| 0 <= n < paths.len()
            && shows_path(paths, ignored, states, n)
            && #[trigger] shown_diffs(paths, ignored, states)[k] == render_diff_spec(paths[n], states[n].0, states[n].1),
        shown_diffs(paths, ignored, states).len() == 0
            <==> forall|n: int| 0 <= n < paths.len() ==> !#[trigger] shows_path(paths, ignored, states, n),
    decreases paths.len(),
{
    if paths.len() > 0 {
        let n = paths.len() - 1;
        let p2 = paths.drop_last();
        let i2 = ignored.take(n);
        let s2 = states.take(n);
        lemma_shown_diffs_cover(p2, i2, s2);
        let rest = shown_diffs(p2, i2, s2);
        let ds = shown_diffs(paths, ignored, states);
        assert forall|m: int| 0 <= m < n implies #[trigger] shows_path(p2, i2, s2, m) == shows_path(paths, ignored, states, m)
            && p2[m] == paths[m] && s2[m] == states[m] by {}
        let r = render_diff_spec(paths[n], states[n].0, states[n].1);
        if shows_path(paths, ignored, states, n) {
            assert(ds == rest.push(r));
            assert(ds[rest.len() as int] == r);
        } else {
            assert(ds == rest);
        }
        assert forall|m: int| 0 <= m < paths.len() && #[trigger] shows_path(paths, ignored, states, m)
            implies ds.contains(render_diff_spec(paths[m], states[m].0, states[m].1)) by {
            if m < n {
                assert(shows_path(p2, i2, s2, m));
                let k = choose|k: int| 0 <= k < rest.len() && rest[k] == render_diff_spec(p2[m], s2[m].0, s2[m].1);
                assert(ds[k] == rest[k]);
            }
        }
        assert forall|k: int| 0 <= k < ds.len() implies exists|m: int| 0 <= m < paths.len()
            && shows_path(paths, ignored, states, m)
            && #[trigger] ds[k] == render_diff_spec(paths[m], states[m].0, states[m].1) by {
            if k < rest.len() {
                assert(ds[k] == rest[k]);
                let m = choose|m: int| 0 <= m < p2.len() && shows_path(p2, i2, s2, m)
                    && #[trigger] rest[k] == render_diff_spec(p2[m], s2[m].0, s2[m].1);
                assert(shows_path(paths, ignored, states, m));
            } else {
                assert(shows_path(paths, ignored, states, n));
            }
        }
        if ds.len() == 0 {
            assert forall|m: int| 0 <= m < paths.len() implies !#[trigger] shows_path(paths, ignored, states, m) by {
                if m < n {
                    assert(!shows_path(p2, i2, s2, m));
                }
            }
        }
        if forall|m: int| 0 <= m < paths.len() ==> !#[trigger] shows_path(paths, ignored, states, m) {
            assert forall|m: int| 0 <= m < p2.len() implies !#[trigger] shows_path(p2, i2, s2, m) by {
                assert(!shows_path(paths, ignored, states, m));
            }
        }
    }
}

/// The diff between the parent's and a child's workdir over the paths
/// either of them changed (`paths`, in order): the diffs of the paths that
/// are neither inside `.git`, nor matched by the child's ignore files
/// (`ignored[i]`), nor in the same state on both sides (`states[i]`, the
/// parent's state then the child's), joined by newlines.
pub fn workdir_diff(paths: &Vec<String>, ignored: &Vec<bool>, states: Vec<(FileState, FileState)>) -> (d: String)
    requires
        ignored@.len() == paths@.len(),
        states@.len() == paths@.len(),
    ensures
        d@ == joined(shown_diffs(
            paths@.map_values(|p: String| p@),
            ignored@,
            states@.map_values(|st: (FileState, FileState)| (st.0@, st.1@)),
        ), "\n"@),
        ({
            let pv = paths@.map_values(|p: String| p@);
            let sv = states@.map_values(|st: (FileState, FileState)| (st.0@, st.1@));
            exists|ds: Seq<Seq<char>>| {
                &&& d@ == joined(ds, "\n"@)
                &&& forall|n: int| 0 <= n < pv.len() && #[trigger] shows_path(pv, ignored@, sv, n)
                    ==> ds.contains(render_diff_spec(pv[n], sv[n].0, sv[n].1))
                &&& forall|k: int| 0 <= k < ds.len() ==> exists|n: int| 0 <= n < pv.len()
                    && shows_path(pv, ignored@, sv, n)
                    && #[trigger] ds[k] == render_diff_spec(pv[n], sv[n].0, sv[n].1)
                &&& ds.len() == 0 <==> forall|n: int| 0 <= n < pv.len() ==> !#[trigger] shows_path(pv, ignored@, sv, n)
            }
        }),
{
    let ghost pv = paths@.map_values(|p: String| p@);
    let ghost sv = states@.map_values(|st: (FileState, FileState)| (st.0@, st.1@));
    let mut diffs: Vec<String> = Vec::new();
    let mut rest = states;
    let mut i: usize = 0;
    while i < paths.len()
        invariant
            i <= paths@.len(),
            ignored@.len() == paths@.len(),
            rest@.len() + i == paths@.len(),
            pv == paths@.map_values(|p: String| p@),
            forall|j: int| 0 <= j < rest@.len() ==> (#[trigger] rest@[j].0@, rest@[j].1@) == sv[i + j],
            sv.len() == paths@.len(),
            diffs@.map_values(|p: String| p@) == shown_diffs(pv.take(i as int), ignored@.take(i as int), sv.take(i as int)),
        decreases paths@.len() - i,
    {
        let (old, new) = rest.remove(0);
        proof {
            assert(pv.take(i + 1).drop_last() =~= pv.take(i as int));
            assert(ignored@.take(i + 1).take(i as int) =~= ignored@.take(i as int));
            assert(sv.take(i + 1).take(i as int) =~= sv.take(i as int));
            assert(pv.take(i + 1).last() == paths@[i as int]@);
            assert(sv.take(i + 1)[i as int] == (old@, new@));
        }
        if !is_git_internal(paths[i].as_str()) && !ignored[i] {
            let ghost d0 = diffs@;
            match diff_path(paths[i].as_str(), old, new) {
                Some(d) => {
                    diffs.push(d);
                    proof {
                        assert(diffs@.map_values(|p: String| p@) =~= d0.map_values(|p: String| p@).push(d@));
                    }
                },
                None => {},
            }
        }
        proof {
            assert forall|j: int| 0 <= j < rest@.len() implies (#[trigger] rest@[j].0@, rest@[j].1@) == sv[(i + 1) + j] by {}
        }
        i = i + 1;
    }
    proof {
        assert(pv.take(i as int) =~= pv);
        assert(ignored@.take(i as int) =~= ignored@);
        assert(sv.take(i as int) =~= sv);
        lemma_shown_diffs_cover(pv, ignored@, sv);
    }
    join(&diffs, "\n")
}

/// One implementation entry of a report.
pub open spec fn implementation_spec(id: Seq<char>, output: Seq<char>, diff: Seq<char>) -> Seq<char> {
    "<implementation id="@ + id + ">\n"@ + output + "\n```diff\n"@ + diff + "```\n</implementation>"@
}

/// A failed implementation entry of a report.
pub open spec fn failed_implementation_spec(id: Seq<char>, error: Seq<char>) -> Seq<char> {
    "<implementation id="@ + id + ">\nerror: "@ + error + "\n</implementation>"@
}

/// Renders an implementation entry: the subagent's last output and its
/// diff against the parent.
pub fn implementation(id: &AgentId, output: &str, diff: &str) -> (s: String)
    ensures
        s@ == implementation_spec(id@, output@, diff@),
{
    let mut s = concat3("<implementation id=", id.as_str(), ">\n");
    s.append(output);
    s.append("\n```diff\n");
    s.append(diff);
    s.append("```\n</implementation>");
    s
}

/// Renders a failed implementation entry.
pub fn failed_implementation(id: &AgentId, error: &str) -> (s: String)
    ensures
        s@ == failed_implementation_spec(id@, error@),
{
    let mut s = concat3("<implementation id=", id.as_str(), ">\nerror: ");
    s.append(error);
    s.append("\n</implementation>");
    s
}

/// The prompt that opens a replica report.
pub const REPORT_HEADER_PROMPT: &'static str = "Here are multiple implementations for the requested changes.
Please review them and provide a single, consolidated implementation that combines the best aspects
of each. Ensure that the final implementation is efficient, well-structured, and adheres to best
coding practices. If there are any conflicting approaches, choose the one that is most effective
and explain your reasoning briefly.\n\n";

/// The outcome of waiting on one replica: its result or the error text.
#[derive(Debug)]
pub enum ReplicaOutcome {
    Done(AgentId, SubagentResult),
    Failed(AgentId, String),
}

/// The entry text of one replica outcome.
pub open spec fn replica_entry(o: ReplicaOutcome) -> Seq<char> {
    match o {
        ReplicaOutcome::Done(id, r) => implementation_spec(id@, r.output@, r.diff@),
        ReplicaOutcome::Failed(id, e) => failed_implementation_spec(id@, e@),
    }
}

/// The consolidated report: the header prompt, then every replica's entry
/// (successes and failures alike), separated by blank lines.
pub fn run_replicas_report(outcomes: &Vec<ReplicaOutcome>) -> (r: ReplicaResult)
    ensures
        r.report@ == REPORT_HEADER_PROMPT@ + joined(outcomes@.map_values(|o: ReplicaOutcome| replica_entry(o)), "\n\n"@),
{
    let mut entries: Vec<String> = Vec::new();
    let mut i: usize = 0;
    while i < outcomes.len()
        invariant
            i <= outcomes@.len(),
            entries@.map_values(|p: String| p@) == outcomes@.map_values(|o: ReplicaOutcome| replica_entry(o)).take(i as int),
        decreases outcomes@.len() - i,
    {
        let e = match &outcomes[i] {
            ReplicaOutcome::Done(id, r) => implementation(id, r.output.as_str(), r.diff.as_str()),
            ReplicaOutcome::Failed(id, err) => failed_implementation(id, err.as_str()),
        };
        let ghost e0 = entries@;
        entries.push(e);
        proof {
            assert(entries@.map_values(|p: String| p@) =~= e0.map_values(|p: String| p@).push(e@));
            assert(outcomes@.map_values(|o: ReplicaOutcome| replica_entry(o)).take(i + 1)
                =~= outcomes@.map_values(|o: ReplicaOutcome| replica_entry(o)).take(i as int).push(replica_entry(outcomes@[i as int])));
        }
        i = i + 1;
    }
    proof {
        assert(outcomes@.map_values(|o: ReplicaOutcome| replica_entry(o)).take(i as int)
            =~= outcomes@.map_values(|o: ReplicaOutcome| replica_entry(o)));
    }
    let body = join(&entries, "\n\n");
    let report = concat2(REPORT_HEADER_PROMPT, body.as_str());
    ReplicaResult { report }
}

} // verus!
