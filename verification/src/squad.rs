//! Squad state-file data source: the records of Squad's `state/` directory
//! and the parsers that read them.
//!
//! - `state/window-states` (TSV: window, id, label, state, detail)
//! - `state/worktrees` (TSV: session, worktree path, project, task ids,
//!   session label, worktree branch)
//! - `state/<id>.meta` (shell `key=value` lines: model, effort, kind, mode,
//!   project, worktree)
//!
//! Reading the files is left to the caller; these functions take their text.
use vstd::prelude::*;
use std::path::PathBuf;

use crate::agent::{AgentPane, AgentStatus};
use crate::data_source::{SidebarEntry, SidebarEntryView};
use crate::text::{
    chars_eq, chars_of, clone_opt, is_first_index, join, join_from, lemma_join_split,
    lemma_join_split_at, lowercase, opt_view, split,
    split_chars,
    split_once, split_once_chars, string_from_chars, to_lowercase, trim, trim_chars, views,
};

verus! {

#[verifier::external_type_specification]
#[verifier::external_body]
pub struct ExPathBuf(PathBuf);

// ---------------------------------------------------------------------------
// Records
// ---------------------------------------------------------------------------

/// Squad task metadata from `state/<id>.meta` files.
#[derive(Debug, Clone)]
pub struct SquadMeta {
    /// LLM model name (e.g., "atlas-3-pro", "atlas-4")
    pub model: Option<String>,
    /// Effort level (e.g., "low", "medium", "high", "xhigh")
    pub effort: Option<String>,
    /// Task kind (e.g., "strike", "recon", "xo")
    pub kind: Option<String>,
    /// Task mode (e.g., "drill", "direct-pr", "local-only")
    pub mode: Option<String>,
    /// Project name or path
    pub project: Option<String>,
    /// Working directory / worktree path
    pub worktree: Option<String>,
}

/// The content of a [`SquadMeta`].
pub struct SquadMetaView {
    pub model: Option<Seq<char>>,
    pub effort: Option<Seq<char>>,
    pub kind: Option<Seq<char>>,
    pub mode: Option<Seq<char>>,
    pub project: Option<Seq<char>>,
    pub worktree: Option<Seq<char>>,
}

impl View for SquadMeta {
    type V = SquadMetaView;

    open spec fn view(&self) -> SquadMetaView {
        SquadMetaView {
            model: opt_view(self.model),
            effort: opt_view(self.effort),
            kind: opt_view(self.kind),
            mode: opt_view(self.mode),
            project: opt_view(self.project),
            worktree: opt_view(self.worktree),
        }
    }
}

/// Metadata with every field unset.
pub open spec fn empty_meta() -> SquadMetaView {
    SquadMetaView {
        model: None,
        effort: None,
        kind: None,
        mode: None,
        project: None,
        worktree: None,
    }
}

impl Default for SquadMeta {
    fn default() -> (r: Self)
        ensures
            r@ == empty_meta(),
    {
        SquadMeta {
            model: None,
            effort: None,
            kind: None,
            mode: None,
            project: None,
            worktree: None,
        }
    }
}

/// A single row from Squad's `state/window-states` TSV file.
#[derive(Debug, Clone)]
pub struct WindowStateEntry {
    /// Window target (e.g., "squad:0" or just window name)
    pub window: String,
    /// Task ID
    pub id: String,
    /// State label (working, done, blocked, etc.)
    pub label: String,
    /// State verb (working, idle, etc.)
    pub state: String,
    /// Detail text
    pub detail: String,
}

/// The content of a [`WindowStateEntry`].
pub struct WindowStateEntryView {
    pub window: Seq<char>,
    pub id: Seq<char>,
    pub label: Seq<char>,
    pub state: Seq<char>,
    pub detail: Seq<char>,
}

impl View for WindowStateEntry {
    type V = WindowStateEntryView;

    open spec fn view(&self) -> WindowStateEntryView {
        WindowStateEntryView {
            window: self.window@,
            id: self.id@,
            label: self.label@,
            state: self.state@,
            detail: self.detail@,
        }
    }
}

/// The views of a sequence of window-state rows.
pub open spec fn entry_views(v: Seq<WindowStateEntry>) -> Seq<WindowStateEntryView> {
    v.map_values(|e: WindowStateEntry| e@)
}

/// One row from Squad's `state/worktrees` TSV file: a session × worktree group.
///
/// Format: `session\tworktree_path\tproject\ttask_ids\tsession_label\tworktree_branch`
/// where `task_ids` is a comma-separated list of member task IDs.
#[derive(Debug, Clone, PartialEq, Eq)]
pub struct WorktreeGroup {
    /// Session name (from the `window=` field, before the colon).
    pub session: String,
    /// Absolute path to the worktree.
    pub worktree_path: String,
    /// Project path from meta.
    pub project: Option<String>,
    /// Task IDs in this worktree (informational; task truth lives in window-states).
    pub task_ids: Vec<String>,
    /// Human-readable session label.
    pub session_label: Option<String>,
    /// Git branch, when determinable.
    pub worktree_branch: Option<String>,
}

/// The content of a [`WorktreeGroup`].
pub struct WorktreeGroupView {
    pub session: Seq<char>,
    pub worktree_path: Seq<char>,
    pub project: Option<Seq<char>>,
    pub task_ids: Seq<Seq<char>>,
    pub session_label: Option<Seq<char>>,
    pub worktree_branch: Option<Seq<char>>,
}

/// The views of a sequence of strings.
pub open spec fn string_views(v: Seq<String>) -> Seq<Seq<char>> {
    v.map_values(|s: String| s@)
}

impl View for WorktreeGroup {
    type V = WorktreeGroupView;

    open spec fn view(&self) -> WorktreeGroupView {
        WorktreeGroupView {
            session: self.session@,
            worktree_path: self.worktree_path@,
            project: opt_view(self.project),
            task_ids: string_views(self.task_ids@),
            session_label: opt_view(self.session_label),
            worktree_branch: opt_view(self.worktree_branch),
        }
    }
}

/// The views of a sequence of worktree groups.
pub open spec fn group_views(v: Seq<WorktreeGroup>) -> Seq<WorktreeGroupView> {
    v.map_values(|g: WorktreeGroup| g@)
}

/// One pane as [`AgentPane`] holds it.
pub struct AgentPaneView {
    pub session: Seq<char>,
    pub window_name: Seq<char>,
    pub pane_id: Seq<char>,
    pub window_id: Seq<char>,
    pub window_index: Option<u32>,
    pub path: Seq<char>,
    pub pane_title: Option<Seq<char>>,
    pub status: Option<AgentStatus>,
    pub status_ts: Option<u64>,
    pub updated_ts: Option<u64>,
    pub window_cmd: Option<Seq<char>>,
    pub agent_command: Option<Seq<char>>,
    pub agent_kind: Option<Seq<char>>,
}

/// The content of an [`AgentPane`].
pub open spec fn agent_pane_view(p: AgentPane) -> AgentPaneView {
    AgentPaneView {
        session: p.session@,
        window_name: p.window_name@,
        pane_id: p.pane_id@,
        window_id: p.window_id@,
        window_index: p.window_index,
        path: p.path@,
        pane_title: opt_view(p.pane_title),
        status: p.status,
        status_ts: p.status_ts,
        updated_ts: p.updated_ts,
        window_cmd: opt_view(p.window_cmd),
        agent_command: opt_view(p.agent_command),
        agent_kind: opt_view(p.agent_kind),
    }
}

// ---------------------------------------------------------------------------
// Task metadata keyed by task id
// ---------------------------------------------------------------------------

/// The map that inserting each pair of `pairs` in order gives: a later
/// insert under the same key replaces an earlier one.
pub open spec fn map_of_inserts(pairs: Seq<(Seq<char>, SquadMetaView)>) -> Map<Seq<char>, SquadMetaView>
    decreases pairs.len(),
{
    if pairs.len() == 0 {
        Map::empty()
    } else {
        map_of_inserts(pairs.drop_last()).insert(pairs.last().0, pairs.last().1)
    }
}

/// Task metadata keyed by task id, with the semantics of a hash map: one
/// value per key, and inserting under a present key replaces its value.
pub struct MetaMap {
    entries: Vec<(Vec<char>, SquadMeta)>,
}

/// The views of the stored pairs.
pub open spec fn pair_views(v: Seq<(Vec<char>, SquadMeta)>) -> Seq<(Seq<char>, SquadMetaView)> {
    v.map_values(|p: (Vec<char>, SquadMeta)| (p.0@, p.1@))
}

impl View for MetaMap {
    type V = Map<Seq<char>, SquadMetaView>;

    closed spec fn view(&self) -> Map<Seq<char>, SquadMetaView> {
        map_of_inserts(pair_views(self.entries@))
    }
}

/// `j` is the last index at which `pairs` holds the key `k`.
pub open spec fn is_last_key(pairs: Seq<(Seq<char>, SquadMetaView)>, k: Seq<char>, j: int) -> bool {
    &&& 0 <= j < pairs.len()
    &&& pairs[j].0 == k
    &&& forall|i: int| j < i < pairs.len() ==> pairs[i].0 != k
}

proof fn lemma_map_of_inserts_lookup(pairs: Seq<(Seq<char>, SquadMetaView)>, k: Seq<char>)
    ensures
        map_of_inserts(pairs).contains_key(k) <==> exists|i: int|
            0 <= i < pairs.len() && pairs[i].0 == k,
        forall|j: int| is_last_key(pairs, k, j) ==> map_of_inserts(pairs)[k] == pairs[j].1,
    decreases pairs.len(),
{
    if pairs.len() > 0 {
        let init = pairs.drop_last();
        lemma_map_of_inserts_lookup(init, k);
        if pairs.last().0 != k {
            assert forall|i: int| 0 <= i < init.len() && init[i].0 == k implies exists|i2: int|
                0 <= i2 < pairs.len() && pairs[i2].0 == k by {
                assert(pairs[i].0 == k);
            }
            assert forall|i: int| 0 <= i < pairs.len() && pairs[i].0 == k implies exists|i2: int|
                0 <= i2 < init.len() && init[i2].0 == k by {
                assert(init[i].0 == k);
            }
            assert forall|j: int| is_last_key(pairs, k, j) implies map_of_inserts(pairs)[k]
                == pairs[j].1 by {
                assert(is_last_key(init, k, j));
            }
        } else {
            assert(pairs[pairs.len() - 1].0 == k);
        }
    }
}

impl MetaMap {
    /// An empty map.
    pub fn new() -> (r: MetaMap)
        ensures
            r@ == Map::<Seq<char>, SquadMetaView>::empty(),
    {
        let r = MetaMap { entries: Vec::new() };
        assert(pair_views(r.entries@) =~= Seq::<(Seq<char>, SquadMetaView)>::empty());
        r
    }

    /// Inserts `meta` under `key`, replacing what was there.
    pub fn insert(&mut self, key: String, meta: SquadMeta)
        ensures
            final(self)@ == old(self)@.insert(key@, meta@),
    {
        let k = chars_of(key.as_str());
        let ghost before = pair_views(self.entries@);
        self.entries.push((k, meta));
        assert(pair_views(self.entries@).drop_last() =~= before);
    }

    /// The metadata stored under `key`, if any.
    pub fn get_chars(&self, key: &[char]) -> (r: Option<&SquadMeta>)
        ensures
            match r {
                Some(m) => self@.contains_key(key@) && self@[key@] == m@,
                None => !self@.contains_key(key@),
            },
    {
        let ghost ps = pair_views(self.entries@);
        let mut j = self.entries.len();
        while j > 0
            invariant
                j <= self.entries@.len(),
                ps == pair_views(self.entries@),
                forall|i: int| j <= i < ps.len() ==> ps[i].0 != key@,
            decreases j,
        {
            if chars_eq(self.entries[j - 1].0.as_slice(), key) {
                assert(ps[j - 1] == (self.entries@[j - 1].0@, self.entries@[j - 1].1@));
                assert(is_last_key(ps, key@, j - 1));
                proof {
                    lemma_map_of_inserts_lookup(ps, key@);
                }
                return Some(&self.entries[j - 1].1);
            }
            j = j - 1;
        }
        proof {
            lemma_map_of_inserts_lookup(ps, key@);
        }
        None
    }

    /// The metadata stored under `key`, if any.
    pub fn get(&self, key: &str) -> (r: Option<&SquadMeta>)
        ensures
            match r {
                Some(m) => self@.contains_key(key@) && self@[key@] == m@,
                None => !self@.contains_key(key@),
            },
    {
        let k = chars_of(key);
        self.get_chars(k.as_slice())
    }
}

// ---------------------------------------------------------------------------
// The data source
// ---------------------------------------------------------------------------

/// Squad data source that reads from Squad's state directory.
pub struct SquadDataSource {
    /// Path to Squad's state directory (e.g., `/path/to/squad/state/`)
    state_dir: PathBuf,
}

/// Where `window` names its session and window: `session:window`, or just a
/// window name, which belongs to the session `squad`.
pub open spec fn spec_parse_window_target(window: Seq<char>) -> (Seq<char>, Seq<char>) {
    match split_once(window, ':') {
        Some((session, name)) => (session, name),
        None => ("squad"@, window),
    }
}

/// The status that a lowercase state label maps to.
pub open spec fn spec_status_of_lowercase(lower: Seq<char>) -> Option<AgentStatus> {
    if lower == "working"@ {
        Some(AgentStatus::Working)
    } else if lower == "done"@ {
        Some(AgentStatus::Done)
    } else if lower == "blocked"@ || lower == "awaiting-decision"@ {
        Some(AgentStatus::Waiting)
    } else if lower == "failed"@ {
        Some(AgentStatus::Done)
    } else {
        None
    }
}

/// The status that a state label maps to, ignoring case.
pub open spec fn spec_map_status(label: Seq<char>) -> Option<AgentStatus> {
    spec_status_of_lowercase(lowercase(label))
}

/// A row of `state/window-states`, from one (untrimmed) line: tab-separated
/// window, id, label, state and detail, where the detail keeps any further
/// tabs and may be missing; lines with fewer than four fields are no row.
pub open spec fn window_state_row(raw: Seq<char>) -> Option<WindowStateEntryView> {
    let line = trim(raw);
    let parts = split(line, '\t');
    if line.len() == 0 || parts.len() < 4 {
        None
    } else {
        Some(
            WindowStateEntryView {
                window: parts[0],
                id: parts[1],
                label: parts[2],
                state: parts[3],
                detail: if parts.len() >= 5 {
                    join(parts.skip(4), '\t')
                } else {
                    Seq::empty()
                },
            },
        )
    }
}

/// The rows that `lines` hold, in order.
pub open spec fn window_state_rows(lines: Seq<Seq<char>>) -> Seq<WindowStateEntryView>
    decreases lines.len(),
{
    if lines.len() == 0 {
        Seq::empty()
    } else {
        let init = window_state_rows(lines.drop_last());
        match window_state_row(lines.last()) {
            Some(e) => init.push(e),
            None => init,
        }
    }
}

/// The rows of a `state/window-states` file.
pub open spec fn spec_parse_window_states(content: Seq<char>) -> Seq<WindowStateEntryView> {
    window_state_rows(split(content, '\n'))
}

/// Column `i` of a row, unless it is missing or empty.
pub open spec fn opt_column(parts: Seq<Seq<char>>, i: int) -> Option<Seq<char>> {
    if i < parts.len() && parts[i].len() > 0 {
        Some(parts[i])
    } else {
        None
    }
}

/// The trimmed, non-empty pieces of `pieces`, in order.
pub open spec fn trimmed_nonempty(pieces: Seq<Seq<char>>) -> Seq<Seq<char>>
    decreases pieces.len(),
{
    if pieces.len() == 0 {
        Seq::empty()
    } else {
        let init = trimmed_nonempty(pieces.drop_last());
        let t = trim(pieces.last());
        if t.len() > 0 {
            init.push(t)
        } else {
            init
        }
    }
}

/// A row of `state/worktrees`, from one (untrimmed) line: rows with fewer
/// than two fields are no row; columns 3 to 6 are optional, and an empty
/// column counts as missing.
pub open spec fn worktree_row(raw: Seq<char>) -> Option<WorktreeGroupView> {
    let line = trim(raw);
    let parts = split(line, '\t');
    if line.len() == 0 || parts.len() < 2 {
        None
    } else {
        Some(
            WorktreeGroupView {
                session: parts[0],
                worktree_path: parts[1],
                project: opt_column(parts, 2),
                task_ids: if parts.len() > 3 {
                    trimmed_nonempty(split(parts[3], ','))
                } else {
                    Seq::empty()
                },
                session_label: opt_column(parts, 4),
                worktree_branch: opt_column(parts, 5),
            },
        )
    }
}

/// The rows that `lines` hold, in order.
pub open spec fn worktree_rows(lines: Seq<Seq<char>>) -> Seq<WorktreeGroupView>
    decreases lines.len(),
{
    if lines.len() == 0 {
        Seq::empty()
    } else {
        let init = worktree_rows(lines.drop_last());
        match worktree_row(lines.last()) {
            Some(g) => init.push(g),
            None => init,
        }
    }
}

/// The rows of a `state/worktrees` file.
pub open spec fn spec_parse_worktrees(content: Seq<char>) -> Seq<WorktreeGroupView> {
    worktree_rows(split(content, '\n'))
}

/// Metadata after one (untrimmed) line of a meta file: blank lines,
/// `#` comments, lines without `=`, unknown keys, and the values `` and `-`
/// leave it as it was; otherwise the trimmed value replaces the field that the
/// trimmed key names.
pub open spec fn apply_meta_line(m: SquadMetaView, raw: Seq<char>) -> SquadMetaView {
    let line = trim(raw);
    if line.len() == 0 || line[0] == '#' {
        m
    } else {
        match split_once(line, '=') {
            None => m,
            Some((k, v)) => {
                let value = trim(v);
                let key = trim(k);
                if value.len() == 0 || value == "-"@ {
                    m
                } else if key == "model"@ {
                    SquadMetaView { model: Some(value), ..m }
                } else if key == "effort"@ {
                    SquadMetaView { effort: Some(value), ..m }
                } else if key == "kind"@ {
                    SquadMetaView { kind: Some(value), ..m }
                } else if key == "mode"@ {
                    SquadMetaView { mode: Some(value), ..m }
                } else if key == "project"@ {
                    SquadMetaView { project: Some(value), ..m }
                } else if key == "worktree"@ {
                    SquadMetaView { worktree: Some(value), ..m }
                } else {
                    m
                }
            },
        }
    }
}

/// Metadata after all of `lines`, starting from unset fields.
pub open spec fn meta_of_lines(lines: Seq<Seq<char>>) -> SquadMetaView
    decreases lines.len(),
{
    if lines.len() == 0 {
        empty_meta()
    } else {
        apply_meta_line(meta_of_lines(lines.drop_last()), lines.last())
    }
}

/// The metadata in a `state/<id>.meta` file.
pub open spec fn spec_parse_meta(content: Seq<char>) -> SquadMetaView {
    meta_of_lines(split(content, '\n'))
}

/// The metadata that `metas` holds for a task, if any.
pub open spec fn meta_for(metas: Map<Seq<char>, SquadMetaView>, id: Seq<char>) -> Option<
    SquadMetaView,
> {
    if metas.contains_key(id) {
        Some(metas[id])
    } else {
        None
    }
}

/// The worktree path of a window-states row: `meta.worktree`, else
/// `meta.project`, else `/`.
pub open spec fn spec_entry_worktree_path(
    e: WindowStateEntryView,
    metas: Map<Seq<char>, SquadMetaView>,
) -> Seq<char> {
    match meta_for(metas, e.id) {
        Some(m) => match m.worktree {
            Some(w) => w,
            None => match m.project {
                Some(p) => p,
                None => "/"@,
            },
        },
        None => "/"@,
    }
}

/// The composite command line from model and effort: `model (effort)`,
/// `model`, `(effort)`, or none.
pub open spec fn spec_agent_command(model: Option<Seq<char>>, effort: Option<Seq<char>>) -> Option<
    Seq<char>,
> {
    match (model, effort) {
        (Some(m), Some(e)) => Some(m + " ("@ + e + ")"@),
        (Some(m), None) => Some(m),
        (None, Some(e)) => Some("("@ + e + ")"@),
        (None, None) => None,
    }
}

/// The pane row for a window-states row.
pub open spec fn spec_pane_entry(
    e: WindowStateEntryView,
    metas: Map<Seq<char>, SquadMetaView>,
) -> SidebarEntryView {
    let target = spec_parse_window_target(e.window);
    let meta = meta_for(metas, e.id);
    SidebarEntryView::Pane {
        task_id: e.id,
        session: target.0,
        window_name: target.1,
        pane_id: "%"@ + e.id,
        label: e.label,
        detail: e.detail,
        status: spec_map_status(e.label),
        agent_kind: match meta {
            Some(m) => m.kind,
            None => None,
        },
        agent_command: match meta {
            Some(m) => spec_agent_command(m.model, m.effort),
            None => None,
        },
    }
}

/// The agent pane for a window-states row, given its metadata and the
/// modification time of its `busy-gen` file.
pub open spec fn spec_agent_pane(
    e: WindowStateEntryView,
    meta: SquadMetaView,
    busy_gen_mtime: Option<u64>,
) -> AgentPaneView {
    let target = spec_parse_window_target(e.window);
    AgentPaneView {
        session: target.0,
        window_name: target.1,
        pane_id: "%"@ + e.id,
        window_id: Seq::empty(),
        window_index: None,
        path: match meta.worktree {
            Some(w) => w,
            None => match meta.project {
                Some(p) => p,
                None => "/"@,
            },
        },
        pane_title: if e.detail.len() == 0 {
            Some(e.state)
        } else {
            Some(e.state + ": "@ + e.detail)
        },
        status: spec_map_status(e.label),
        status_ts: busy_gen_mtime,
        updated_ts: busy_gen_mtime,
        window_cmd: None,
        agent_command: spec_agent_command(meta.model, meta.effort),
        agent_kind: meta.kind,
    }
}

/// The composite command line from model and effort.
pub fn agent_command(model: &Option<String>, effort: &Option<String>) -> (r: Option<String>)
    ensures
        opt_view(r) == spec_agent_command(opt_view(*model), opt_view(*effort)),
{
    match (model, effort) {
        (Some(m), Some(e)) => {
            let mut s = m.clone();
            s.append(" (");
            s.append(e.as_str());
            s.append(")");
            Some(s)
        },
        (Some(m), None) => Some(m.clone()),
        (None, Some(e)) => {
            let mut s = String::from_str("(");
            s.append(e.as_str());
            s.append(")");
            Some(s)
        },
        (None, None) => None,
    }
}

/// `%` followed by the task id: the synthetic pane id.
fn pane_id_of(id: &String) -> (r: String)
    ensures
        r@ == "%"@ + id@,
{
    let mut s = String::from_str("%");
    s.append(id.as_str());
    s
}

/// The characters of `parts[i]` as a string.
fn part_string(parts: &Vec<Vec<char>>, i: usize) -> (r: String)
    requires
        i < parts@.len(),
    ensures
        r@ == views(parts@)[i as int],
{
    string_from_chars(parts[i].as_slice())
}

/// Column `i` of a row, unless it is missing or empty.
fn opt_part(parts: &Vec<Vec<char>>, i: usize) -> (r: Option<String>)
    ensures
        opt_view(r) == opt_column(views(parts@), i as int),
{
    if i < parts.len() && parts[i].len() > 0 {
        Some(part_string(parts, i))
    } else {
        None
    }
}

/// The trimmed, non-empty comma-separated task ids of a column.
fn task_id_list(column: &[char]) -> (r: Vec<String>)
    ensures
        string_views(r@) == trimmed_nonempty(split(column@, ',')),
{
    let pieces = split_chars(column, ',');
    let ghost ps = views(pieces@);
    let mut out: Vec<String> = Vec::new();
    let mut i: usize = 0;
    assert(ps.take(0) =~= Seq::<Seq<char>>::empty());
    assert(string_views(out@) =~= Seq::<Seq<char>>::empty());
    while i < pieces.len()
        invariant
            i <= pieces@.len(),
            ps == views(pieces@),
            string_views(out@) == trimmed_nonempty(ps.take(i as int)),
        decreases pieces@.len() - i,
    {
        assert(ps.take(i + 1).drop_last() =~= ps.take(i as int));
        assert(ps.take(i + 1).last() == pieces@[i as int]@);
        let t = trim_chars(pieces[i].as_slice());
        if t.len() > 0 {
            let ghost before = string_views(out@);
            out.push(string_from_chars(t.as_slice()));
            assert(string_views(out@) =~= before.push(t@));
        }
        i = i + 1;
    }
    assert(ps.take(pieces@.len() as int) =~= ps);
    out
}

/// Applies one line of a meta file.
fn apply_meta_line_exec(meta: &mut SquadMeta, raw: &[char])
    ensures
        final(meta)@ == apply_meta_line(old(meta)@, raw@),
{
    let line = trim_chars(raw);
    if line.len() == 0 || line[0] == '#' {
        return;
    }
    match split_once_chars(line.as_slice(), '=') {
        None => {},
        Some((k, v)) => {
            let value = trim_chars(v.as_slice());
            let key = trim_chars(k.as_slice());
            if value.len() == 0 || chars_eq(value.as_slice(), chars_of("-").as_slice()) {
                return;
            }
            let text = string_from_chars(value.as_slice());
            if chars_eq(key.as_slice(), chars_of("model").as_slice()) {
                meta.model = Some(text);
            } else if chars_eq(key.as_slice(), chars_of("effort").as_slice()) {
                meta.effort = Some(text);
            } else if chars_eq(key.as_slice(), chars_of("kind").as_slice()) {
                meta.kind = Some(text);
            } else if chars_eq(key.as_slice(), chars_of("mode").as_slice()) {
                meta.mode = Some(text);
            } else if chars_eq(key.as_slice(), chars_of("project").as_slice()) {
                meta.project = Some(text);
            } else if chars_eq(key.as_slice(), chars_of("worktree").as_slice()) {
                meta.worktree = Some(text);
            }
        },
    }
}

impl SquadDataSource {
    /// The state directory, for specifications.
    pub closed spec fn dir(&self) -> PathBuf {
        self.state_dir
    }

    /// Create a new SquadDataSource with the given state directory path.
    pub fn new(state_dir: PathBuf) -> (r: Self)
        ensures
            r.dir() == state_dir,
    {
        Self { state_dir }
    }

    /// Get the state directory path.
    pub fn state_dir(&self) -> (r: &PathBuf)
        ensures
            *r == self.dir(),
    {
        &self.state_dir
    }

    /// Name of the metadata file of a task within the state directory.
    pub fn meta_file_name(task_id: &str) -> (r: String)
        ensures
            r@ == task_id@ + ".meta"@,
    {
        let mut s = String::from_str(task_id);
        s.append(".meta");
        s
    }

    /// Name of the busy-generation file of a task within the state directory.
    pub fn busy_gen_file_name(task_id: &str) -> (r: String)
        ensures
            r@ == task_id@ + ".busy-gen"@,
    {
        let mut s = String::from_str(task_id);
        s.append(".busy-gen");
        s
    }

    /// Parse the window target into session and window name.
    ///
    /// Input format: "session:window" or just "window"
    /// Returns: (session, window_name)
    pub fn parse_window_target(window: &str) -> (r: (String, String))
        ensures
            (r.0@, r.1@) == spec_parse_window_target(window@),
    {
        let w = chars_of(window);
        match split_once_chars(w.as_slice(), ':') {
            Some((session, name)) => (
                string_from_chars(session.as_slice()),
                string_from_chars(name.as_slice()),
            ),
            None => (String::from_str("squad"), String::from_str(window)),
        }
    }

    /// Map a state label that is already lowercase to an agent status.
    pub fn status_of_lowercase(lower: &str) -> (r: Option<AgentStatus>)
        ensures
            r == spec_status_of_lowercase(lower@),
    {
        let l = chars_of(lower);
        let l = l.as_slice();
        if chars_eq(l, chars_of("working").as_slice()) {
            Some(AgentStatus::Working)
        } else if chars_eq(l, chars_of("done").as_slice()) {
            Some(AgentStatus::Done)
        } else if chars_eq(l, chars_of("blocked").as_slice()) || chars_eq(
            l,
            chars_of("awaiting-decision").as_slice(),
        ) {
            Some(AgentStatus::Waiting)
        } else if chars_eq(l, chars_of("failed").as_slice()) {
            // Shown as done, with error styling.
            Some(AgentStatus::Done)
        } else {
            None
        }
    }

    /// Map a Squad state label to an agent status, ignoring case.
    pub fn map_status(label: &str) -> (r: Option<AgentStatus>)
        ensures
            r == spec_map_status(label@),
    {
        let lower = to_lowercase(label);
        Self::status_of_lowercase(lower.as_str())
    }

    /// One row of `state/window-states`, from one line.
    fn window_state_row(raw: &[char]) -> (r: Option<WindowStateEntry>)
        ensures
            match r {
                Some(e) => window_state_row(raw@) == Some(e@),
                None => window_state_row(raw@) is None,
            },
    {
        let line = trim_chars(raw);
        let parts = split_chars(line.as_slice(), '\t');
        if line.len() == 0 || parts.len() < 4 {
            return None;
        }
        let detail = if parts.len() >= 5 {
            let d = join_from(&parts, 4, '\t');
            string_from_chars(d.as_slice())
        } else {
            String::new()
        };
        let e = WindowStateEntry {
            window: part_string(&parts, 0),
            id: part_string(&parts, 1),
            label: part_string(&parts, 2),
            state: part_string(&parts, 3),
            detail,
        };
        Some(e)
    }

    /// Parse the text of the `state/window-states` TSV file.
    ///
    /// Format: window\tid\tlabel\tstate\tdetail
    pub fn parse_window_states(content: &str) -> (r: Vec<WindowStateEntry>)
        ensures
            entry_views(r@) == spec_parse_window_states(content@),
    {
        let c = chars_of(content);
        let lines = split_chars(c.as_slice(), '\n');
        let ghost ls = views(lines@);
        let mut out: Vec<WindowStateEntry> = Vec::new();
        let mut i: usize = 0;
        assert(ls.take(0) =~= Seq::<Seq<char>>::empty());
        assert(entry_views(out@) =~= Seq::<WindowStateEntryView>::empty());
        while i < lines.len()
            invariant
                i <= lines@.len(),
                ls == views(lines@),
                entry_views(out@) == window_state_rows(ls.take(i as int)),
            decreases lines@.len() - i,
        {
            assert(ls.take(i + 1).drop_last() =~= ls.take(i as int));
            assert(ls.take(i + 1).last() == lines@[i as int]@);
            match Self::window_state_row(lines[i].as_slice()) {
                Some(e) => {
                    let ghost before = entry_views(out@);
                    out.push(e);
                    assert(entry_views(out@) =~= before.push(e@));
                },
                None => {},
            }
            i = i + 1;
        }
        assert(ls.take(lines@.len() as int) =~= ls);
        out
    }

    /// One row of `state/worktrees`, from one line.
    fn worktree_row(raw: &[char]) -> (r: Option<WorktreeGroup>)
        ensures
            match r {
                Some(g) => worktree_row(raw@) == Some(g@),
                None => worktree_row(raw@) is None,
            },
    {
        let line = trim_chars(raw);
        let parts = split_chars(line.as_slice(), '\t');
        if line.len() == 0 || parts.len() < 2 {
            return None;
        }
        let task_ids = if parts.len() > 3 {
            task_id_list(parts[3].as_slice())
        } else {
            Vec::new()
        };
        let g = WorktreeGroup {
            session: part_string(&parts, 0),
            worktree_path: part_string(&parts, 1),
            project: opt_part(&parts, 2),
            task_ids,
            session_label: opt_part(&parts, 4),
            worktree_branch: opt_part(&parts, 5),
        };
        assert(g@.task_ids =~= worktree_row(raw@).unwrap().task_ids);
        Some(g)
    }

    /// Parse the text of the `state/worktrees` TSV file (the hierarchy overlay).
    ///
    /// Format: `session\tworktree_path\tproject\ttask_ids\tsession_label\tworktree_branch`
    /// Columns 3-6 are optional; rows with fewer than 2 columns are skipped.
    pub fn parse_worktrees(content: &str) -> (r: Vec<WorktreeGroup>)
        ensures
            group_views(r@) == spec_parse_worktrees(content@),
    {
        let c = chars_of(content);
        let lines = split_chars(c.as_slice(), '\n');
        let ghost ls = views(lines@);
        let mut out: Vec<WorktreeGroup> = Vec::new();
        let mut i: usize = 0;
        assert(ls.take(0) =~= Seq::<Seq<char>>::empty());
        assert(group_views(out@) =~= Seq::<WorktreeGroupView>::empty());
        while i < lines.len()
            invariant
                i <= lines@.len(),
                ls == views(lines@),
                group_views(out@) == worktree_rows(ls.take(i as int)),
            decreases lines@.len() - i,
        {
            assert(ls.take(i + 1).drop_last() =~= ls.take(i as int));
            assert(ls.take(i + 1).last() == lines@[i as int]@);
            match Self::worktree_row(lines[i].as_slice()) {
                Some(g) => {
                    let ghost before = group_views(out@);
                    out.push(g);
                    assert(group_views(out@) =~= before.push(g@));
                },
                None => {},
            }
            i = i + 1;
        }
        assert(ls.take(lines@.len() as int) =~= ls);
        out
    }

    /// Parse the text of a `state/<id>.meta` file.
    ///
    /// Squad writes meta files in shell key=value format (one per line),
    /// not JSON. Example:
    ///   window=Squad:sq-abc
    ///   model=atlas-3-pro
    ///   effort=high
    ///   kind=strike
    pub fn parse_meta(content: &str) -> (r: SquadMeta)
        ensures
            r@ == spec_parse_meta(content@),
    {
        let c = chars_of(content);
        let lines = split_chars(c.as_slice(), '\n');
        let ghost ls = views(lines@);
        let mut meta = SquadMeta::default();
        let mut i: usize = 0;
        assert(ls.take(0) =~= Seq::<Seq<char>>::empty());
        while i < lines.len()
            invariant
                i <= lines@.len(),
                ls == views(lines@),
                meta@ == meta_of_lines(ls.take(i as int)),
            decreases lines@.len() - i,
        {
            assert(ls.take(i + 1).drop_last() =~= ls.take(i as int));
            assert(ls.take(i + 1).last() == lines@[i as int]@);
            apply_meta_line_exec(&mut meta, lines[i].as_slice());
            i = i + 1;
        }
        assert(ls.take(lines@.len() as int) =~= ls);
        meta
    }

    /// Build a `SidebarEntry::Pane` from a window-states row + meta.
    pub fn pane_entry(entry: &WindowStateEntry, metas: &MetaMap) -> (r: SidebarEntry)
        ensures
            r@ == spec_pane_entry(entry@, metas@),
    {
        let (session, window_name) = Self::parse_window_target(entry.window.as_str());
        let meta = metas.get(entry.id.as_str());
        let (agent_kind, agent_command) = match meta {
            Some(m) => (clone_opt(&m.kind), agent_command(&m.model, &m.effort)),
            None => (None, None),
        };
        SidebarEntry::Pane {
            task_id: entry.id.clone(),
            session,
            window_name,
            pane_id: pane_id_of(&entry.id),
            label: entry.label.clone(),
            detail: entry.detail.clone(),
            status: Self::map_status(entry.label.as_str()),
            agent_kind,
            agent_command,
        }
    }

    /// The agent pane for a window-states row, given its metadata (default
    /// metadata where none could be read) and the modification time of its
    /// `state/<id>.busy-gen` file.
    pub fn agent_pane(entry: &WindowStateEntry, meta: &SquadMeta, busy_gen_mtime: Option<u64>) -> (r:
        AgentPane)
        ensures
            agent_pane_view(r) == spec_agent_pane(entry@, meta@, busy_gen_mtime),
    {
        let (session, window_name) = Self::parse_window_target(entry.window.as_str());
        let pane_title = if entry.detail.as_str().unicode_len() == 0 {
            Some(entry.state.clone())
        } else {
            let mut t = entry.state.clone();
            t.append(": ");
            t.append(entry.detail.as_str());
            Some(t)
        };
        let path = match &meta.worktree {
            Some(w) => w.clone(),
            None => match &meta.project {
                Some(p) => p.clone(),
                None => String::from_str("/"),
            },
        };
        AgentPane {
            session,
            window_name,
            pane_id: pane_id_of(&entry.id),
            window_id: String::new(),
            window_index: None,
            path,
            pane_title,
            status: Self::map_status(entry.label.as_str()),
            status_ts: busy_gen_mtime,
            updated_ts: busy_gen_mtime,
            window_cmd: None,
            agent_command: agent_command(&meta.model, &meta.effort),
            agent_kind: clone_opt(&meta.kind),
        }
    }
}

/// The Squad base directory that the environment names: `SQUAD_BASE` when
/// it is set, else `SQUAD_HOME`; `None` when neither is set, and the base is
/// then `.fob/squad` under the home directory.
pub fn state_base(squad_base: Option<String>, squad_home: Option<String>) -> (r: Option<String>)
    ensures
        opt_view(r) == (if squad_base is Some {
            opt_view(squad_base)
        } else {
            opt_view(squad_home)
        }),
{
    match squad_base {
        Some(base) => Some(base),
        None => squad_home,
    }
}

/// The worktree path for a window-states entry: `meta.worktree` → `meta.project` → `/`.
pub fn entry_worktree_path(entry: &WindowStateEntry, metas: &MetaMap) -> (r: String)
    ensures
        r@ == spec_entry_worktree_path(entry@, metas@),
{
    match metas.get(entry.id.as_str()) {
        Some(m) => match &m.worktree {
            Some(w) => w.clone(),
            None => match &m.project {
                Some(p) => p.clone(),
                None => String::from_str("/"),
            },
        },
        None => String::from_str("/"),
    }
}

// ---------------------------------------------------------------------------
// Laws
// ---------------------------------------------------------------------------

/// A window target splits at its first colon into a colon-free session and
/// the rest, which join back to the target; a target without a colon is a
/// window of the session `squad`.
pub proof fn lemma_window_target_roundtrip(window: Seq<char>)
    ensures
        window.contains(':') ==> {
            let (session, name) = spec_parse_window_target(window);
            &&& session.push(':') + name == window
            &&& !session.contains(':')
        },
        !window.contains(':') ==> spec_parse_window_target(window) == ("squad"@, window),
{
    if window.contains(':') {
        let k = choose|k: int| 0 <= k < window.len() && window[k] == ':';
        assert(exists|i: int| is_first_index(window, ':', i)) by {
            lemma_first_colon(window, k);
        }
        let i = choose|i: int| is_first_index(window, ':', i);
        let (session, name) = spec_parse_window_target(window);
        assert(session == window.take(i));
        assert(name == window.skip(i + 1));
        assert(session.push(':') + name =~= window);
        assert(!session.contains(':')) by {
            if session.contains(':') {
                let j = choose|j: int| 0 <= j < session.len() && session[j] == ':';
                assert(window[j] == ':');
            }
        }
    } else {
        assert(!exists|i: int| is_first_index(window, ':', i)) by {
            if exists|i: int| is_first_index(window, ':', i) {
                let i = choose|i: int| is_first_index(window, ':', i);
                assert(window[i] == ':');
            }
        }
    }
}

/// Where `s[k]` is `c`, some position is the first `c`.
proof fn lemma_first_colon(s: Seq<char>, k: int)
    requires
        0 <= k < s.len(),
        s[k] == ':',
    ensures
        exists|i: int| is_first_index(s, ':', i),
    decreases k,
{
    if forall|j: int| 0 <= j < k ==> s[j] != ':' {
        assert(is_first_index(s, ':', k));
    } else {
        let j = choose|j: int| 0 <= j < k && s[j] == ':';
        lemma_first_colon(s, j);
    }
}

/// A metadata value that is set is neither empty nor `-`.
pub open spec fn value_set(v: Option<Seq<char>>) -> bool {
    match v {
        Some(x) => x.len() > 0 && x != "-"@,
        None => true,
    }
}

/// Every field of the metadata that is set holds a real value.
pub open spec fn meta_values_set(m: SquadMetaView) -> bool {
    &&& value_set(m.model)
    &&& value_set(m.effort)
    &&& value_set(m.kind)
    &&& value_set(m.mode)
    &&& value_set(m.project)
    &&& value_set(m.worktree)
}

proof fn lemma_meta_of_lines_values(lines: Seq<Seq<char>>)
    ensures
        meta_values_set(meta_of_lines(lines)),
    decreases lines.len(),
{
    if lines.len() > 0 {
        lemma_meta_of_lines_values(lines.drop_last());
    }
}

/// Empty values and `-` mean "unset": a parsed meta file never holds them.
pub proof fn lemma_meta_values_never_unset_markers(content: Seq<char>)
    ensures
        meta_values_set(spec_parse_meta(content)),
{
    lemma_meta_of_lines_values(split(content, '\n'));
}

/// A window-states row holds its (trimmed) line: the fields joined by tabs,
/// the detail keeping any tabs of its own.
pub proof fn lemma_window_state_row_roundtrip(raw: Seq<char>)
    ensures
        window_state_row(raw) matches Some(e) ==> {
            let head = e.window.push('\t') + e.id.push('\t') + e.label.push('\t') + e.state;
            if split(trim(raw), '\t').len() >= 5 {
                head.push('\t') + e.detail == trim(raw)
            } else {
                head == trim(raw) && e.detail.len() == 0
            }
        },
{
    let line = trim(raw);
    let parts = split(line, '\t');
    if window_state_row(raw) is Some {
        lemma_join_split(line, '\t');
        let head4 = parts.take(4);
        let p1 = parts.take(1);
        let p2 = parts.take(2);
        let p3 = parts.take(3);
        assert(p2.drop_last() =~= p1);
        assert(p3.drop_last() =~= p2);
        assert(head4.drop_last() =~= p3);
        assert(join(p1, '\t') == parts[0]);
        assert(join(p2, '\t') == parts[0].push('\t') + parts[1]);
        assert(join(p3, '\t') == join(p2, '\t').push('\t') + parts[2]);
        assert(join(head4, '\t') == join(p3, '\t').push('\t') + parts[3]);
        assert(join(head4, '\t') =~= parts[0].push('\t') + parts[1].push('\t') + parts[2].push('\t')
            + parts[3]);
        if parts.len() >= 5 {
            lemma_join_split_at(parts, 4, '\t');
        } else {
            assert(parts =~= head4);
        }
    }
}

} // verus!
