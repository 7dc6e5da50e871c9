//! Rows of the hierarchical sidebar list and the choice of data source.
use vstd::prelude::*;

use crate::agent::AgentStatus;
use crate::text::{chars_eq, chars_of, lowercase, opt_view, to_lowercase};

verus! {

/// A single row in the hierarchical sidebar list (session → worktree → pane).
///
/// This is a pure data-layer type: it carries no UI types and no rendering
/// logic.
#[derive(Debug, Clone, PartialEq, Eq)]
pub enum SidebarEntry {
    /// Top-level session group.
    Session {
        /// Session name (from the `window=` field, before the colon).
        session: String,
        /// Human-readable session label (from `state/worktrees` column 5).
        label: Option<String>,
        /// Number of tasks in this session.
        task_count: usize,
        /// Combined status of every task in the session.
        aggregate_status: Option<AgentStatus>,
    },
    /// Worktree group within a session.
    Worktree {
        /// Session name this worktree belongs to.
        session: String,
        /// Absolute path to the worktree.
        worktree_path: String,
        /// Git branch (from `state/worktrees` column 6), when determinable.
        branch: Option<String>,
        /// Number of tasks in this worktree.
        task_count: usize,
        /// Combined status of every task in the worktree.
        aggregate_status: Option<AgentStatus>,
    },
    /// Individual task pane (leaf).
    Pane {
        /// Squad task ID.
        task_id: String,
        /// Session name the task belongs to.
        session: String,
        /// Window name (the task's window within the session).
        window_name: String,
        /// Synthetic pane ID (`%{task-id}`), used for click-to-focus.
        pane_id: String,
        /// State label from `state/window-states` (working, done, blocked, ...).
        label: String,
        /// Detail prose from `state/window-states`.
        detail: String,
        /// Mapped agent status.
        status: Option<AgentStatus>,
        /// Cached agent identity (e.g. "atlas"), from `state/<id>.meta`.
        agent_kind: Option<String>,
        /// Composite command line (e.g. "atlas-3-pro (high)"), from meta.
        agent_command: Option<String>,
    },
}

/// The mathematical content of a [`SidebarEntry`].
pub enum SidebarEntryView {
    Session {
        session: Seq<char>,
        label: Option<Seq<char>>,
        task_count: nat,
        aggregate_status: Option<AgentStatus>,
    },
    Worktree {
        session: Seq<char>,
        worktree_path: Seq<char>,
        branch: Option<Seq<char>>,
        task_count: nat,
        aggregate_status: Option<AgentStatus>,
    },
    Pane {
        task_id: Seq<char>,
        session: Seq<char>,
        window_name: Seq<char>,
        pane_id: Seq<char>,
        label: Seq<char>,
        detail: Seq<char>,
        status: Option<AgentStatus>,
        agent_kind: Option<Seq<char>>,
        agent_command: Option<Seq<char>>,
    },
}

impl SidebarEntryView {
    /// Session name of the row.
    pub open spec fn session(self) -> Seq<char> {
        match self {
            SidebarEntryView::Session { session, .. } => session,
            SidebarEntryView::Worktree { session, .. } => session,
            SidebarEntryView::Pane { session, .. } => session,
        }
    }
}

impl View for SidebarEntry {
    type V = SidebarEntryView;

    open spec fn view(&self) -> SidebarEntryView {
        match self {
            SidebarEntry::Session { session, label, task_count, aggregate_status } => {
                SidebarEntryView::Session {
                    session: session@,
                    label: opt_view(*label),
                    task_count: *task_count as nat,
                    aggregate_status: *aggregate_status,
                }
            },
            SidebarEntry::Worktree {
                session,
                worktree_path,
                branch,
                task_count,
                aggregate_status,
            } => SidebarEntryView::Worktree {
                session: session@,
                worktree_path: worktree_path@,
                branch: opt_view(*branch),
                task_count: *task_count as nat,
                aggregate_status: *aggregate_status,
            },
            SidebarEntry::Pane {
                task_id,
                session,
                window_name,
                pane_id,
                label,
                detail,
                status,
                agent_kind,
                agent_command,
            } => SidebarEntryView::Pane {
                task_id: task_id@,
                session: session@,
                window_name: window_name@,
                pane_id: pane_id@,
                label: label@,
                detail: detail@,
                status: *status,
                agent_kind: opt_view(*agent_kind),
                agent_command: opt_view(*agent_command),
            },
        }
    }
}

impl SidebarEntry {
    /// Session name this entry belongs to.
    pub fn session(&self) -> (r: &str)
        ensures
            r@ == self@.session(),
    {
        match self {
            SidebarEntry::Session { session, .. } => session.as_str(),
            SidebarEntry::Worktree { session, .. } => session.as_str(),
            SidebarEntry::Pane { session, .. } => session.as_str(),
        }
    }
}

/// The key of a worktree group: session, a NUL, then the worktree path.
pub open spec fn spec_worktree_key(session: Seq<char>, worktree_path: Seq<char>) -> Seq<char> {
    session.push('\0') + worktree_path
}

/// Composite key identifying a worktree group within a session.
///
/// Used by the sidebar client's expand/collapse state. The separator is a NUL
/// so the `(session, worktree_path)` pair round-trips unambiguously (paths may
/// contain colons but not NUL bytes).
pub fn worktree_key(session: &str, worktree_path: &str) -> (r: String)
    ensures
        r@ == spec_worktree_key(session@, worktree_path@),
{
    let mut key = String::from_str(session);
    key.append("\0");
    key.append(worktree_path);
    proof {
        reveal_strlit("\0");
    }
    assert(key@ =~= spec_worktree_key(session@, worktree_path@));
    key
}

/// Two keys are equal only for equal pairs, as long as neither session holds
/// a NUL.
pub proof fn lemma_worktree_key_injective(
    s1: Seq<char>,
    p1: Seq<char>,
    s2: Seq<char>,
    p2: Seq<char>,
)
    requires
        !s1.contains('\0'),
        !s2.contains('\0'),
        spec_worktree_key(s1, p1) == spec_worktree_key(s2, p2),
    ensures
        s1 == s2,
        p1 == p2,
{
    let k = spec_worktree_key(s1, p1);
    if s1.len() < s2.len() {
        assert(k[s1.len() as int] == '\0');
        assert(k[s1.len() as int] == s2[s1.len() as int]);
        assert(s2.contains('\0'));
    } else if s2.len() < s1.len() {
        assert(k[s2.len() as int] == '\0');
        assert(k[s2.len() as int] == s1[s2.len() as int]);
        assert(s1.contains('\0'));
    } else {
        assert(s1 =~= k.take(s1.len() as int));
        assert(s2 =~= k.take(s2.len() as int));
        assert(p1 =~= k.skip(s1.len() as int + 1));
        assert(p2 =~= k.skip(s2.len() as int + 1));
    }
}

/// Data source type for CLI selection.
#[derive(Debug, Clone, Copy, PartialEq, Eq, Structural)]
pub enum DataSourceType {
    /// tmux-based monitoring (the default).
    Tmux,
    /// Squad state file monitoring.
    Squad,
}

impl Default for DataSourceType {
    fn default() -> (r: Self)
        ensures
            r == DataSourceType::Tmux,
    {
        DataSourceType::Tmux
    }
}

/// The name of a data source type, as it is displayed and parsed.
pub open spec fn data_source_name(t: DataSourceType) -> Seq<char> {
    match t {
        DataSourceType::Tmux => "tmux"@,
        DataSourceType::Squad => "squad"@,
    }
}

/// What parsing gives for a name that is already lowercase.
pub open spec fn spec_data_source_from_lowercase(lower: Seq<char>) -> Result<DataSourceType, Seq<char>> {
    if lower == "tmux"@ {
        Ok(DataSourceType::Tmux)
    } else if lower == "squad"@ {
        Ok(DataSourceType::Squad)
    } else {
        Err("unknown data source: "@ + lower)
    }
}

/// The view of a parse result.
pub open spec fn parse_result_view(r: Result<DataSourceType, String>) -> Result<DataSourceType, Seq<char>> {
    match r {
        Ok(t) => Ok(t),
        Err(e) => Err(e@),
    }
}

impl DataSourceType {
    /// The displayed name: `tmux` or `squad`.
    pub fn to_string(&self) -> (r: String)
        ensures
            r@ == data_source_name(*self),
    {
        match self {
            DataSourceType::Tmux => String::from_str("tmux"),
            DataSourceType::Squad => String::from_str("squad"),
        }
    }

    /// Parses a name that is already lowercase.
    pub fn from_lowercase_name(lower: &str) -> (r: Result<DataSourceType, String>)
        ensures
            parse_result_view(r) == spec_data_source_from_lowercase(lower@),
    {
        let l = chars_of(lower);
        if chars_eq(l.as_slice(), chars_of("tmux").as_slice()) {
            Ok(DataSourceType::Tmux)
        } else if chars_eq(l.as_slice(), chars_of("squad").as_slice()) {
            Ok(DataSourceType::Squad)
        } else {
            let mut msg = String::from_str("unknown data source: ");
            msg.append(lower);
            Err(msg)
        }
    }

    /// Parses a data source name, ignoring case.
    pub fn from_name(s: &str) -> (r: Result<DataSourceType, String>)
        ensures
            parse_result_view(r) == spec_data_source_from_lowercase(lowercase(s@)),
    {
        let lower = to_lowercase(s);
        Self::from_lowercase_name(lower.as_str())
    }
}

impl std::str::FromStr for DataSourceType {
    type Err = String;

    fn from_str(s: &str) -> (r: Result<Self, Self::Err>)
        ensures
            parse_result_view(r) == spec_data_source_from_lowercase(lowercase(s@)),
    {
        Self::from_name(s)
    }
}

/// Parsing the displayed name of a data source type gives that type back.
pub proof fn lemma_data_source_name_roundtrip(t: DataSourceType)
    ensures
        spec_data_source_from_lowercase(data_source_name(t)) == Ok::<DataSourceType, Seq<char>>(t),
{
    reveal_strlit("tmux");
    reveal_strlit("squad");
    if t == DataSourceType::Squad {
        assert("squad"@[0] != "tmux"@[0]);
    }
}

} // verus!
