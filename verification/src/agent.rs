//! Agent status and the per-pane record handed to the sidebar.
use vstd::prelude::*;

verus! {

/// What an agent is doing, as far as the sidebar shows it.
#[derive(Debug, Clone, Copy, PartialEq, Eq, Structural)]
pub enum AgentStatus {
    /// The agent is busy.
    Working,
    /// The agent waits for a decision or is blocked.
    Waiting,
    /// The agent has finished (or failed).
    Done,
}

/// Priority of a status in a group aggregate: Working > Waiting > Done > none.
pub open spec fn status_rank(s: Option<AgentStatus>) -> int {
    match s {
        Some(AgentStatus::Working) => 3,
        Some(AgentStatus::Waiting) => 2,
        Some(AgentStatus::Done) => 1,
        None => 0,
    }
}

/// The aggregate of two statuses: whichever ranks higher.
pub open spec fn spec_combine_status(a: Option<AgentStatus>, b: Option<AgentStatus>) -> Option<
    AgentStatus,
> {
    if status_rank(a) >= status_rank(b) {
        a
    } else {
        b
    }
}

/// Combines two statuses into the group aggregate: Working > Waiting > Done > None.
pub fn combine_status(a: Option<AgentStatus>, b: Option<AgentStatus>) -> (r: Option<AgentStatus>)
    ensures
        r == spec_combine_status(a, b),
{
    match (a, b) {
        (Some(AgentStatus::Working), _) | (_, Some(AgentStatus::Working)) => {
            Some(AgentStatus::Working)
        },
        (Some(AgentStatus::Waiting), _) | (_, Some(AgentStatus::Waiting)) => {
            Some(AgentStatus::Waiting)
        },
        (Some(AgentStatus::Done), _) | (_, Some(AgentStatus::Done)) => Some(AgentStatus::Done),
        _ => None,
    }
}

/// Combining is commutative: the order in which two statuses meet does not matter.
pub proof fn lemma_combine_status_commutative(a: Option<AgentStatus>, b: Option<AgentStatus>)
    ensures
        spec_combine_status(a, b) == spec_combine_status(b, a),
{
}

/// Combining is associative: a group's aggregate does not depend on how its
/// panes are grouped.
pub proof fn lemma_combine_status_associative(
    a: Option<AgentStatus>,
    b: Option<AgentStatus>,
    c: Option<AgentStatus>,
)
    ensures
        spec_combine_status(spec_combine_status(a, b), c) == spec_combine_status(
            a,
            spec_combine_status(b, c),
        ),
{
}

/// No status is the neutral element, and combining a status with itself gives it back.
pub proof fn lemma_combine_status_identity(a: Option<AgentStatus>)
    ensures
        spec_combine_status(None, a) == a,
        spec_combine_status(a, None) == a,
        spec_combine_status(a, a) == a,
{
}

/// The aggregate of a sequence of statuses, folded from the left starting at none.
pub open spec fn aggregate(statuses: Seq<Option<AgentStatus>>) -> Option<AgentStatus>
    decreases statuses.len(),
{
    if statuses.len() == 0 {
        None
    } else {
        spec_combine_status(aggregate(statuses.drop_last()), statuses.last())
    }
}

/// The aggregate is the highest-ranking status present, and none only when
/// every status is none.
pub proof fn lemma_aggregate_is_highest(statuses: Seq<Option<AgentStatus>>)
    ensures
        forall|i: int|
            0 <= i < statuses.len() ==> status_rank(#[trigger] statuses[i]) <= status_rank(
                aggregate(statuses),
            ),
        aggregate(statuses) is None || exists|i: int|
            0 <= i < statuses.len() && statuses[i] == aggregate(statuses),
    decreases statuses.len(),
{
    if statuses.len() > 0 {
        let init = statuses.drop_last();
        lemma_aggregate_is_highest(init);
        assert forall|i: int|
            0 <= i < statuses.len() implies status_rank(#[trigger] statuses[i]) <= status_rank(
                aggregate(statuses),
            ) by {
            if i < statuses.len() - 1 {
                assert(statuses[i] == init[i]);
            }
        }
        if aggregate(statuses) is Some {
            if aggregate(statuses) == statuses.last() {
                assert(statuses[statuses.len() - 1] == aggregate(statuses));
            } else {
                let j = choose|j: int| 0 <= j < init.len() && init[j] == aggregate(init);
                assert(statuses[j] == aggregate(statuses));
            }
        }
    }
}

/// The aggregate of two concatenated sequences combines their aggregates.
pub proof fn lemma_aggregate_concat(a: Seq<Option<AgentStatus>>, b: Seq<Option<AgentStatus>>)
    ensures
        aggregate(a + b) == spec_combine_status(aggregate(a), aggregate(b)),
    decreases b.len(),
{
    if b.len() == 0 {
        assert(a + b =~= a);
    } else {
        assert((a + b).drop_last() =~= a + b.drop_last());
        lemma_aggregate_concat(a, b.drop_last());
    }
}

/// One agent pane as the sidebar lists it.
#[derive(Debug, Clone)]
pub struct AgentPane {
    /// Session the pane belongs to.
    pub session: String,
    /// Window name within the session.
    pub window_name: String,
    /// Pane identifier used for focusing.
    pub pane_id: String,
    /// Window identifier, where the source knows one.
    pub window_id: String,
    /// Window index, where the source knows one.
    pub window_index: Option<u32>,
    /// Working directory of the agent.
    pub path: String,
    /// Title shown for the pane.
    pub pane_title: Option<String>,
    /// Mapped agent status.
    pub status: Option<AgentStatus>,
    /// When the status last changed (Unix seconds).
    pub status_ts: Option<u64>,
    /// When the pane was last updated (Unix seconds).
    pub updated_ts: Option<u64>,
    /// Command running in the window.
    pub window_cmd: Option<String>,
    /// Composite command line of the agent.
    pub agent_command: Option<String>,
    /// Agent identity.
    pub agent_kind: Option<String>,
}

} // verus!
