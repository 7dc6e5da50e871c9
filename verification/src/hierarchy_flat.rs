//! The hierarchy read as the flat list that the sidebar draws: each session
//! row counts and aggregates the rows up to the next session row, each
//! worktree row counts, aggregates and owns the pane rows right after it.
use vstd::prelude::*;

use crate::agent::{aggregate, AgentStatus};
use crate::data_source::SidebarEntryView;
use crate::hierarchy::{
    all_groups, group_key, group_panes, in_group, pane_rows, pane_statuses, session_block,
    session_blocks, session_groups, session_names, session_panes, spec_build_hierarchy,
    worktree_block, worktree_blocks,
};
use crate::hierarchy_laws::pane_row_count;
use crate::sort::lemma_sort_elems;
use crate::squad::{spec_pane_entry, SquadMetaView, WindowStateEntryView, WorktreeGroupView};

verus! {

// ---------------------------------------------------------------------------
// Reading the flat list
// ---------------------------------------------------------------------------

/// The pane rows at the front of `rows`, up to the first other row.
pub open spec fn leading_panes(rows: Seq<SidebarEntryView>) -> Seq<SidebarEntryView>
    decreases rows.len(),
{
    if rows.len() > 0 && rows[0] is Pane {
        seq![rows[0]] + leading_panes(rows.skip(1))
    } else {
        Seq::empty()
    }
}

/// The rows at the front of `rows`, up to the first session row.
pub open spec fn until_next_session(rows: Seq<SidebarEntryView>) -> Seq<SidebarEntryView>
    decreases rows.len(),
{
    if rows.len() > 0 && !(rows[0] is Session) {
        seq![rows[0]] + until_next_session(rows.skip(1))
    } else {
        Seq::empty()
    }
}

/// The statuses of the pane rows of `rows`, in order.
pub open spec fn row_statuses(rows: Seq<SidebarEntryView>) -> Seq<Option<AgentStatus>>
    decreases rows.len(),
{
    if rows.len() == 0 {
        Seq::empty()
    } else {
        let init = row_statuses(rows.drop_last());
        match rows.last() {
            SidebarEntryView::Pane { status, .. } => init.push(status),
            _ => init,
        }
    }
}

/// The sum of the task counts of the worktree rows of `rows`.
pub open spec fn worktree_count_sum(rows: Seq<SidebarEntryView>) -> nat
    decreases rows.len(),
{
    if rows.len() == 0 {
        0
    } else {
        worktree_count_sum(rows.drop_last()) + match rows.last() {
            SidebarEntryView::Worktree { task_count, .. } => task_count,
            _ => 0nat,
        }
    }
}

/// `row` is the pane row of a window-states row of group `(s, p)`.
pub open spec fn pane_of_group(
    es: Seq<WindowStateEntryView>,
    metas: Map<Seq<char>, SquadMetaView>,
    s: Seq<char>,
    p: Seq<char>,
    row: SidebarEntryView,
) -> bool {
    exists|k: int|
        0 <= k < es.len() && group_key(es[k], metas) == (s, p) && row == spec_pane_entry(
            #[trigger] es[k],
            metas,
        )
}

/// The worktree row at `i`, if it is one, counts and aggregates the pane rows
/// right after it, and each of them belongs to its session and worktree.
pub open spec fn worktree_row_ok(
    rows: Seq<SidebarEntryView>,
    es: Seq<WindowStateEntryView>,
    metas: Map<Seq<char>, SquadMetaView>,
    i: int,
) -> bool {
    let run = leading_panes(rows.skip(i + 1));
    match rows[i] {
        SidebarEntryView::Worktree { session, worktree_path, task_count, aggregate_status, .. } => {
            &&& task_count == run.len()
            &&& aggregate_status == aggregate(row_statuses(run))
            &&& forall|j: int|
                0 <= j < run.len() ==> pane_of_group(es, metas, session, worktree_path, #[trigger] run[j])
        },
        _ => true,
    }
}

/// The session row at `i`, if it is one, counts and aggregates the pane rows
/// up to the next session row, its task count is also the sum of the counts
/// of the worktree rows there, and all those rows are of its session.
pub open spec fn session_row_ok(rows: Seq<SidebarEntryView>, i: int) -> bool {
    let sec = until_next_session(rows.skip(i + 1));
    match rows[i] {
        SidebarEntryView::Session { session, task_count, aggregate_status, .. } => {
            &&& task_count == pane_row_count(sec)
            &&& task_count == worktree_count_sum(sec)
            &&& aggregate_status == aggregate(row_statuses(sec))
            &&& forall|j: int| 0 <= j < sec.len() ==> (#[trigger] sec[j]).session() == session
        },
        _ => true,
    }
}

/// Every worktree and session row of `rows` is right, and no pane row comes
/// straight after a session row.
pub open spec fn rows_ok(
    rows: Seq<SidebarEntryView>,
    es: Seq<WindowStateEntryView>,
    metas: Map<Seq<char>, SquadMetaView>,
) -> bool {
    &&& forall|i: int| 0 <= i < rows.len() ==> #[trigger] worktree_row_ok(rows, es, metas, i)
    &&& forall|i: int| 0 <= i < rows.len() ==> #[trigger] session_row_ok(rows, i)
    &&& forall|i: int|
        #![trigger rows[i]]
        0 < i < rows.len() && rows[i] is Pane ==> !(rows[i - 1] is Session)
}

// ---------------------------------------------------------------------------
// Lemmas on the readings
// ---------------------------------------------------------------------------

proof fn lemma_leading_panes_concat(x: Seq<SidebarEntryView>, y: Seq<SidebarEntryView>)
    requires
        y.len() == 0 || !(y[0] is Pane),
    ensures
        leading_panes(x + y) == leading_panes(x),
    decreases x.len(),
{
    if x.len() == 0 {
        assert(x + y =~= y);
    } else {
        assert((x + y)[0] == x[0]);
        if x[0] is Pane {
            assert((x + y).skip(1) =~= x.skip(1) + y);
            lemma_leading_panes_concat(x.skip(1), y);
        }
    }
}

proof fn lemma_leading_panes_all(x: Seq<SidebarEntryView>)
    requires
        forall|i: int| 0 <= i < x.len() ==> (#[trigger] x[i]) is Pane,
    ensures
        leading_panes(x) == x,
    decreases x.len(),
{
    if x.len() > 0 {
        assert forall|i: int| 0 <= i < x.skip(1).len() implies (#[trigger] x.skip(1)[i]) is Pane by {
            assert(x.skip(1)[i] == x[i + 1]);
        }
        lemma_leading_panes_all(x.skip(1));
        assert(seq![x[0]] + x.skip(1) =~= x);
    }
}

proof fn lemma_until_session_concat(x: Seq<SidebarEntryView>, y: Seq<SidebarEntryView>)
    requires
        y.len() == 0 || y[0] is Session,
    ensures
        until_next_session(x + y) == until_next_session(x),
    decreases x.len(),
{
    if x.len() == 0 {
        assert(x + y =~= y);
    } else {
        assert((x + y)[0] == x[0]);
        if !(x[0] is Session) {
            assert((x + y).skip(1) =~= x.skip(1) + y);
            lemma_until_session_concat(x.skip(1), y);
        }
    }
}

proof fn lemma_until_session_all(x: Seq<SidebarEntryView>)
    requires
        forall|i: int| 0 <= i < x.len() ==> !((#[trigger] x[i]) is Session),
    ensures
        until_next_session(x) == x,
    decreases x.len(),
{
    if x.len() > 0 {
        assert forall|i: int| 0 <= i < x.skip(1).len() implies !((#[trigger] x.skip(1)[i]) is Session) by {
            assert(x.skip(1)[i] == x[i + 1]);
        }
        lemma_until_session_all(x.skip(1));
        assert(seq![x[0]] + x.skip(1) =~= x);
    }
}

proof fn lemma_row_sums_concat(a: Seq<SidebarEntryView>, b: Seq<SidebarEntryView>)
    ensures
        row_statuses(a + b) == row_statuses(a) + row_statuses(b),
        worktree_count_sum(a + b) == worktree_count_sum(a) + worktree_count_sum(b),
    decreases b.len(),
{
    if b.len() == 0 {
        assert(a + b =~= a);
        assert(row_statuses(a) + row_statuses(b) =~= row_statuses(a));
    } else {
        assert((a + b).drop_last() =~= a + b.drop_last());
        lemma_row_sums_concat(a, b.drop_last());
        assert((a + b).last() == b.last());
        match b.last() {
            SidebarEntryView::Pane { status, .. } => {
                assert(row_statuses(a) + row_statuses(b) =~= (row_statuses(a) + row_statuses(
                    b.drop_last(),
                )).push(status));
            },
            _ => {},
        }
    }
}

proof fn lemma_pane_statuses_concat(a: Seq<WindowStateEntryView>, b: Seq<WindowStateEntryView>)
    ensures
        pane_statuses(a + b) == pane_statuses(a) + pane_statuses(b),
    decreases b.len(),
{
    if b.len() == 0 {
        assert(a + b =~= a);
        assert(pane_statuses(a) + pane_statuses(b) =~= pane_statuses(a));
    } else {
        assert((a + b).drop_last() =~= a + b.drop_last());
        lemma_pane_statuses_concat(a, b.drop_last());
        assert((a + b).last() == b.last());
        assert(pane_statuses(a) + pane_statuses(b) =~= (pane_statuses(a) + pane_statuses(
            b.drop_last(),
        )).push(crate::squad::spec_map_status(b.last().label)));
    }
}

pub(crate) proof fn lemma_pane_rows_len(panes: Seq<WindowStateEntryView>, m: Map<Seq<char>, SquadMetaView>)
    ensures
        pane_rows(panes, m).len() == panes.len(),
{
    lemma_pane_rows_facts(panes, m);
}

pub(crate) proof fn lemma_pane_rows_facts(panes: Seq<WindowStateEntryView>, m: Map<Seq<char>, SquadMetaView>)
    ensures
        pane_rows(panes, m).len() == panes.len(),
        forall|j: int|
            0 <= j < panes.len() ==> #[trigger] pane_rows(panes, m)[j] == spec_pane_entry(
                panes[j],
                m,
            ),
        row_statuses(pane_rows(panes, m)) == pane_statuses(panes),
        worktree_count_sum(pane_rows(panes, m)) == 0,
    decreases panes.len(),
{
    if panes.len() > 0 {
        lemma_pane_rows_facts(panes.drop_last(), m);
        let r = pane_rows(panes, m);
        assert(r.drop_last() =~= pane_rows(panes.drop_last(), m));
        assert forall|j: int| 0 <= j < panes.len() implies #[trigger] pane_rows(panes, m)[j]
            == spec_pane_entry(panes[j], m) by {
            if j < panes.len() - 1 {
                assert(r[j] == r.drop_last()[j]);
                assert(panes[j] == panes.drop_last()[j]);
            }
        }
    }
}

pub(crate) proof fn lemma_in_group_members(
    es: Seq<WindowStateEntryView>,
    m: Map<Seq<char>, SquadMetaView>,
    s: Seq<char>,
    p: Seq<char>,
)
    ensures
        forall|x: WindowStateEntryView|
            #[trigger] in_group(es, m, s, p).contains(x) ==> group_key(x, m) == (s, p)
                && es.contains(x),
    decreases es.len(),
{
    if es.len() > 0 {
        let init = es.drop_last();
        lemma_in_group_members(init, m, s, p);
        assert forall|x: WindowStateEntryView| #[trigger] in_group(es, m, s, p).contains(x) implies group_key(x, m) == (s, p)
            && es.contains(x) by {
            let g = in_group(es, m, s, p);
            let k = choose|k: int| 0 <= k < g.len() && g[k] == x;
            if group_key(es.last(), m) == (s, p) && k == g.len() - 1 {
                assert(es[es.len() - 1] == x);
            } else {
                assert(in_group(init, m, s, p)[k] == x);
                assert(in_group(init, m, s, p).contains(x));
                let q = choose|q: int| 0 <= q < init.len() && init[q] == x;
                assert(es[q] == x);
            }
        }
    }
}

// ---------------------------------------------------------------------------
// Blocks
// ---------------------------------------------------------------------------

proof fn lemma_worktree_block_facts(
    es: Seq<WindowStateEntryView>,
    m: Map<Seq<char>, SquadMetaView>,
    s: Seq<char>,
    g: WorktreeGroupView,
)
    ensures
        ({
            let wb = worktree_block(es, m, s, g);
            let panes = group_panes(es, m, s, g.worktree_path);
            &&& rows_ok(wb, es, m)
            &&& wb.len() >= 1
            &&& wb[0] is Worktree
            &&& forall|i: int|
                0 <= i < wb.len() ==> !((#[trigger] wb[i]) is Session) && wb[i].session() == s
            &&& row_statuses(wb) == pane_statuses(panes)
            &&& worktree_count_sum(wb) == panes.len()
        }),
{
    let wb = worktree_block(es, m, s, g);
    let p = g.worktree_path;
    let panes = group_panes(es, m, s, p);
    let head = wb.take(1);
    let rows = pane_rows(panes, m);
    assert(wb =~= head + rows);
    lemma_pane_rows_facts(panes, m);
    lemma_in_group_members(es, m, s, p);
    lemma_sort_elems(in_group(es, m, s, p), crate::hierarchy::id_order());
    // Each pane belongs to the group.
    assert forall|j: int| 0 <= j < panes.len() implies group_key(#[trigger] panes[j], m) == (s, p)
        && es.contains(panes[j]) by {
        assert(panes.contains(panes[j]));
        assert(in_group(es, m, s, p).contains(panes[j]));
    }
    assert forall|i: int| 0 <= i < wb.len() implies !((#[trigger] wb[i]) is Session) && wb[i].session()
        == s by {
        if i > 0 {
            assert(wb[i] == rows[i - 1]);
            assert(rows[i - 1] == spec_pane_entry(panes[i - 1], m));
            assert(group_key(panes[i - 1], m) == (s, p));
        }
    }
    // The readings.
    lemma_row_sums_concat(head, rows);
    assert(head.drop_last() =~= Seq::<SidebarEntryView>::empty());
    assert(head.last() == wb[0]);
    assert(wb[0] is Worktree);
    assert(row_statuses(head.drop_last()) =~= Seq::<Option<AgentStatus>>::empty());
    assert(worktree_count_sum(head.drop_last()) == 0);
    assert(row_statuses(head) =~= Seq::<Option<AgentStatus>>::empty());
    assert(row_statuses(head) + row_statuses(rows) =~= row_statuses(rows));
    assert(worktree_count_sum(head) == panes.len());
    // Row 0.
    assert(wb.skip(1) =~= rows);
    assert forall|j: int| 0 <= j < rows.len() implies (#[trigger] rows[j]) is Pane by {
        assert(rows[j] == spec_pane_entry(panes[j], m));
    }
    lemma_leading_panes_all(rows);
    assert forall|j: int| 0 <= j < rows.len() implies pane_of_group(es, m, s, p, #[trigger] rows[j]) by {
        assert(es.contains(panes[j]));
        let k = choose|k: int| 0 <= k < es.len() && es[k] == panes[j];
        assert(group_key(es[k], m) == (s, p) && rows[j] == spec_pane_entry(es[k], m));
    }
    assert(worktree_row_ok(wb, es, m, 0));
    assert forall|i: int| 0 <= i < wb.len() implies #[trigger] worktree_row_ok(wb, es, m, i) by {
        if i > 0 {
            assert(wb[i] == rows[i - 1]);
        }
    }
    assert forall|i: int| 0 <= i < wb.len() implies #[trigger] session_row_ok(wb, i) by {
        if i > 0 {
            assert(wb[i] == rows[i - 1]);
        }
    }
    assert forall|i: int|
        #![trigger wb[i]]
        0 < i < wb.len() && wb[i] is Pane implies !(wb[i - 1] is Session) by {
        if i > 1 {
            assert(wb[i - 1] == rows[i - 2]);
        }
    }
}

/// `rows_ok` of a concatenation, where the second part starts a new session,
/// or starts a new worktree after a part without session rows.
proof fn lemma_rows_ok_concat(
    a: Seq<SidebarEntryView>,
    b: Seq<SidebarEntryView>,
    es: Seq<WindowStateEntryView>,
    m: Map<Seq<char>, SquadMetaView>,
)
    requires
        rows_ok(a, es, m),
        rows_ok(b, es, m),
        b.len() == 0 || b[0] is Session || (b[0] is Worktree && forall|i: int|
            0 <= i < a.len() ==> !((#[trigger] a[i]) is Session)),
    ensures
        rows_ok(a + b, es, m),
{
    let r = a + b;
    assert forall|i: int| 0 <= i < r.len() implies #[trigger] worktree_row_ok(r, es, m, i)
        && session_row_ok(r, i) by {
        if i < a.len() {
            assert(r[i] == a[i]);
            assert(r.skip(i + 1) =~= a.skip(i + 1) + b);
            lemma_leading_panes_concat(a.skip(i + 1), b);
            assert(worktree_row_ok(a, es, m, i));
            assert(session_row_ok(a, i));
            if b.len() == 0 || b[0] is Session {
                lemma_until_session_concat(a.skip(i + 1), b);
            }
        } else {
            let k = i - a.len();
            assert(r[i] == b[k]);
            assert(r.skip(i + 1) =~= b.skip(k + 1));
            assert(worktree_row_ok(b, es, m, k));
            assert(session_row_ok(b, k));
        }
    }
    assert forall|i: int| 0 <= i < r.len() implies #[trigger] session_row_ok(r, i) by {
        assert(worktree_row_ok(r, es, m, i) && session_row_ok(r, i));
    }
    assert forall|i: int|
        #![trigger r[i]]
        0 < i < r.len() && r[i] is Pane implies !(r[i - 1] is Session) by {
        if i < a.len() {
            assert(r[i] == a[i] && r[i - 1] == a[i - 1]);
        } else if i == a.len() {
            assert(r[i] == b[0]);
        } else {
            assert(r[i] == b[i - a.len()] && r[i - 1] == b[i - 1 - a.len()]);
        }
    }
}

proof fn lemma_worktree_blocks_facts(
    es: Seq<WindowStateEntryView>,
    m: Map<Seq<char>, SquadMetaView>,
    s: Seq<char>,
    sgs: Seq<WorktreeGroupView>,
)
    ensures
        ({
            let wbs = worktree_blocks(es, m, s, sgs);
            let panes = session_panes(es, m, s, sgs);
            &&& rows_ok(wbs, es, m)
            &&& wbs.len() > 0 ==> wbs[0] is Worktree
            &&& forall|i: int|
                0 <= i < wbs.len() ==> !((#[trigger] wbs[i]) is Session) && wbs[i].session() == s
            &&& row_statuses(wbs) == pane_statuses(panes)
            &&& worktree_count_sum(wbs) == panes.len()
        }),
    decreases sgs.len(),
{
    let wbs = worktree_blocks(es, m, s, sgs);
    if sgs.len() == 0 {
        assert(wbs.len() == 0);
        assert(row_statuses(wbs) =~= pane_statuses(session_panes(es, m, s, sgs)));
    } else {
        let init = sgs.drop_last();
        let a = worktree_blocks(es, m, s, init);
        let b = worktree_block(es, m, s, sgs.last());
        lemma_worktree_blocks_facts(es, m, s, init);
        lemma_worktree_block_facts(es, m, s, sgs.last());
        lemma_rows_ok_concat(a, b, es, m);
        lemma_row_sums_concat(a, b);
        lemma_pane_statuses_concat(
            session_panes(es, m, s, init),
            group_panes(es, m, s, sgs.last().worktree_path),
        );
        assert forall|i: int| 0 <= i < wbs.len() implies !((#[trigger] wbs[i]) is Session)
            && wbs[i].session() == s by {
            if i < a.len() {
                assert(wbs[i] == a[i]);
            } else {
                assert(wbs[i] == b[i - a.len()]);
            }
        }
        if a.len() > 0 {
            assert(wbs[0] == a[0]);
        } else {
            assert(wbs[0] == b[0]);
        }
    }
}

proof fn lemma_session_block_facts(
    es: Seq<WindowStateEntryView>,
    m: Map<Seq<char>, SquadMetaView>,
    gs: Seq<WorktreeGroupView>,
    s: Seq<char>,
)
    ensures
        rows_ok(session_block(es, m, gs, s), es, m),
        session_block(es, m, gs, s)[0] is Session,
{
    let sb = session_block(es, m, gs, s);
    let sgs = session_groups(gs, s);
    let wbs = worktree_blocks(es, m, s, sgs);
    let panes = session_panes(es, m, s, sgs);
    assert(sb =~= sb.take(1) + wbs);
    lemma_worktree_blocks_facts(es, m, s, sgs);
    crate::hierarchy_laws::lemma_worktree_blocks_summary(es, m, s, sgs);
    // Row 0.
    assert(sb.skip(1) =~= wbs);
    lemma_until_session_all(wbs);
    assert(session_row_ok(sb, 0));
    assert forall|i: int| 0 <= i < sb.len() implies #[trigger] worktree_row_ok(sb, es, m, i)
        && session_row_ok(sb, i) by {
        if i > 0 {
            assert(sb[i] == wbs[i - 1]);
            assert(sb.skip(i + 1) =~= wbs.skip(i));
            assert(worktree_row_ok(wbs, es, m, i - 1));
            assert(session_row_ok(wbs, i - 1));
        }
    }
    assert forall|i: int| 0 <= i < sb.len() implies #[trigger] session_row_ok(sb, i) by {
        assert(worktree_row_ok(sb, es, m, i) && session_row_ok(sb, i));
    }
    assert forall|i: int|
        #![trigger sb[i]]
        0 < i < sb.len() && sb[i] is Pane implies !(sb[i - 1] is Session) by {
        assert(sb[i] == wbs[i - 1]);
        if i > 1 {
            assert(sb[i - 1] == wbs[i - 2]);
        }
    }
}

proof fn lemma_session_blocks_facts(
    es: Seq<WindowStateEntryView>,
    m: Map<Seq<char>, SquadMetaView>,
    gs: Seq<WorktreeGroupView>,
    names: Seq<Seq<char>>,
)
    ensures
        rows_ok(session_blocks(es, m, gs, names), es, m),
        names.len() > 0 ==> session_blocks(es, m, gs, names)[0] is Session,
    decreases names.len(),
{
    if names.len() == 0 {
        assert(session_blocks(es, m, gs, names).len() == 0);
    } else {
        let a = session_blocks(es, m, gs, names.drop_last());
        let b = session_block(es, m, gs, names.last());
        lemma_session_blocks_facts(es, m, gs, names.drop_last());
        lemma_session_block_facts(es, m, gs, names.last());
        lemma_rows_ok_concat(a, b, es, m);
        if a.len() > 0 {
            assert((a + b)[0] == a[0]);
        } else {
            assert((a + b)[0] == b[0]);
        }
    }
}

/// The rows of a session's worktree blocks are no session rows.
pub(crate) proof fn lemma_worktree_blocks_no_sessions(
    es: Seq<WindowStateEntryView>,
    m: Map<Seq<char>, SquadMetaView>,
    s: Seq<char>,
    sgs: Seq<WorktreeGroupView>,
)
    ensures
        forall|i: int|
            0 <= i < worktree_blocks(es, m, s, sgs).len() ==> !((#[trigger] worktree_blocks(
                es,
                m,
                s,
                sgs,
            )[i]) is Session),
{
    lemma_worktree_blocks_facts(es, m, s, sgs);
}

// ---------------------------------------------------------------------------
// Laws
// ---------------------------------------------------------------------------

/// The hierarchy read as a flat list: it starts with a session row; no pane
/// row follows a session row straight away; each worktree row's task count
/// is the number of pane rows right after it, its aggregate status is the
/// aggregate of their statuses, and each of them is the pane row of a
/// window-states row of that session and worktree; each session row's task
/// count is the number of pane rows up to the next session row and the sum of
/// the counts of the worktree rows there, its aggregate status is the
/// aggregate of those panes' statuses, and every row there is of its session.
pub proof fn lemma_flat_layout(
    ws: Seq<WorktreeGroupView>,
    es: Seq<WindowStateEntryView>,
    metas: Map<Seq<char>, SquadMetaView>,
)
    ensures
        rows_ok(spec_build_hierarchy(ws, es, metas), es, metas),
        spec_build_hierarchy(ws, es, metas).len() > 0 ==> spec_build_hierarchy(ws, es, metas)[0] is Session,
{
    let gs = all_groups(ws, es, metas);
    lemma_session_blocks_facts(es, metas, gs, session_names(gs));
    if session_names(gs).len() == 0 {
        assert(spec_build_hierarchy(ws, es, metas).len() == 0);
    }
}

} // verus!
