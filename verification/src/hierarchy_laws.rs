//! What holds of every hierarchy: sessions listed once each in name order,
//! exactly the sessions of the groups and rows given, every task listed (once,
//! when the published groups are distinct), every published group listed,
//! session labels, worktrees in path order, panes in task-id order, counts
//! that match the rows listed, and a result that does not depend on the order
//! of the inputs.
use vstd::prelude::*;

use crate::data_source::SidebarEntryView;
use crate::hierarchy::{
    all_groups, distinct_sessions, group_key, group_panes, id_order, in_group,
    in_session, is_published, keys_in_order, name_order, pane_rows, path_order, session_block,
    session_blocks, session_groups, session_names, session_panes, spec_build_hierarchy,
    spec_derive_worktree_groups, derived_group, unpublished, worktree_block, worktree_blocks,
    entry_session, first_label, pane_statuses,
};
use crate::agent::aggregate;
use crate::sort::{
    lemma_perm_distinct_by, lemma_sorted_unique, lemma_sort_map, lemma_sort_distinct_by, lemma_sort_multiset, lemma_sort_elems, lemma_sort_no_duplicates, lemma_sort_sorted, pair_order, sort_stable,
    sorted_by, total_preorder,
};
use crate::squad::{spec_pane_entry, SquadMetaView, WindowStateEntryView, WorktreeGroupView};
use crate::text::{lemma_seq_le_total_order, seq_le, seq_lt};

verus! {

// ---------------------------------------------------------------------------
// Row summaries
// ---------------------------------------------------------------------------

/// The names of the session rows of `rows`, in order.
pub open spec fn session_row_names(rows: Seq<SidebarEntryView>) -> Seq<Seq<char>>
    decreases rows.len(),
{
    if rows.len() == 0 {
        Seq::empty()
    } else {
        let init = session_row_names(rows.drop_last());
        match rows.last() {
            SidebarEntryView::Session { session, .. } => init.push(session),
            _ => init,
        }
    }
}

/// The number of pane rows in `rows`.
pub open spec fn pane_row_count(rows: Seq<SidebarEntryView>) -> nat
    decreases rows.len(),
{
    if rows.len() == 0 {
        0
    } else {
        pane_row_count(rows.drop_last()) + if rows.last() is Pane {
            1nat
        } else {
            0nat
        }
    }
}

proof fn lemma_summaries_concat(a: Seq<SidebarEntryView>, b: Seq<SidebarEntryView>)
    ensures
        session_row_names(a + b) == session_row_names(a) + session_row_names(b),
        pane_row_count(a + b) == pane_row_count(a) + pane_row_count(b),
    decreases b.len(),
{
    if b.len() == 0 {
        assert(a + b =~= a);
        assert(session_row_names(a) + session_row_names(b) =~= session_row_names(a));
    } else {
        assert((a + b).drop_last() =~= a + b.drop_last());
        lemma_summaries_concat(a, b.drop_last());
        assert((a + b).last() == b.last());
        match b.last() {
            SidebarEntryView::Session { session, .. } => {
                assert(session_row_names(a) + session_row_names(b) =~= (session_row_names(a)
                    + session_row_names(b.drop_last())).push(session));
            },
            _ => {},
        }
    }
}

proof fn lemma_pane_rows_summary(panes: Seq<WindowStateEntryView>, m: Map<Seq<char>, SquadMetaView>)
    ensures
        session_row_names(pane_rows(panes, m)) == Seq::<Seq<char>>::empty(),
        pane_row_count(pane_rows(panes, m)) == panes.len(),
    decreases panes.len(),
{
    if panes.len() > 0 {
        lemma_pane_rows_summary(panes.drop_last(), m);
        let r = pane_rows(panes, m);
        assert(r.drop_last() =~= pane_rows(panes.drop_last(), m));
    }
}

proof fn lemma_worktree_block_summary(
    es: Seq<WindowStateEntryView>,
    m: Map<Seq<char>, SquadMetaView>,
    s: Seq<char>,
    g: WorktreeGroupView,
)
    ensures
        session_row_names(worktree_block(es, m, s, g)) == Seq::<Seq<char>>::empty(),
        pane_row_count(worktree_block(es, m, s, g)) == group_panes(es, m, s, g.worktree_path).len(),
{
    let panes = group_panes(es, m, s, g.worktree_path);
    let head = worktree_block(es, m, s, g).take(1);
    lemma_pane_rows_summary(panes, m);
    assert(worktree_block(es, m, s, g) =~= head + pane_rows(panes, m));
    lemma_summaries_concat(head, pane_rows(panes, m));
    assert(head.len() == 1);
    assert(head.drop_last().len() == 0);
    assert(session_row_names(head.drop_last()).len() == 0);
    assert(pane_row_count(head.drop_last()) == 0);
    assert(head.last() is Worktree);
    assert(session_row_names(head) =~= Seq::<Seq<char>>::empty());
    assert(pane_row_count(head) == 0);
    assert(Seq::<Seq<char>>::empty() + Seq::<Seq<char>>::empty() =~= Seq::<Seq<char>>::empty());
}

pub(crate) proof fn lemma_worktree_blocks_summary(
    es: Seq<WindowStateEntryView>,
    m: Map<Seq<char>, SquadMetaView>,
    s: Seq<char>,
    sgs: Seq<WorktreeGroupView>,
)
    ensures
        session_row_names(worktree_blocks(es, m, s, sgs)) == Seq::<Seq<char>>::empty(),
        pane_row_count(worktree_blocks(es, m, s, sgs)) == session_panes(es, m, s, sgs).len(),
    decreases sgs.len(),
{
    if sgs.len() > 0 {
        lemma_worktree_blocks_summary(es, m, s, sgs.drop_last());
        lemma_worktree_block_summary(es, m, s, sgs.last());
        lemma_summaries_concat(
            worktree_blocks(es, m, s, sgs.drop_last()),
            worktree_block(es, m, s, sgs.last()),
        );
    }
}

proof fn lemma_session_block_summary(
    es: Seq<WindowStateEntryView>,
    m: Map<Seq<char>, SquadMetaView>,
    gs: Seq<WorktreeGroupView>,
    s: Seq<char>,
)
    ensures
        session_row_names(session_block(es, m, gs, s)) == seq![s],
        pane_row_count(session_block(es, m, gs, s)) == session_panes(
            es,
            m,
            s,
            session_groups(gs, s),
        ).len(),
{
    let sgs = session_groups(gs, s);
    let block = session_block(es, m, gs, s);
    let head = block.take(1);
    let rest = worktree_blocks(es, m, s, sgs);
    assert(block =~= head + rest);
    lemma_worktree_blocks_summary(es, m, s, sgs);
    lemma_summaries_concat(head, rest);
    assert(head.len() == 1);
    assert(head.drop_last().len() == 0);
    assert(session_row_names(head.drop_last()).len() == 0);
    assert(pane_row_count(head.drop_last()) == 0);
    assert(head.last() is Session);
    assert(session_row_names(head) =~= seq![s]);
    assert(pane_row_count(head) == 0);
    assert(seq![s] + Seq::<Seq<char>>::empty() =~= seq![s]);
}

proof fn lemma_session_blocks_names(
    es: Seq<WindowStateEntryView>,
    m: Map<Seq<char>, SquadMetaView>,
    gs: Seq<WorktreeGroupView>,
    names: Seq<Seq<char>>,
)
    ensures
        session_row_names(session_blocks(es, m, gs, names)) == names,
    decreases names.len(),
{
    if names.len() == 0 {
        assert(session_row_names(session_blocks(es, m, gs, names)) =~= names);
    } else {
        lemma_session_blocks_names(es, m, gs, names.drop_last());
        lemma_session_block_summary(es, m, gs, names.last());
        lemma_summaries_concat(
            session_blocks(es, m, gs, names.drop_last()),
            session_block(es, m, gs, names.last()),
        );
        assert(names.drop_last() + seq![names.last()] =~= names);
    }
}

// ---------------------------------------------------------------------------
// Counts
// ---------------------------------------------------------------------------

/// A worktree row counts exactly the pane rows listed under it.
pub proof fn lemma_worktree_task_count(
    es: Seq<WindowStateEntryView>,
    metas: Map<Seq<char>, SquadMetaView>,
    s: Seq<char>,
    g: WorktreeGroupView,
)
    ensures
        worktree_block(es, metas, s, g)[0] matches SidebarEntryView::Worktree { task_count, .. }
            && task_count == pane_row_count(worktree_block(es, metas, s, g)),
{
    lemma_worktree_block_summary(es, metas, s, g);
}

/// A session row counts exactly the pane rows listed under it.
pub proof fn lemma_session_task_count(
    es: Seq<WindowStateEntryView>,
    metas: Map<Seq<char>, SquadMetaView>,
    gs: Seq<WorktreeGroupView>,
    s: Seq<char>,
)
    ensures
        session_block(es, metas, gs, s)[0] matches SidebarEntryView::Session { task_count, .. }
            && task_count == pane_row_count(session_block(es, metas, gs, s)),
{
    lemma_session_block_summary(es, metas, gs, s);
}

// ---------------------------------------------------------------------------
// Order
// ---------------------------------------------------------------------------

proof fn lemma_orders_total()
    ensures
        total_preorder(name_order()),
        total_preorder(path_order()),
        total_preorder(id_order()),
{
    lemma_seq_le_total_order();
    assert forall|a: WorktreeGroupView, b: WorktreeGroupView, c: WorktreeGroupView|
        #[trigger] path_order()(a, b) && #[trigger] path_order()(b, c) implies path_order()(a, c) by {
        assert(seq_le(a.worktree_path, b.worktree_path) && seq_le(b.worktree_path, c.worktree_path));
    }
    assert forall|a: WorktreeGroupView, b: WorktreeGroupView|
        #[trigger] path_order()(a, b) || path_order()(b, a) by {
        assert(seq_le(a.worktree_path, b.worktree_path) || seq_le(b.worktree_path, a.worktree_path));
    }
    assert forall|a: WindowStateEntryView, b: WindowStateEntryView, c: WindowStateEntryView|
        #[trigger] id_order()(a, b) && #[trigger] id_order()(b, c) implies id_order()(a, c) by {
        assert(seq_le(a.id, b.id) && seq_le(b.id, c.id));
    }
    assert forall|a: WindowStateEntryView, b: WindowStateEntryView|
        #[trigger] id_order()(a, b) || id_order()(b, a) by {
        assert(seq_le(a.id, b.id) || seq_le(b.id, a.id));
    }
    assert forall|a: Seq<char>, b: Seq<char>, c: Seq<char>|
        #[trigger] name_order()(a, b) && #[trigger] name_order()(b, c) implies name_order()(a, c) by {
        assert(seq_le(a, b) && seq_le(b, c));
    }
    assert forall|a: Seq<char>, b: Seq<char>| #[trigger] name_order()(a, b) || name_order()(b, a) by {
        assert(seq_le(a, b) || seq_le(b, a));
    }
}

proof fn lemma_distinct_sessions(gs: Seq<WorktreeGroupView>)
    ensures
        distinct_sessions(gs).no_duplicates(),
        forall|i: int| 0 <= i < gs.len() ==> distinct_sessions(gs).contains(#[trigger] gs[i].session),
    decreases gs.len(),
{
    if gs.len() > 0 {
        let init = gs.drop_last();
        lemma_distinct_sessions(init);
        assert forall|i: int| 0 <= i < gs.len() implies distinct_sessions(gs).contains(#[trigger] gs[i].session) by {
            if i < gs.len() - 1 {
                assert(gs[i] == init[i]);
                assert(distinct_sessions(init).contains(init[i].session));
                let d = distinct_sessions(init);
                let k = choose|k: int| 0 <= k < d.len() && d[k] == init[i].session;
                assert(distinct_sessions(gs)[k] == d[k]);
            } else {
                if !distinct_sessions(init).contains(gs.last().session) {
                    assert(distinct_sessions(gs)[distinct_sessions(init).len() as int] == gs.last().session);
                }
            }
        }
    }
}

/// The session rows come in strictly increasing name order, so no session
/// is listed twice.
pub proof fn lemma_sessions_in_name_order(
    ws: Seq<WorktreeGroupView>,
    es: Seq<WindowStateEntryView>,
    metas: Map<Seq<char>, SquadMetaView>,
)
    ensures
        forall|i: int, j: int|
            0 <= i < j < session_row_names(spec_build_hierarchy(ws, es, metas)).len() ==> seq_lt(
                #[trigger] session_row_names(spec_build_hierarchy(ws, es, metas))[i],
                #[trigger] session_row_names(spec_build_hierarchy(ws, es, metas))[j],
            ),
{
    let gs = all_groups(ws, es, metas);
    let names = session_names(gs);
    lemma_session_blocks_names(es, metas, gs, names);
    lemma_orders_total();
    lemma_distinct_sessions(gs);
    lemma_sort_sorted(distinct_sessions(gs), name_order());
    lemma_sort_no_duplicates(distinct_sessions(gs), name_order());
    lemma_seq_le_total_order();
    assert forall|i: int, j: int| 0 <= i < j < names.len() implies seq_lt(#[trigger] names[i], #[trigger] names[j]) by {
        assert(name_order()(names[i], names[j]));
        assert(names[i] != names[j]);
    }
}

/// The worktrees of a session are listed in path order.
pub proof fn lemma_worktrees_in_path_order(gs: Seq<WorktreeGroupView>, s: Seq<char>)
    ensures
        sorted_by(session_groups(gs, s), path_order()),
{
    lemma_orders_total();
    lemma_sort_sorted(in_session(gs, s), path_order());
}

/// The panes of a worktree are listed in task-id order.
pub proof fn lemma_panes_in_id_order(
    es: Seq<WindowStateEntryView>,
    metas: Map<Seq<char>, SquadMetaView>,
    s: Seq<char>,
    p: Seq<char>,
)
    ensures
        sorted_by(group_panes(es, metas, s, p), id_order()),
{
    lemma_orders_total();
    lemma_sort_sorted(in_group(es, metas, s, p), id_order());
}

// ---------------------------------------------------------------------------
// Every task is listed
// ---------------------------------------------------------------------------

proof fn lemma_concat_contains<T>(a: Seq<T>, b: Seq<T>, x: T)
    ensures
        a.contains(x) || b.contains(x) ==> (a + b).contains(x),
{
    if a.contains(x) {
        let k = choose|k: int| 0 <= k < a.len() && a[k] == x;
        assert((a + b)[k] == x);
    } else if b.contains(x) {
        let k = choose|k: int| 0 <= k < b.len() && b[k] == x;
        assert((a + b)[a.len() + k] == x);
    }
}

proof fn lemma_push_contains<T>(a: Seq<T>, y: T, x: T)
    ensures
        a.contains(x) ==> a.push(y).contains(x),
        a.push(y).contains(y),
{
    assert(a.push(y)[a.len() as int] == y);
    if a.contains(x) {
        let k = choose|k: int| 0 <= k < a.len() && a[k] == x;
        assert(a.push(y)[k] == x);
    }
}

proof fn lemma_key_listed(es: Seq<WindowStateEntryView>, m: Map<Seq<char>, SquadMetaView>, i: int)
    requires
        0 <= i < es.len(),
    ensures
        keys_in_order(es, m).contains(group_key(es[i], m)),
    decreases es.len(),
{
    let init = es.drop_last();
    let ks = keys_in_order(init, m);
    if i < es.len() - 1 {
        lemma_key_listed(init, m, i);
        assert(init[i] == es[i]);
        lemma_push_contains(ks, group_key(es.last(), m), group_key(es[i], m));
    } else {
        lemma_push_contains(ks, group_key(es.last(), m), group_key(es[i], m));
    }
}

proof fn lemma_unpublished_contains(
    ds: Seq<WorktreeGroupView>,
    ws: Seq<WorktreeGroupView>,
    x: WorktreeGroupView,
)
    requires
        ds.contains(x),
        !is_published(ws, x.session, x.worktree_path),
    ensures
        unpublished(ds, ws).contains(x),
    decreases ds.len(),
{
    let init = ds.drop_last();
    if ds.last() == x {
        lemma_push_contains(unpublished(init, ws), x, x);
    } else {
        let k = choose|k: int| 0 <= k < ds.len() && ds[k] == x;
        assert(k < ds.len() - 1);
        assert(init[k] == x);
        lemma_unpublished_contains(init, ws, x);
        lemma_push_contains(unpublished(init, ws), ds.last(), x);
    }
}

proof fn lemma_in_session_contains(gs: Seq<WorktreeGroupView>, s: Seq<char>, g: WorktreeGroupView)
    requires
        gs.contains(g),
        g.session == s,
    ensures
        in_session(gs, s).contains(g),
    decreases gs.len(),
{
    let init = gs.drop_last();
    if gs.last() == g {
        lemma_push_contains(in_session(init, s), g, g);
    } else {
        let k = choose|k: int| 0 <= k < gs.len() && gs[k] == g;
        assert(init[k] == g);
        lemma_in_session_contains(init, s, g);
        lemma_push_contains(in_session(init, s), gs.last(), g);
    }
}

proof fn lemma_in_group_contains(
    es: Seq<WindowStateEntryView>,
    m: Map<Seq<char>, SquadMetaView>,
    i: int,
)
    requires
        0 <= i < es.len(),
    ensures
        in_group(es, m, group_key(es[i], m).0, group_key(es[i], m).1).contains(es[i]),
    decreases es.len(),
{
    let init = es.drop_last();
    let k = group_key(es[i], m);
    if i == es.len() - 1 {
        lemma_push_contains(in_group(init, m, k.0, k.1), es[i], es[i]);
    } else {
        assert(init[i] == es[i]);
        lemma_in_group_contains(init, m, i);
        lemma_push_contains(in_group(init, m, k.0, k.1), es.last(), es[i]);
    }
}

proof fn lemma_pane_rows_contains(
    panes: Seq<WindowStateEntryView>,
    m: Map<Seq<char>, SquadMetaView>,
    e: WindowStateEntryView,
)
    requires
        panes.contains(e),
    ensures
        pane_rows(panes, m).contains(spec_pane_entry(e, m)),
    decreases panes.len(),
{
    let init = panes.drop_last();
    if panes.last() == e {
        lemma_push_contains(pane_rows(init, m), spec_pane_entry(e, m), spec_pane_entry(e, m));
    } else {
        let k = choose|k: int| 0 <= k < panes.len() && panes[k] == e;
        assert(init[k] == e);
        lemma_pane_rows_contains(init, m, e);
        lemma_push_contains(pane_rows(init, m), spec_pane_entry(panes.last(), m), spec_pane_entry(e, m));
    }
}

proof fn lemma_worktree_blocks_contains(
    es: Seq<WindowStateEntryView>,
    m: Map<Seq<char>, SquadMetaView>,
    s: Seq<char>,
    sgs: Seq<WorktreeGroupView>,
    g: WorktreeGroupView,
    row: SidebarEntryView,
)
    requires
        sgs.contains(g),
        worktree_block(es, m, s, g).contains(row),
    ensures
        worktree_blocks(es, m, s, sgs).contains(row),
    decreases sgs.len(),
{
    let init = sgs.drop_last();
    if sgs.last() != g {
        let k = choose|k: int| 0 <= k < sgs.len() && sgs[k] == g;
        assert(init[k] == g);
        lemma_worktree_blocks_contains(es, m, s, init, g, row);
    }
    lemma_concat_contains(worktree_blocks(es, m, s, init), worktree_block(es, m, s, sgs.last()), row);
}

proof fn lemma_session_blocks_contains(
    es: Seq<WindowStateEntryView>,
    m: Map<Seq<char>, SquadMetaView>,
    gs: Seq<WorktreeGroupView>,
    names: Seq<Seq<char>>,
    s: Seq<char>,
    row: SidebarEntryView,
)
    requires
        names.contains(s),
        session_block(es, m, gs, s).contains(row),
    ensures
        session_blocks(es, m, gs, names).contains(row),
    decreases names.len(),
{
    let init = names.drop_last();
    if names.last() != s {
        let k = choose|k: int| 0 <= k < names.len() && names[k] == s;
        assert(init[k] == s);
        lemma_session_blocks_contains(es, m, gs, init, s, row);
    }
    lemma_concat_contains(session_blocks(es, m, gs, init), session_block(es, m, gs, names.last()), row);
}

/// Some group of the hierarchy has the session and worktree path of each
/// window-states row: a published one, or else a derived one.
proof fn lemma_group_for_entry(
    ws: Seq<WorktreeGroupView>,
    es: Seq<WindowStateEntryView>,
    m: Map<Seq<char>, SquadMetaView>,
    i: int,
) -> (g: WorktreeGroupView)
    requires
        0 <= i < es.len(),
    ensures
        all_groups(ws, es, m).contains(g),
        g.session == group_key(es[i], m).0,
        g.worktree_path == group_key(es[i], m).1,
{
    let k = group_key(es[i], m);
    let gs = all_groups(ws, es, m);
    if is_published(ws, k.0, k.1) {
        let j = choose|j: int| 0 <= j < ws.len() && ws[j].session == k.0 && ws[j].worktree_path == k.1;
        assert(gs[j] == ws[j]);
        ws[j]
    } else {
        let keys = keys_in_order(es, m);
        lemma_key_listed(es, m, i);
        lemma_sort_elems(keys, pair_order());
        let sorted = sort_stable(keys, pair_order());
        assert(sorted.contains(k));
        let q = choose|q: int| 0 <= q < sorted.len() && sorted[q] == k;
        let ds = spec_derive_worktree_groups(es, m);
        let g = derived_group(es, m, k);
        assert(ds[q] == g);
        lemma_unpublished_contains(ds, ws, g);
        lemma_concat_contains(ws, unpublished(ds, ws), g);
        g
    }
}

/// Every window-states row is listed, as its pane row, in the hierarchy:
/// also a row whose session and worktree no published group covers.
pub proof fn lemma_every_task_listed(
    ws: Seq<WorktreeGroupView>,
    es: Seq<WindowStateEntryView>,
    metas: Map<Seq<char>, SquadMetaView>,
    i: int,
)
    requires
        0 <= i < es.len(),
    ensures
        spec_build_hierarchy(ws, es, metas).contains(spec_pane_entry(es[i], metas)),
{
    let e = es[i];
    let k = group_key(e, metas);
    let gs = all_groups(ws, es, metas);
    let g = lemma_group_for_entry(ws, es, metas, i);
    let gi = choose|j: int| 0 <= j < gs.len() && gs[j] == g;
    // The session is listed.
    lemma_distinct_sessions(gs);
    assert(distinct_sessions(gs).contains(gs[gi].session));
    lemma_sort_elems(distinct_sessions(gs), name_order());
    assert(session_names(gs).contains(k.0));
    // The group is listed within its session.
    lemma_in_session_contains(gs, k.0, g);
    lemma_sort_elems(in_session(gs, k.0), path_order());
    assert(session_groups(gs, k.0).contains(g));
    // The row is among the group's panes.
    lemma_in_group_contains(es, metas, i);
    lemma_sort_elems(in_group(es, metas, k.0, k.1), id_order());
    assert(group_panes(es, metas, k.0, g.worktree_path).contains(e));
    let row = spec_pane_entry(e, metas);
    lemma_pane_rows_contains(group_panes(es, metas, k.0, g.worktree_path), metas, e);
    let wb = worktree_block(es, metas, k.0, g);
    let panes = group_panes(es, metas, k.0, g.worktree_path);
    assert(wb == wb.take(1) + pane_rows(panes, metas));
    lemma_concat_contains(wb.take(1), pane_rows(panes, metas), row);
    lemma_worktree_blocks_contains(es, metas, k.0, session_groups(gs, k.0), g, row);
    let sb = session_block(es, metas, gs, k.0);
    let rest = worktree_blocks(es, metas, k.0, session_groups(gs, k.0));
    assert(sb == sb.take(1) + rest);
    lemma_concat_contains(sb.take(1), rest, row);
    lemma_session_blocks_contains(es, metas, gs, session_names(gs), k.0, row);
}

// ---------------------------------------------------------------------------
// Which sessions and groups are listed
// ---------------------------------------------------------------------------

proof fn lemma_distinct_sessions_from(gs: Seq<WorktreeGroupView>, x: Seq<char>)
    requires
        distinct_sessions(gs).contains(x),
    ensures
        exists|i: int| 0 <= i < gs.len() && (#[trigger] gs[i]).session == x,
    decreases gs.len(),
{
    let init = gs.drop_last();
    if distinct_sessions(init).contains(x) {
        lemma_distinct_sessions_from(init, x);
        let i = choose|i: int| 0 <= i < init.len() && (#[trigger] init[i]).session == x;
        assert(gs[i] == init[i]);
    } else {
        let d = distinct_sessions(gs);
        let k = choose|k: int| 0 <= k < d.len() && d[k] == x;
        assert(gs[gs.len() - 1].session == x);
    }
}

proof fn lemma_key_from(es: Seq<WindowStateEntryView>, m: Map<Seq<char>, SquadMetaView>, k: (Seq<char>, Seq<char>))
    requires
        keys_in_order(es, m).contains(k),
    ensures
        exists|i: int| 0 <= i < es.len() && group_key(#[trigger] es[i], m) == k,
    decreases es.len(),
{
    let init = es.drop_last();
    if keys_in_order(init, m).contains(k) {
        lemma_key_from(init, m, k);
        let i = choose|i: int| 0 <= i < init.len() && group_key(#[trigger] init[i], m) == k;
        assert(es[i] == init[i]);
    } else {
        let ks = keys_in_order(es, m);
        let q = choose|q: int| 0 <= q < ks.len() && ks[q] == k;
        assert(group_key(es[es.len() - 1], m) == k);
    }
}

proof fn lemma_unpublished_from(ds: Seq<WorktreeGroupView>, ws: Seq<WorktreeGroupView>, x: WorktreeGroupView)
    requires
        unpublished(ds, ws).contains(x),
    ensures
        ds.contains(x),
    decreases ds.len(),
{
    let init = ds.drop_last();
    if unpublished(init, ws).contains(x) {
        lemma_unpublished_from(init, ws, x);
        let k = choose|k: int| 0 <= k < init.len() && init[k] == x;
        assert(ds[k] == x);
    } else {
        let u = unpublished(ds, ws);
        let k = choose|k: int| 0 <= k < u.len() && u[k] == x;
        assert(ds[ds.len() - 1] == x);
    }
}

/// A derived group is the group of some window-states row, and has no label.
proof fn lemma_derived_from(es: Seq<WindowStateEntryView>, m: Map<Seq<char>, SquadMetaView>, g: WorktreeGroupView)
    requires
        spec_derive_worktree_groups(es, m).contains(g),
    ensures
        exists|i: int| 0 <= i < es.len() && group_key(#[trigger] es[i], m) == (g.session, g.worktree_path),
        g.session_label is None,
{
    let keys = keys_in_order(es, m);
    let sorted = sort_stable(keys, pair_order());
    let ds = spec_derive_worktree_groups(es, m);
    let q = choose|q: int| 0 <= q < ds.len() && ds[q] == g;
    assert(ds[q] == derived_group(es, m, sorted[q]));
    lemma_sort_elems(keys, pair_order());
    assert(sorted.contains(sorted[q]));
    lemma_key_from(es, m, sorted[q]);
}

/// A listed group is a published one, or a derived one of some row's group.
proof fn lemma_group_from(
    ws: Seq<WorktreeGroupView>,
    es: Seq<WindowStateEntryView>,
    m: Map<Seq<char>, SquadMetaView>,
    g: WorktreeGroupView,
)
    requires
        all_groups(ws, es, m).contains(g),
    ensures
        ws.contains(g) || (g.session_label is None && exists|i: int|
            0 <= i < es.len() && group_key(#[trigger] es[i], m) == (g.session, g.worktree_path)),
{
    let gs = all_groups(ws, es, m);
    let ds = spec_derive_worktree_groups(es, m);
    let u = unpublished(ds, ws);
    let k = choose|k: int| 0 <= k < gs.len() && gs[k] == g;
    if k < ws.len() {
        assert(ws[k] == g);
    } else {
        assert(u[k - ws.len()] == g);
        assert(u.contains(g));
        lemma_unpublished_from(ds, ws, g);
        lemma_derived_from(es, m, g);
    }
}

/// The sessions listed are exactly those of the published groups and those
/// of the window-states rows, each once and in increasing name order.
pub proof fn lemma_listed_sessions(
    ws: Seq<WorktreeGroupView>,
    es: Seq<WindowStateEntryView>,
    metas: Map<Seq<char>, SquadMetaView>,
    x: Seq<char>,
)
    ensures
        session_row_names(spec_build_hierarchy(ws, es, metas)).contains(x) <==> (exists|i: int|
            0 <= i < ws.len() && (#[trigger] ws[i]).session == x) || (exists|i: int|
            0 <= i < es.len() && entry_session(#[trigger] es[i]) == x),
        forall|i: int, j: int|
            0 <= i < j < session_row_names(spec_build_hierarchy(ws, es, metas)).len() ==> seq_lt(
                #[trigger] session_row_names(spec_build_hierarchy(ws, es, metas))[i],
                #[trigger] session_row_names(spec_build_hierarchy(ws, es, metas))[j],
            ),
{
    let gs = all_groups(ws, es, metas);
    let names = session_names(gs);
    lemma_sessions_in_name_order(ws, es, metas);
    lemma_session_blocks_names(es, metas, gs, names);
    lemma_distinct_sessions(gs);
    lemma_sort_elems(distinct_sessions(gs), name_order());
    if names.contains(x) {
        assert(distinct_sessions(gs).contains(x));
        lemma_distinct_sessions_from(gs, x);
        let i = choose|i: int| 0 <= i < gs.len() && (#[trigger] gs[i]).session == x;
        assert(gs.contains(gs[i]));
        lemma_group_from(ws, es, metas, gs[i]);
        if ws.contains(gs[i]) {
            let k = choose|k: int| 0 <= k < ws.len() && ws[k] == gs[i];
            assert(ws[k].session == x);
        } else {
            let k = choose|k: int|
                0 <= k < es.len() && group_key(#[trigger] es[k], metas) == (gs[i].session, gs[i].worktree_path);
            assert(entry_session(es[k]) == x);
        }
    }
    if exists|i: int| 0 <= i < ws.len() && (#[trigger] ws[i]).session == x {
        let i = choose|i: int| 0 <= i < ws.len() && (#[trigger] ws[i]).session == x;
        assert(gs[i] == ws[i]);
        assert(distinct_sessions(gs).contains(gs[i].session));
    }
    if exists|i: int| 0 <= i < es.len() && entry_session(#[trigger] es[i]) == x {
        let i = choose|i: int| 0 <= i < es.len() && entry_session(#[trigger] es[i]) == x;
        let g = lemma_group_for_entry(ws, es, metas, i);
        let k = choose|k: int| 0 <= k < gs.len() && gs[k] == g;
        assert(distinct_sessions(gs).contains(gs[k].session));
    }
}

/// Every published group has its worktree row, with its branch, also when
/// no window-states row falls in it (its task count is then 0).
pub proof fn lemma_published_group_listed(
    ws: Seq<WorktreeGroupView>,
    es: Seq<WindowStateEntryView>,
    metas: Map<Seq<char>, SquadMetaView>,
    i: int,
)
    requires
        0 <= i < ws.len(),
    ensures
        spec_build_hierarchy(ws, es, metas).contains(
            SidebarEntryView::Worktree {
                session: ws[i].session,
                worktree_path: ws[i].worktree_path,
                branch: ws[i].worktree_branch,
                task_count: group_panes(es, metas, ws[i].session, ws[i].worktree_path).len(),
                aggregate_status: aggregate(
                    pane_statuses(group_panes(es, metas, ws[i].session, ws[i].worktree_path)),
                ),
            },
        ),
{
    let g = ws[i];
    let s = g.session;
    let gs = all_groups(ws, es, metas);
    assert(gs[i] == g);
    assert(gs.contains(g));
    lemma_distinct_sessions(gs);
    lemma_sort_elems(distinct_sessions(gs), name_order());
    assert(distinct_sessions(gs).contains(gs[i].session));
    assert(session_names(gs).contains(s));
    lemma_in_session_contains(gs, s, g);
    lemma_sort_elems(in_session(gs, s), path_order());
    assert(session_groups(gs, s).contains(g));
    let wb = worktree_block(es, metas, s, g);
    let row = wb[0];
    assert(wb.contains(row));
    lemma_worktree_blocks_contains(es, metas, s, session_groups(gs, s), g, row);
    let sb = session_block(es, metas, gs, s);
    let rest = worktree_blocks(es, metas, s, session_groups(gs, s));
    assert(sb == sb.take(1) + rest);
    lemma_concat_contains(sb.take(1), rest, row);
    lemma_session_blocks_contains(es, metas, gs, session_names(gs), s, row);
}

/// The first session label among `sgs`, if any, is some group's label.
proof fn lemma_first_label_from(sgs: Seq<WorktreeGroupView>)
    ensures
        first_label(sgs) is Some ==> exists|k: int|
            0 <= k < sgs.len() && (#[trigger] sgs[k]).session_label == first_label(sgs),
    decreases sgs.len(),
{
    if sgs.len() > 0 {
        lemma_first_label_from(sgs.drop_last());
        if first_label(sgs.drop_last()) is Some {
            let k = choose|k: int|
                0 <= k < sgs.drop_last().len() && (#[trigger] sgs.drop_last()[k]).session_label
                    == first_label(sgs.drop_last());
            assert(sgs[k] == sgs.drop_last()[k]);
        }
    }
}

proof fn lemma_in_session_from(gs: Seq<WorktreeGroupView>, s: Seq<char>, g: WorktreeGroupView)
    requires
        in_session(gs, s).contains(g),
    ensures
        gs.contains(g),
        g.session == s,
    decreases gs.len(),
{
    let init = gs.drop_last();
    if in_session(init, s).contains(g) {
        lemma_in_session_from(init, s, g);
        let k = choose|k: int| 0 <= k < init.len() && init[k] == g;
        assert(gs[k] == g);
    } else {
        let v = in_session(gs, s);
        let k = choose|k: int| 0 <= k < v.len() && v[k] == g;
        assert(gs[gs.len() - 1] == g);
    }
}

/// The session row at `i`, if it is one, is labelled with the first label
/// among its groups in path order.
pub open spec fn session_label_ok(rows: Seq<SidebarEntryView>, gs: Seq<WorktreeGroupView>, i: int) -> bool {
    match rows[i] {
        SidebarEntryView::Session { session, label, .. } => label == first_label(
            session_groups(gs, session),
        ),
        _ => true,
    }
}

proof fn lemma_session_blocks_labels(
    es: Seq<WindowStateEntryView>,
    m: Map<Seq<char>, SquadMetaView>,
    gs: Seq<WorktreeGroupView>,
    names: Seq<Seq<char>>,
)
    ensures
        forall|i: int|
            0 <= i < session_blocks(es, m, gs, names).len() ==> #[trigger] session_label_ok(
                session_blocks(es, m, gs, names),
                gs,
                i,
            ),
    decreases names.len(),
{
    if names.len() > 0 {
        let a = session_blocks(es, m, gs, names.drop_last());
        let s = names.last();
        let b = session_block(es, m, gs, s);
        let r = a + b;
        lemma_session_blocks_labels(es, m, gs, names.drop_last());
        let sgs = session_groups(gs, s);
        let wbs = worktree_blocks(es, m, s, sgs);
        assert(b == b.take(1) + wbs);
        crate::hierarchy_flat::lemma_worktree_blocks_no_sessions(es, m, s, sgs);
        assert forall|i: int| 0 <= i < r.len() implies #[trigger] session_label_ok(r, gs, i) by {
            if i < a.len() {
                assert(r[i] == a[i]);
                assert(session_label_ok(a, gs, i));
            } else if i > a.len() {
                assert(r[i] == wbs[i - a.len() - 1]);
            } else {
                assert(r[i] == b[0]);
            }
        }
    }
}

/// Each session row carries the first label among its groups in path order,
/// and a label only comes from a published group of that session: groups
/// derived from window-states rows have none.
pub proof fn lemma_session_labels(
    ws: Seq<WorktreeGroupView>,
    es: Seq<WindowStateEntryView>,
    metas: Map<Seq<char>, SquadMetaView>,
    i: int,
)
    requires
        0 <= i < spec_build_hierarchy(ws, es, metas).len(),
    ensures
        session_label_ok(spec_build_hierarchy(ws, es, metas), all_groups(ws, es, metas), i),
        spec_build_hierarchy(ws, es, metas)[i] matches SidebarEntryView::Session { session, label, .. }
            ==> (label is Some ==> exists|k: int|
            0 <= k < ws.len() && (#[trigger] ws[k]).session == session && ws[k].session_label == label),
{
    let gs = all_groups(ws, es, metas);
    let r = spec_build_hierarchy(ws, es, metas);
    lemma_session_blocks_labels(es, metas, gs, session_names(gs));
    assert(session_label_ok(r, gs, i));
    match r[i] {
        SidebarEntryView::Session { session, label, .. } => {
            let sgs = session_groups(gs, session);
            lemma_first_label_from(sgs);
            if label is Some {
                let k = choose|k: int| 0 <= k < sgs.len() && (#[trigger] sgs[k]).session_label == label;
                lemma_sort_elems(in_session(gs, session), path_order());
                assert(sgs.contains(sgs[k]));
                lemma_in_session_from(gs, session, sgs[k]);
                lemma_group_from(ws, es, metas, sgs[k]);
                let q = choose|q: int| 0 <= q < ws.len() && ws[q] == sgs[k];
                assert(ws[q].session == session && ws[q].session_label == label);
            }
        },
        _ => {},
    }
}

// ---------------------------------------------------------------------------
// Each task listed once
// ---------------------------------------------------------------------------

/// No two groups of `gs` share a session and worktree path.
pub open spec fn keys_distinct(gs: Seq<WorktreeGroupView>) -> bool {
    forall|i: int, j: int|
        0 <= i < j < gs.len() ==> ((#[trigger] gs[i]).session, gs[i].worktree_path) != (
            (#[trigger] gs[j]).session,
            gs[j].worktree_path,
        )
}

/// The pane rows of `rows`, in order.
pub open spec fn pane_entries(rows: Seq<SidebarEntryView>) -> Seq<SidebarEntryView>
    decreases rows.len(),
{
    if rows.len() == 0 {
        Seq::empty()
    } else if rows.last() is Pane {
        pane_entries(rows.drop_last()).push(rows.last())
    } else {
        pane_entries(rows.drop_last())
    }
}

/// The window-states rows listed under the sessions `names`, session after
/// session, in the order of their pane rows.
pub open spec fn listed_panes(
    es: Seq<WindowStateEntryView>,
    m: Map<Seq<char>, SquadMetaView>,
    gs: Seq<WorktreeGroupView>,
    names: Seq<Seq<char>>,
) -> Seq<WindowStateEntryView>
    decreases names.len(),
{
    if names.len() == 0 {
        Seq::empty()
    } else {
        listed_panes(es, m, gs, names.drop_last()) + session_panes(
            es,
            m,
            names.last(),
            session_groups(gs, names.last()),
        )
    }
}

proof fn lemma_pane_entries_concat(a: Seq<SidebarEntryView>, b: Seq<SidebarEntryView>)
    ensures
        pane_entries(a + b) == pane_entries(a) + pane_entries(b),
        pane_row_count(a) == pane_entries(a).len(),
    decreases b.len(), a.len(),
{
    if a.len() > 0 {
        lemma_pane_entries_concat(a.drop_last(), Seq::empty());
    }
    if b.len() == 0 {
        assert(a + b =~= a);
        assert(pane_entries(a) + pane_entries(b) =~= pane_entries(a));
    } else {
        assert((a + b).drop_last() =~= a + b.drop_last());
        lemma_pane_entries_concat(a, b.drop_last());
        assert((a + b).last() == b.last());
        if b.last() is Pane {
            assert(pane_entries(a) + pane_entries(b) =~= (pane_entries(a) + pane_entries(
                b.drop_last(),
            )).push(b.last()));
        }
    }
}

proof fn lemma_pane_rows_concat(a: Seq<WindowStateEntryView>, b: Seq<WindowStateEntryView>, m: Map<Seq<char>, SquadMetaView>)
    ensures
        pane_rows(a + b, m) == pane_rows(a, m) + pane_rows(b, m),
        pane_entries(pane_rows(b, m)) == pane_rows(b, m),
    decreases b.len(),
{
    if b.len() == 0 {
        assert(a + b =~= a);
        assert(pane_rows(a, m) + pane_rows(b, m) =~= pane_rows(a, m));
    } else {
        assert((a + b).drop_last() =~= a + b.drop_last());
        lemma_pane_rows_concat(a, b.drop_last(), m);
        assert((a + b).last() == b.last());
        assert(pane_rows(a, m) + pane_rows(b, m) =~= (pane_rows(a, m) + pane_rows(
            b.drop_last(),
            m,
        )).push(spec_pane_entry(b.last(), m)));
        assert(pane_rows(b, m).drop_last() =~= pane_rows(b.drop_last(), m));
    }
}

proof fn lemma_worktree_blocks_entries(
    es: Seq<WindowStateEntryView>,
    m: Map<Seq<char>, SquadMetaView>,
    s: Seq<char>,
    sgs: Seq<WorktreeGroupView>,
)
    ensures
        pane_entries(worktree_blocks(es, m, s, sgs)) == pane_rows(session_panes(es, m, s, sgs), m),
    decreases sgs.len(),
{
    if sgs.len() == 0 {
        assert(pane_entries(worktree_blocks(es, m, s, sgs)) =~= pane_rows(
            session_panes(es, m, s, sgs),
            m,
        ));
    } else {
        let init = sgs.drop_last();
        let g = sgs.last();
        let wb = worktree_block(es, m, s, g);
        let panes = group_panes(es, m, s, g.worktree_path);
        lemma_worktree_blocks_entries(es, m, s, init);
        lemma_pane_entries_concat(worktree_blocks(es, m, s, init), wb);
        assert(wb == wb.take(1) + pane_rows(panes, m));
        lemma_pane_entries_concat(wb.take(1), pane_rows(panes, m));
        assert(wb.take(1).drop_last() =~= Seq::<SidebarEntryView>::empty());
        assert(wb.take(1).last() == wb[0]);
        assert(wb[0] is Worktree);
        assert(pane_entries(Seq::<SidebarEntryView>::empty()) =~= Seq::<SidebarEntryView>::empty());
        assert(pane_entries(wb.take(1).drop_last()) =~= Seq::<SidebarEntryView>::empty());
        assert(pane_entries(wb.take(1)) =~= Seq::<SidebarEntryView>::empty());
        lemma_pane_rows_concat(Seq::empty(), panes, m);
        lemma_pane_rows_concat(session_panes(es, m, s, init), panes, m);
        assert(pane_entries(wb) =~= pane_rows(panes, m));
    }
}

proof fn lemma_session_blocks_entries(
    es: Seq<WindowStateEntryView>,
    m: Map<Seq<char>, SquadMetaView>,
    gs: Seq<WorktreeGroupView>,
    names: Seq<Seq<char>>,
)
    ensures
        pane_entries(session_blocks(es, m, gs, names)) == pane_rows(listed_panes(es, m, gs, names), m),
    decreases names.len(),
{
    if names.len() == 0 {
        assert(pane_entries(session_blocks(es, m, gs, names)) =~= pane_rows(
            listed_panes(es, m, gs, names),
            m,
        ));
    } else {
        let s = names.last();
        let sgs = session_groups(gs, s);
        let sb = session_block(es, m, gs, s);
        let wbs = worktree_blocks(es, m, s, sgs);
        lemma_session_blocks_entries(es, m, gs, names.drop_last());
        lemma_pane_entries_concat(session_blocks(es, m, gs, names.drop_last()), sb);
        assert(sb == sb.take(1) + wbs);
        lemma_pane_entries_concat(sb.take(1), wbs);
        assert(sb.take(1).drop_last() =~= Seq::<SidebarEntryView>::empty());
        assert(sb.take(1).last() == sb[0]);
        assert(sb[0] is Session);
        assert(pane_entries(Seq::<SidebarEntryView>::empty()) =~= Seq::<SidebarEntryView>::empty());
        assert(pane_entries(sb.take(1).drop_last()) =~= Seq::<SidebarEntryView>::empty());
        assert(pane_entries(sb.take(1)) =~= Seq::<SidebarEntryView>::empty());
        assert(pane_entries(sb) =~= pane_entries(wbs));
        lemma_worktree_blocks_entries(es, m, s, sgs);
        lemma_pane_rows_concat(listed_panes(es, m, gs, names.drop_last()), session_panes(es, m, s, sgs), m);
    }
}

proof fn lemma_count_concat<T>(a: Seq<T>, b: Seq<T>, x: T)
    ensures
        (a + b).to_multiset().count(x) == a.to_multiset().count(x) + b.to_multiset().count(x),
{
    vstd::seq_lib::lemma_multiset_commutative(a, b);
}

proof fn lemma_in_group_count(
    es: Seq<WindowStateEntryView>,
    m: Map<Seq<char>, SquadMetaView>,
    s: Seq<char>,
    p: Seq<char>,
    x: WindowStateEntryView,
)
    ensures
        in_group(es, m, s, p).to_multiset().count(x) == if group_key(x, m) == (s, p) {
            es.to_multiset().count(x)
        } else {
            0
        },
    decreases es.len(),
{
    broadcast use vstd::multiset::group_multiset_axioms;

    if es.len() == 0 {
        in_group(es, m, s, p).to_multiset_ensures();
        es.to_multiset_ensures();
    } else {
        let init = es.drop_last();
        lemma_in_group_count(init, m, s, p, x);
        vstd::seq_lib::to_multiset_build(init, es.last());
        assert(init.push(es.last()) =~= es);
        assert(es.to_multiset() == init.to_multiset().insert(es.last()));
        if group_key(es.last(), m) == (s, p) {
            vstd::seq_lib::to_multiset_build(in_group(init, m, s, p), es.last());
            assert(in_group(es, m, s, p) == in_group(init, m, s, p).push(es.last()));
        } else {
            assert(in_group(es, m, s, p) == in_group(init, m, s, p));
            assert(x != es.last() || group_key(x, m) != (s, p));
        }
    }
}

/// Within a session, the groups' paths are distinct: a row's count in the
/// session's panes is its count in `es` if its group is among `sgs`.
proof fn lemma_session_panes_count(
    es: Seq<WindowStateEntryView>,
    m: Map<Seq<char>, SquadMetaView>,
    s: Seq<char>,
    sgs: Seq<WorktreeGroupView>,
    x: WindowStateEntryView,
)
    requires
        forall|i: int, j: int|
            0 <= i < j < sgs.len() ==> (#[trigger] sgs[i]).worktree_path != (#[trigger] sgs[j]).worktree_path,
    ensures
        session_panes(es, m, s, sgs).to_multiset().count(x) == if group_key(x, m).0 == s && exists|k: int|
            0 <= k < sgs.len() && (#[trigger] sgs[k]).worktree_path == group_key(x, m).1 {
            es.to_multiset().count(x)
        } else {
            0
        },
    decreases sgs.len(),
{
    if sgs.len() == 0 {
        session_panes(es, m, s, sgs).to_multiset_ensures();
    } else {
        let init = sgs.drop_last();
        let g = sgs.last();
        assert forall|i: int, j: int| 0 <= i < j < init.len() implies (#[trigger] init[i]).worktree_path
            != (#[trigger] init[j]).worktree_path by {
            assert(init[i] == sgs[i] && init[j] == sgs[j]);
        }
        lemma_session_panes_count(es, m, s, init, x);
        lemma_count_concat(session_panes(es, m, s, init), group_panes(es, m, s, g.worktree_path), x);
        lemma_sort_multiset(in_group(es, m, s, g.worktree_path), id_order());
        lemma_in_group_count(es, m, s, g.worktree_path, x);
        let here = group_key(x, m).0 == s && exists|k: int|
            0 <= k < sgs.len() && (#[trigger] sgs[k]).worktree_path == group_key(x, m).1;
        let before = group_key(x, m).0 == s && exists|k: int|
            0 <= k < init.len() && (#[trigger] init[k]).worktree_path == group_key(x, m).1;
        if before {
            let k = choose|k: int| 0 <= k < init.len() && (#[trigger] init[k]).worktree_path == group_key(x, m).1;
            assert(sgs[k] == init[k]);
            assert(sgs[k].worktree_path != sgs[sgs.len() - 1].worktree_path);
        }
        if here && !before {
            let k = choose|k: int| 0 <= k < sgs.len() && (#[trigger] sgs[k]).worktree_path == group_key(x, m).1;
            if k < sgs.len() - 1 {
                assert(init[k] == sgs[k]);
            }
        }
        if !here && group_key(x, m) == (s, g.worktree_path) {
            assert(sgs[sgs.len() - 1].worktree_path == group_key(x, m).1);
        }
    }
}

/// A row's count among the listed panes of `names`: its count in `es` when
/// its session is among `names` and `cover` holds of it, else 0.
proof fn lemma_listed_panes_count(
    es: Seq<WindowStateEntryView>,
    m: Map<Seq<char>, SquadMetaView>,
    gs: Seq<WorktreeGroupView>,
    names: Seq<Seq<char>>,
    x: WindowStateEntryView,
)
    requires
        names.no_duplicates(),
        forall|t: Seq<char>, i: int, j: int|
            0 <= i < j < session_groups(gs, t).len() ==> (#[trigger] session_groups(gs, t)[i]).worktree_path
                != (#[trigger] session_groups(gs, t)[j]).worktree_path,
    ensures
        listed_panes(es, m, gs, names).to_multiset().count(x) == if names.contains(group_key(x, m).0)
            && exists|k: int|
            0 <= k < session_groups(gs, group_key(x, m).0).len() && (#[trigger] session_groups(
                gs,
                group_key(x, m).0,
            )[k]).worktree_path == group_key(x, m).1 {
            es.to_multiset().count(x)
        } else {
            0
        },
    decreases names.len(),
{
    let k0 = group_key(x, m).0;
    if names.len() == 0 {
        listed_panes(es, m, gs, names).to_multiset_ensures();
    } else {
        let init = names.drop_last();
        let s = names.last();
        assert(init.no_duplicates()) by {
            assert forall|i: int, j: int| 0 <= i < init.len() && 0 <= j < init.len() && i != j implies init[i] != init[j] by {
                assert(init[i] == names[i] && init[j] == names[j]);
            }
        }
        lemma_listed_panes_count(es, m, gs, init, x);
        lemma_count_concat(listed_panes(es, m, gs, init), session_panes(es, m, s, session_groups(gs, s)), x);
        let sgs = session_groups(gs, s);
        assert forall|i: int, j: int| 0 <= i < j < sgs.len() implies (#[trigger] sgs[i]).worktree_path
            != (#[trigger] sgs[j]).worktree_path by {
            assert(session_groups(gs, s)[i].worktree_path != session_groups(gs, s)[j].worktree_path);
        }
        lemma_session_panes_count(es, m, s, sgs, x);
        if init.contains(k0) {
            let q = choose|q: int| 0 <= q < init.len() && init[q] == k0;
            assert(names[q] == init[q]);
            assert(s != k0);
        }
        if names.contains(k0) && !init.contains(k0) {
            let q = choose|q: int| 0 <= q < names.len() && names[q] == k0;
            if q < names.len() - 1 {
                assert(init[q] == names[q]);
            }
            assert(s == k0);
        }
        if s == k0 {
            assert(names[names.len() - 1] == k0);
        }
    }
}

proof fn lemma_keys_in_order_distinct(es: Seq<WindowStateEntryView>, m: Map<Seq<char>, SquadMetaView>)
    ensures
        keys_in_order(es, m).no_duplicates(),
    decreases es.len(),
{
    if es.len() > 0 {
        lemma_keys_in_order_distinct(es.drop_last(), m);
        let ks = keys_in_order(es.drop_last(), m);
        let k = group_key(es.last(), m);
        if !ks.contains(k) {
            assert forall|i: int, j: int| 0 <= i < ks.push(k).len() && 0 <= j < ks.push(k).len() && i != j
                implies ks.push(k)[i] != ks.push(k)[j] by {
                if i == ks.len() {
                    assert(ks[j] == ks.push(k)[j]);
                } else if j == ks.len() {
                    assert(ks[i] == ks.push(k)[i]);
                }
            }
        }
    }
}

proof fn lemma_unpublished_facts(ds: Seq<WorktreeGroupView>, ws: Seq<WorktreeGroupView>)
    requires
        keys_distinct(ds),
    ensures
        keys_distinct(unpublished(ds, ws)),
        forall|k: int|
            0 <= k < unpublished(ds, ws).len() ==> !is_published(
                ws,
                (#[trigger] unpublished(ds, ws)[k]).session,
                unpublished(ds, ws)[k].worktree_path,
            ),
    decreases ds.len(),
{
    if ds.len() > 0 {
        let init = ds.drop_last();
        let x = ds.last();
        assert(keys_distinct(init)) by {
            assert forall|i: int, j: int| 0 <= i < j < init.len() implies ((#[trigger] init[i]).session, init[i].worktree_path)
                != ((#[trigger] init[j]).session, init[j].worktree_path) by {
                assert(init[i] == ds[i] && init[j] == ds[j]);
            }
        }
        lemma_unpublished_facts(init, ws);
        let u = unpublished(init, ws);
        if !is_published(ws, x.session, x.worktree_path) {
            let v = u.push(x);
            assert forall|k: int| 0 <= k < u.len() implies ((#[trigger] u[k]).session, u[k].worktree_path) != (
                x.session,
                x.worktree_path,
            ) by {
                assert(u.contains(u[k]));
                lemma_unpublished_from(init, ws, u[k]);
                let q = choose|q: int| 0 <= q < init.len() && init[q] == u[k];
                assert(ds[q] == init[q]);
            }
            assert forall|i: int, j: int| 0 <= i < j < v.len() implies ((#[trigger] v[i]).session, v[i].worktree_path)
                != ((#[trigger] v[j]).session, v[j].worktree_path) by {
                assert(v[i] == u[i]);
                if j < u.len() {
                    assert(v[j] == u[j]);
                }
            }
            assert forall|k: int| 0 <= k < v.len() implies !is_published(
                ws,
                (#[trigger] v[k]).session,
                v[k].worktree_path,
            ) by {
                if k < u.len() {
                    assert(v[k] == u[k]);
                }
            }
        }
    }
}

/// With published groups of distinct keys, all the listed groups have
/// distinct keys.
proof fn lemma_all_groups_distinct(
    ws: Seq<WorktreeGroupView>,
    es: Seq<WindowStateEntryView>,
    m: Map<Seq<char>, SquadMetaView>,
)
    requires
        keys_distinct(ws),
    ensures
        keys_distinct(all_groups(ws, es, m)),
{
    let keys = keys_in_order(es, m);
    let sorted = sort_stable(keys, pair_order());
    let ds = spec_derive_worktree_groups(es, m);
    lemma_keys_in_order_distinct(es, m);
    lemma_sort_no_duplicates(keys, pair_order());
    assert(keys_distinct(ds)) by {
        assert forall|i: int, j: int| 0 <= i < j < ds.len() implies ((#[trigger] ds[i]).session, ds[i].worktree_path)
            != ((#[trigger] ds[j]).session, ds[j].worktree_path) by {
            assert(ds[i] == derived_group(es, m, sorted[i]));
            assert(ds[j] == derived_group(es, m, sorted[j]));
            assert(sorted[i] != sorted[j]);
        }
    }
    lemma_unpublished_facts(ds, ws);
    let u = unpublished(ds, ws);
    let gs = all_groups(ws, es, m);
    assert forall|i: int, j: int| 0 <= i < j < gs.len() implies ((#[trigger] gs[i]).session, gs[i].worktree_path)
        != ((#[trigger] gs[j]).session, gs[j].worktree_path) by {
        if j < ws.len() {
            assert(gs[i] == ws[i] && gs[j] == ws[j]);
        } else if i >= ws.len() {
            assert(gs[i] == u[i - ws.len()] && gs[j] == u[j - ws.len()]);
        } else {
            assert(gs[i] == ws[i] && gs[j] == u[j - ws.len()]);
            assert(!is_published(ws, u[j - ws.len()].session, u[j - ws.len()].worktree_path));
        }
    }
}

/// In a listing with groups of distinct keys, the groups of one session have
/// distinct paths.
proof fn lemma_session_paths_distinct(gs: Seq<WorktreeGroupView>, t: Seq<char>)
    requires
        keys_distinct(gs),
    ensures
        forall|i: int, j: int|
            0 <= i < j < session_groups(gs, t).len() ==> (#[trigger] session_groups(gs, t)[i]).worktree_path
                != (#[trigger] session_groups(gs, t)[j]).worktree_path,
    decreases gs.len(),
{
    let v = in_session(gs, t);
    assert forall|i: int, j: int| 0 <= i < j < v.len() implies (|g: WorktreeGroupView| g.worktree_path)(
        #[trigger] v[i],
    ) != (|g: WorktreeGroupView| g.worktree_path)(#[trigger] v[j]) by {
        lemma_in_session_distinct(gs, t, i, j);
    }
    lemma_sort_distinct_by(v, path_order(), |g: WorktreeGroupView| g.worktree_path);
}

proof fn lemma_in_session_distinct(gs: Seq<WorktreeGroupView>, t: Seq<char>, i: int, j: int)
    requires
        keys_distinct(gs),
        0 <= i < j < in_session(gs, t).len(),
    ensures
        in_session(gs, t)[i].worktree_path != in_session(gs, t)[j].worktree_path,
    decreases gs.len(),
{
    let init = gs.drop_last();
    let v = in_session(gs, t);
    let vi = in_session(init, t);
    assert(keys_distinct(init)) by {
        assert forall|a: int, b: int| 0 <= a < b < init.len() implies ((#[trigger] init[a]).session, init[a].worktree_path)
            != ((#[trigger] init[b]).session, init[b].worktree_path) by {
            assert(init[a] == gs[a] && init[b] == gs[b]);
        }
    }
    if j < vi.len() {
        assert(v[i] == vi[i] && v[j] == vi[j]);
        lemma_in_session_distinct(init, t, i, j);
    } else {
        assert(v[i] == vi[i]);
        assert(v[j] == gs.last());
        assert(vi.contains(vi[i]));
        lemma_in_session_from(init, t, vi[i]);
        let q = choose|q: int| 0 <= q < init.len() && init[q] == vi[i];
        assert(gs[q] == init[q]);
        assert(gs.last().session == t);
    }
}

/// With published groups of distinct session and worktree path, each
/// window-states row is listed exactly once: the pane rows of the hierarchy
/// are the pane rows of a rearrangement of the rows given, so there are as
/// many pane rows as rows.
pub proof fn lemma_each_task_listed_once(
    ws: Seq<WorktreeGroupView>,
    es: Seq<WindowStateEntryView>,
    metas: Map<Seq<char>, SquadMetaView>,
)
    requires
        keys_distinct(ws),
    ensures
        pane_entries(spec_build_hierarchy(ws, es, metas)) == pane_rows(
            listed_panes(es, metas, all_groups(ws, es, metas), session_names(all_groups(ws, es, metas))),
            metas,
        ),
        listed_panes(es, metas, all_groups(ws, es, metas), session_names(all_groups(ws, es, metas))).to_multiset()
            == es.to_multiset(),
        pane_row_count(spec_build_hierarchy(ws, es, metas)) == es.len(),
{
    let gs = all_groups(ws, es, metas);
    let names = session_names(gs);
    let lp = listed_panes(es, metas, gs, names);
    let r = spec_build_hierarchy(ws, es, metas);
    lemma_session_blocks_entries(es, metas, gs, names);
    lemma_all_groups_distinct(ws, es, metas);
    assert forall|t: Seq<char>, i: int, j: int|
        0 <= i < j < session_groups(gs, t).len() implies (#[trigger] session_groups(gs, t)[i]).worktree_path
            != (#[trigger] session_groups(gs, t)[j]).worktree_path by {
        lemma_session_paths_distinct(gs, t);
    }
    lemma_distinct_sessions(gs);
    lemma_sort_no_duplicates(distinct_sessions(gs), name_order());
    lemma_sort_elems(distinct_sessions(gs), name_order());
    assert forall|x: WindowStateEntryView| lp.to_multiset().count(x) == es.to_multiset().count(x) by {
        lemma_listed_panes_count(es, metas, gs, names, x);
        es.to_multiset_ensures();
        if es.to_multiset().count(x) > 0 {
            assert(es.contains(x));
            let i = choose|i: int| 0 <= i < es.len() && es[i] == x;
            let g = lemma_group_for_entry(ws, es, metas, i);
            let q = choose|q: int| 0 <= q < gs.len() && gs[q] == g;
            assert(distinct_sessions(gs).contains(gs[q].session));
            assert(names.contains(group_key(x, metas).0));
            lemma_in_session_contains(gs, g.session, g);
            lemma_sort_elems(in_session(gs, g.session), path_order());
            let sgs = session_groups(gs, g.session);
            assert(sgs.contains(g));
            let k = choose|k: int| 0 <= k < sgs.len() && sgs[k] == g;
            assert(sgs[k].worktree_path == group_key(x, metas).1);
        }
    }
    assert(lp.to_multiset() =~= es.to_multiset());
    lemma_pane_entries_concat(r, Seq::empty());
    crate::hierarchy_flat::lemma_pane_rows_len(lp, metas);
    vstd::seq_lib::to_multiset_len(lp);
    vstd::seq_lib::to_multiset_len(es);
}

// ---------------------------------------------------------------------------
// The order of the inputs does not matter
// ---------------------------------------------------------------------------

/// No two window-states rows share a task id.
pub open spec fn ids_distinct(es: Seq<WindowStateEntryView>) -> bool {
    forall|i: int, j: int| 0 <= i < j < es.len() ==> (#[trigger] es[i]).id != (#[trigger] es[j]).id
}

/// What the rows take from a group listed in a session: its path, its
/// branch and its session label.
pub open spec fn group_face(g: WorktreeGroupView) -> (Seq<char>, Option<Seq<char>>, Option<Seq<char>>) {
    (g.worktree_path, g.worktree_branch, g.session_label)
}

/// The order of faces by path.
pub open spec fn face_order() -> spec_fn(
    (Seq<char>, Option<Seq<char>>, Option<Seq<char>>),
    (Seq<char>, Option<Seq<char>>, Option<Seq<char>>),
) -> bool {
    |a: (Seq<char>, Option<Seq<char>>, Option<Seq<char>>), b: (Seq<char>, Option<Seq<char>>, Option<Seq<char>>)|
        seq_le(a.0, b.0)
}

/// The faces of the groups of session `t`, in path order.
pub open spec fn session_faces(gs: Seq<WorktreeGroupView>, t: Seq<char>) -> Seq<
    (Seq<char>, Option<Seq<char>>, Option<Seq<char>>),
> {
    session_groups(gs, t).map_values(|g: WorktreeGroupView| group_face(g))
}

/// The blocks of two group lists with the same faces are equal, when the
/// panes of each path are.
proof fn lemma_worktree_blocks_same(
    es: Seq<WindowStateEntryView>,
    es2: Seq<WindowStateEntryView>,
    m: Map<Seq<char>, SquadMetaView>,
    s: Seq<char>,
    a: Seq<WorktreeGroupView>,
    b: Seq<WorktreeGroupView>,
)
    requires
        a.len() == b.len(),
        forall|i: int| 0 <= i < a.len() ==> group_face(#[trigger] a[i]) == group_face(b[i]),
        forall|p: Seq<char>| #[trigger] group_panes(es, m, s, p) == group_panes(es2, m, s, p),
    ensures
        worktree_blocks(es, m, s, a) == worktree_blocks(es2, m, s, b),
        session_panes(es, m, s, a) == session_panes(es2, m, s, b),
        first_label(a) == first_label(b),
    decreases a.len(),
{
    if a.len() > 0 {
        let a2 = a.drop_last();
        let b2 = b.drop_last();
        assert forall|i: int| 0 <= i < a2.len() implies group_face(#[trigger] a2[i]) == group_face(b2[i]) by {
            assert(a2[i] == a[i] && b2[i] == b[i]);
        }
        lemma_worktree_blocks_same(es, es2, m, s, a2, b2);
        assert(group_face(a[a.len() - 1]) == group_face(b[b.len() - 1]));
        assert(group_panes(es, m, s, a.last().worktree_path) == group_panes(es2, m, s, b.last().worktree_path));
        assert(worktree_block(es, m, s, a.last()) == worktree_block(es2, m, s, b.last()));
    }
}

/// The sessions' blocks are equal when their faces and panes are.
proof fn lemma_session_blocks_same(
    es: Seq<WindowStateEntryView>,
    es2: Seq<WindowStateEntryView>,
    m: Map<Seq<char>, SquadMetaView>,
    gs: Seq<WorktreeGroupView>,
    gs2: Seq<WorktreeGroupView>,
    names: Seq<Seq<char>>,
)
    requires
        forall|t: Seq<char>| #[trigger] session_faces(gs, t) == session_faces(gs2, t),
        forall|t: Seq<char>, p: Seq<char>| #[trigger] group_panes(es, m, t, p) == group_panes(es2, m, t, p),
    ensures
        session_blocks(es, m, gs, names) == session_blocks(es2, m, gs2, names),
    decreases names.len(),
{
    if names.len() > 0 {
        lemma_session_blocks_same(es, es2, m, gs, gs2, names.drop_last());
        let t = names.last();
        let a = session_groups(gs, t);
        let b = session_groups(gs2, t);
        assert(session_faces(gs, t) == session_faces(gs2, t));
        assert(a.len() == session_faces(gs, t).len());
        assert forall|i: int| 0 <= i < a.len() implies group_face(#[trigger] a[i]) == group_face(b[i]) by {
            assert(session_faces(gs, t)[i] == group_face(a[i]));
            assert(session_faces(gs2, t)[i] == group_face(b[i]));
        }
        assert forall|p: Seq<char>| #[trigger] group_panes(es, m, t, p) == group_panes(es2, m, t, p) by {
            assert(group_panes(es, m, t, p) == group_panes(es2, m, t, p));
        }
        lemma_worktree_blocks_same(es, es2, m, t, a, b);
    }
}

/// In-group rows keep the rows' distinct ids.
proof fn lemma_in_group_ids_distinct(
    es: Seq<WindowStateEntryView>,
    m: Map<Seq<char>, SquadMetaView>,
    s: Seq<char>,
    p: Seq<char>,
)
    requires
        ids_distinct(es),
    ensures
        ids_distinct(in_group(es, m, s, p)),
    decreases es.len(),
{
    if es.len() > 0 {
        let init = es.drop_last();
        assert(ids_distinct(init)) by {
            assert forall|i: int, j: int| 0 <= i < j < init.len() implies (#[trigger] init[i]).id != (#[trigger] init[j]).id by {
                assert(init[i] == es[i] && init[j] == es[j]);
            }
        }
        lemma_in_group_ids_distinct(init, m, s, p);
        let v = in_group(init, m, s, p);
        if group_key(es.last(), m) == (s, p) {
            let w = v.push(es.last());
            crate::hierarchy_flat::lemma_in_group_members(init, m, s, p);
            assert forall|i: int, j: int| 0 <= i < j < w.len() implies (#[trigger] w[i]).id != (#[trigger] w[j]).id by {
                assert(w[i] == v[i]);
                if j == v.len() {
                    assert(v.contains(v[i]));
                    assert(init.contains(v[i]));
                    let q = choose|q: int| 0 <= q < init.len() && init[q] == v[i];
                    assert(es[q] == init[q]);
                } else {
                    assert(w[j] == v[j]);
                }
            }
        }
    }
}

/// The panes of a group depend only on which rows there are, when their ids
/// are distinct.
proof fn lemma_group_panes_same(
    es: Seq<WindowStateEntryView>,
    es2: Seq<WindowStateEntryView>,
    m: Map<Seq<char>, SquadMetaView>,
    s: Seq<char>,
    p: Seq<char>,
)
    requires
        ids_distinct(es),
        ids_distinct(es2),
        forall|e: WindowStateEntryView| es.contains(e) <==> es2.contains(e),
    ensures
        group_panes(es, m, s, p) == group_panes(es2, m, s, p),
{
    let v = in_group(es, m, s, p);
    let v2 = in_group(es2, m, s, p);
    let a = group_panes(es, m, s, p);
    let b = group_panes(es2, m, s, p);
    lemma_orders_total();
    lemma_seq_le_total_order();
    lemma_sort_sorted(v, id_order());
    lemma_sort_sorted(v2, id_order());
    lemma_in_group_ids_distinct(es, m, s, p);
    lemma_in_group_ids_distinct(es2, m, s, p);
    lemma_sort_distinct_by(v, id_order(), |e: WindowStateEntryView| e.id);
    lemma_sort_distinct_by(v2, id_order(), |e: WindowStateEntryView| e.id);
    assert forall|i: int, j: int| 0 <= i < j < a.len() implies (#[trigger] a[i]).id != (#[trigger] a[j]).id by {
        assert((|e: WindowStateEntryView| e.id)(a[i]) != (|e: WindowStateEntryView| e.id)(a[j]));
    }
    assert forall|i: int, j: int| 0 <= i < j < b.len() implies (#[trigger] b[i]).id != (#[trigger] b[j]).id by {
        assert((|e: WindowStateEntryView| e.id)(b[i]) != (|e: WindowStateEntryView| e.id)(b[j]));
    }
    assert(a.no_duplicates()) by {
        assert forall|i: int, j: int| 0 <= i < a.len() && 0 <= j < a.len() && i != j implies a[i] != a[j] by {
            if i < j { assert(a[i].id != a[j].id); } else { assert(a[j].id != a[i].id); }
        }
    }
    assert(b.no_duplicates()) by {
        assert forall|i: int, j: int| 0 <= i < b.len() && 0 <= j < b.len() && i != j implies b[i] != b[j] by {
            if i < j { assert(b[i].id != b[j].id); } else { assert(b[j].id != b[i].id); }
        }
    }
    lemma_sort_elems(v, id_order());
    lemma_sort_elems(v2, id_order());
    crate::hierarchy_flat::lemma_in_group_members(es, m, s, p);
    crate::hierarchy_flat::lemma_in_group_members(es2, m, s, p);
    assert forall|x: WindowStateEntryView| a.contains(x) <==> b.contains(x) by {
        if a.contains(x) {
            assert(v.contains(x));
            assert(es2.contains(x));
            let i = choose|i: int| 0 <= i < es2.len() && es2[i] == x;
            lemma_in_group_contains(es2, m, i);
        }
        if b.contains(x) {
            assert(v2.contains(x));
            assert(es.contains(x));
            let i = choose|i: int| 0 <= i < es.len() && es[i] == x;
            lemma_in_group_contains(es, m, i);
        }
    }
    assert forall|x: WindowStateEntryView, y: WindowStateEntryView|
        a.contains(x) && a.contains(y) && #[trigger] id_order()(x, y) && #[trigger] id_order()(y, x) implies x == y by {
        let i = choose|i: int| 0 <= i < a.len() && a[i] == x;
        let j = choose|j: int| 0 <= j < a.len() && a[j] == y;
        assert(seq_le(x.id, y.id) && seq_le(y.id, x.id));
        assert(x.id == y.id);
        if i < j { assert(a[i].id != a[j].id); } else if j < i { assert(a[j].id != a[i].id); }
    }
    lemma_sorted_unique(a, b, id_order());
}

proof fn lemma_unpublished_not_published(ds: Seq<WorktreeGroupView>, ws: Seq<WorktreeGroupView>, x: WorktreeGroupView)
    requires
        unpublished(ds, ws).contains(x),
    ensures
        !is_published(ws, x.session, x.worktree_path),
    decreases ds.len(),
{
    let init = ds.drop_last();
    if unpublished(init, ws).contains(x) {
        lemma_unpublished_not_published(init, ws, x);
    } else {
        let u = unpublished(ds, ws);
        let k = choose|k: int| 0 <= k < u.len() && u[k] == x;
        assert(ds.last() == x);
    }
}

/// A group of session `t` with face `y` listed from `(ws, es)` is listed
/// from any `(ws2, es2)` with the same groups and rows.
proof fn lemma_face_listed(
    ws: Seq<WorktreeGroupView>,
    es: Seq<WindowStateEntryView>,
    ws2: Seq<WorktreeGroupView>,
    es2: Seq<WindowStateEntryView>,
    m: Map<Seq<char>, SquadMetaView>,
    t: Seq<char>,
    g: WorktreeGroupView,
)
    requires
        forall|w: WorktreeGroupView| ws.contains(w) <==> ws2.contains(w),
        forall|e: WindowStateEntryView| es.contains(e) <==> es2.contains(e),
        all_groups(ws, es, m).contains(g),
    ensures
        exists|h: WorktreeGroupView|
            all_groups(ws2, es2, m).contains(h) && h.session == g.session && #[trigger] group_face(h) == group_face(g),
{
    let gs = all_groups(ws, es, m);
    let gs2 = all_groups(ws2, es2, m);
    let ds = spec_derive_worktree_groups(es, m);
    let ds2 = spec_derive_worktree_groups(es2, m);
    let k = choose|k: int| 0 <= k < gs.len() && gs[k] == g;
    if k < ws.len() {
        assert(ws[k] == g && ws.contains(g));
        assert(ws2.contains(g));
        let q = choose|q: int| 0 <= q < ws2.len() && ws2[q] == g;
        assert(gs2[q] == g);
        assert(gs2.contains(g));
        assert(gs2.contains(g) && g.session == g.session && group_face(g) == group_face(g));
    } else {
        let u = unpublished(ds, ws);
        assert(u[k - ws.len()] == g);
        assert(u.contains(g));
        lemma_unpublished_from(ds, ws, g);
        lemma_unpublished_not_published(ds, ws, g);
        let keys = keys_in_order(es, m);
        let sorted = sort_stable(keys, pair_order());
        let q = choose|q: int| 0 <= q < ds.len() && ds[q] == g;
        let key = sorted[q];
        assert(g == derived_group(es, m, key));
        lemma_sort_elems(keys, pair_order());
        assert(sorted.contains(key));
        lemma_key_from(es, m, key);
        let i = choose|i: int| 0 <= i < es.len() && group_key(#[trigger] es[i], m) == key;
        assert(es.contains(es[i]));
        assert(es2.contains(es[i]));
        let i2 = choose|i2: int| 0 <= i2 < es2.len() && es2[i2] == es[i];
        lemma_key_listed(es2, m, i2);
        let keys2 = keys_in_order(es2, m);
        let sorted2 = sort_stable(keys2, pair_order());
        lemma_sort_elems(keys2, pair_order());
        assert(sorted2.contains(key));
        let q2 = choose|q2: int| 0 <= q2 < sorted2.len() && sorted2[q2] == key;
        let h = derived_group(es2, m, key);
        assert(ds2[q2] == h);
        assert(ds2.contains(h));
        assert(!is_published(ws2, h.session, h.worktree_path)) by {
            if is_published(ws2, h.session, h.worktree_path) {
                let j = choose|j: int| 0 <= j < ws2.len() && ws2[j].session == h.session && ws2[j].worktree_path == h.worktree_path;
                assert(ws2.contains(ws2[j]));
                assert(ws.contains(ws2[j]));
                let j1 = choose|j1: int| 0 <= j1 < ws.len() && ws[j1] == ws2[j];
                assert(ws[j1].session == g.session && ws[j1].worktree_path == g.worktree_path);
            }
        }
        lemma_unpublished_contains(ds2, ws2, h);
        lemma_concat_contains(ws2, unpublished(ds2, ws2), h);
        assert(gs2 == ws2 + unpublished(ds2, ws2));
        assert(gs2.contains(h));
        assert(h.session == g.session);
        assert(group_face(h) == group_face(g));
    }
}

proof fn lemma_faces_facts(gs: Seq<WorktreeGroupView>, t: Seq<char>)
    requires
        keys_distinct(gs),
    ensures
        sorted_by(session_faces(gs, t), face_order()),
        session_faces(gs, t).no_duplicates(),
        forall|x: (Seq<char>, Option<Seq<char>>, Option<Seq<char>>), y: (Seq<char>, Option<Seq<char>>, Option<Seq<char>>)|
            session_faces(gs, t).contains(x) && session_faces(gs, t).contains(y) && #[trigger] face_order()(x, y)
                && #[trigger] face_order()(y, x) ==> x == y,
        forall|y: (Seq<char>, Option<Seq<char>>, Option<Seq<char>>)|
            session_faces(gs, t).contains(y) <==> exists|h: WorktreeGroupView|
                gs.contains(h) && h.session == t && #[trigger] group_face(h) == y,
{
    let v = in_session(gs, t);
    let fv = v.map_values(|g: WorktreeGroupView| group_face(g));
    let f = session_faces(gs, t);
    lemma_sort_map(v, |g: WorktreeGroupView| group_face(g), path_order(), face_order());
    assert(f == sort_stable(fv, face_order()));
    lemma_seq_le_total_order();
    assert(total_preorder(face_order())) by {
        assert forall|a: (Seq<char>, Option<Seq<char>>, Option<Seq<char>>), b: (Seq<char>, Option<Seq<char>>, Option<Seq<char>>)|
            #[trigger] face_order()(a, b) || face_order()(b, a) by {
            assert(seq_le(a.0, b.0) || seq_le(b.0, a.0));
        }
        assert forall|a: (Seq<char>, Option<Seq<char>>, Option<Seq<char>>), b: (Seq<char>, Option<Seq<char>>, Option<Seq<char>>), c: (Seq<char>, Option<Seq<char>>, Option<Seq<char>>)|
            #[trigger] face_order()(a, b) && #[trigger] face_order()(b, c) implies face_order()(a, c) by {
            assert(seq_le(a.0, b.0) && seq_le(b.0, c.0));
        }
    }
    lemma_sort_sorted(fv, face_order());
    assert forall|i: int, j: int| 0 <= i < j < fv.len() implies (|p: (Seq<char>, Option<Seq<char>>, Option<Seq<char>>)| p.0)(
        #[trigger] fv[i],
    ) != (|p: (Seq<char>, Option<Seq<char>>, Option<Seq<char>>)| p.0)(#[trigger] fv[j]) by {
        lemma_in_session_distinct(gs, t, i, j);
    }
    lemma_sort_distinct_by(fv, face_order(), |p: (Seq<char>, Option<Seq<char>>, Option<Seq<char>>)| p.0);
    assert forall|i: int, j: int| 0 <= i < j < f.len() implies (#[trigger] f[i]).0 != (#[trigger] f[j]).0 by {
        assert((|p: (Seq<char>, Option<Seq<char>>, Option<Seq<char>>)| p.0)(f[i]) != (|p: (Seq<char>, Option<Seq<char>>, Option<Seq<char>>)| p.0)(f[j]));
    }
    assert(f.no_duplicates()) by {
        assert forall|i: int, j: int| 0 <= i < f.len() && 0 <= j < f.len() && i != j implies f[i] != f[j] by {
            if i < j { assert(f[i].0 != f[j].0); } else { assert(f[j].0 != f[i].0); }
        }
    }
    assert forall|x: (Seq<char>, Option<Seq<char>>, Option<Seq<char>>), y: (Seq<char>, Option<Seq<char>>, Option<Seq<char>>)|
        f.contains(x) && f.contains(y) && #[trigger] face_order()(x, y) && #[trigger] face_order()(y, x) implies x == y by {
        let i = choose|i: int| 0 <= i < f.len() && f[i] == x;
        let j = choose|j: int| 0 <= j < f.len() && f[j] == y;
        assert(seq_le(x.0, y.0) && seq_le(y.0, x.0));
        if i < j { assert(f[i].0 != f[j].0); } else if j < i { assert(f[j].0 != f[i].0); }
    }
    lemma_sort_elems(fv, face_order());
    assert forall|y: (Seq<char>, Option<Seq<char>>, Option<Seq<char>>)|
        f.contains(y) <==> exists|h: WorktreeGroupView| gs.contains(h) && h.session == t && #[trigger] group_face(h) == y by {
        if f.contains(y) {
            assert(fv.contains(y));
            let i = choose|i: int| 0 <= i < fv.len() && fv[i] == y;
            assert(v.contains(v[i]));
            lemma_in_session_from(gs, t, v[i]);
            assert(group_face(v[i]) == y);
        }
        if exists|h: WorktreeGroupView| gs.contains(h) && h.session == t && #[trigger] group_face(h) == y {
            let h = choose|h: WorktreeGroupView| gs.contains(h) && h.session == t && #[trigger] group_face(h) == y;
            lemma_in_session_contains(gs, t, h);
            let i = choose|i: int| 0 <= i < v.len() && v[i] == h;
            assert(fv[i] == y);
            assert(fv.contains(y));
        }
    }
}

/// With published groups of distinct session and worktree path and rows of
/// distinct task ids, the hierarchy does not depend on the order in which
/// the groups and the rows come.
pub proof fn lemma_input_order_irrelevant(
    ws: Seq<WorktreeGroupView>,
    es: Seq<WindowStateEntryView>,
    ws2: Seq<WorktreeGroupView>,
    es2: Seq<WindowStateEntryView>,
    metas: Map<Seq<char>, SquadMetaView>,
)
    requires
        keys_distinct(ws),
        ids_distinct(es),
        ws2.to_multiset() == ws.to_multiset(),
        es2.to_multiset() == es.to_multiset(),
    ensures
        spec_build_hierarchy(ws2, es2, metas) == spec_build_hierarchy(ws, es, metas),
{
    let gs = all_groups(ws, es, metas);
    let gs2 = all_groups(ws2, es2, metas);
    // The second inputs are as distinct as the first.
    assert forall|i: int, j: int| 0 <= i < j < ws.len() implies (|g: WorktreeGroupView| (g.session, g.worktree_path))(
        #[trigger] ws[i],
    ) != (|g: WorktreeGroupView| (g.session, g.worktree_path))(#[trigger] ws[j]) by {}
    lemma_perm_distinct_by(ws, ws2, |g: WorktreeGroupView| (g.session, g.worktree_path));
    assert(keys_distinct(ws2)) by {
        assert forall|i: int, j: int| 0 <= i < j < ws2.len() implies ((#[trigger] ws2[i]).session, ws2[i].worktree_path)
            != ((#[trigger] ws2[j]).session, ws2[j].worktree_path) by {
            assert((|g: WorktreeGroupView| (g.session, g.worktree_path))(ws2[i]) != (|g: WorktreeGroupView| (g.session, g.worktree_path))(ws2[j]));
        }
    }
    assert forall|i: int, j: int| 0 <= i < j < es.len() implies (|e: WindowStateEntryView| e.id)(
        #[trigger] es[i],
    ) != (|e: WindowStateEntryView| e.id)(#[trigger] es[j]) by {}
    lemma_perm_distinct_by(es, es2, |e: WindowStateEntryView| e.id);
    assert(ids_distinct(es2)) by {
        assert forall|i: int, j: int| 0 <= i < j < es2.len() implies (#[trigger] es2[i]).id != (#[trigger] es2[j]).id by {
            assert((|e: WindowStateEntryView| e.id)(es2[i]) != (|e: WindowStateEntryView| e.id)(es2[j]));
        }
    }
    lemma_all_groups_distinct(ws, es, metas);
    lemma_all_groups_distinct(ws2, es2, metas);
    // The panes of each group.
    assert forall|t: Seq<char>, p: Seq<char>| #[trigger] group_panes(es, metas, t, p) == group_panes(es2, metas, t, p) by {
        lemma_group_panes_same(es, es2, metas, t, p);
    }
    // The groups of each session.
    assert forall|t: Seq<char>| #[trigger] session_faces(gs, t) == session_faces(gs2, t) by {
        lemma_faces_facts(gs, t);
        lemma_faces_facts(gs2, t);
        assert forall|y: (Seq<char>, Option<Seq<char>>, Option<Seq<char>>)|
            session_faces(gs, t).contains(y) <==> session_faces(gs2, t).contains(y) by {
            if session_faces(gs, t).contains(y) {
                let h = choose|h: WorktreeGroupView| gs.contains(h) && h.session == t && #[trigger] group_face(h) == y;
                lemma_face_listed(ws, es, ws2, es2, metas, t, h);
            }
            if session_faces(gs2, t).contains(y) {
                let h = choose|h: WorktreeGroupView| gs2.contains(h) && h.session == t && #[trigger] group_face(h) == y;
                lemma_face_listed(ws2, es2, ws, es, metas, t, h);
            }
        }
        lemma_sorted_unique(session_faces(gs, t), session_faces(gs2, t), face_order());
    }
    // The sessions.
    let names = session_names(gs);
    let names2 = session_names(gs2);
    lemma_session_blocks_names(es, metas, gs, names);
    lemma_session_blocks_names(es2, metas, gs2, names2);
    lemma_orders_total();
    lemma_seq_le_total_order();
    lemma_sort_sorted(distinct_sessions(gs), name_order());
    lemma_sort_sorted(distinct_sessions(gs2), name_order());
    lemma_distinct_sessions(gs);
    lemma_distinct_sessions(gs2);
    lemma_sort_no_duplicates(distinct_sessions(gs), name_order());
    lemma_sort_no_duplicates(distinct_sessions(gs2), name_order());
    assert forall|x: Seq<char>| names.contains(x) <==> names2.contains(x) by {
        lemma_listed_sessions(ws, es, metas, x);
        lemma_listed_sessions(ws2, es2, metas, x);
        if exists|i: int| 0 <= i < ws.len() && (#[trigger] ws[i]).session == x {
            let i = choose|i: int| 0 <= i < ws.len() && (#[trigger] ws[i]).session == x;
            assert(ws.contains(ws[i]));
            let j = choose|j: int| 0 <= j < ws2.len() && ws2[j] == ws[i];
            assert(ws2[j].session == x);
        }
        if exists|i: int| 0 <= i < ws2.len() && (#[trigger] ws2[i]).session == x {
            let i = choose|i: int| 0 <= i < ws2.len() && (#[trigger] ws2[i]).session == x;
            assert(ws2.contains(ws2[i]));
            let j = choose|j: int| 0 <= j < ws.len() && ws[j] == ws2[i];
            assert(ws[j].session == x);
        }
        if exists|i: int| 0 <= i < es.len() && entry_session(#[trigger] es[i]) == x {
            let i = choose|i: int| 0 <= i < es.len() && entry_session(#[trigger] es[i]) == x;
            assert(es.contains(es[i]));
            let j = choose|j: int| 0 <= j < es2.len() && es2[j] == es[i];
            assert(entry_session(es2[j]) == x);
        }
        if exists|i: int| 0 <= i < es2.len() && entry_session(#[trigger] es2[i]) == x {
            let i = choose|i: int| 0 <= i < es2.len() && entry_session(#[trigger] es2[i]) == x;
            assert(es2.contains(es2[i]));
            let j = choose|j: int| 0 <= j < es.len() && es[j] == es2[i];
            assert(entry_session(es[j]) == x);
        }
    }
    lemma_sorted_unique(names, names2, name_order());
    lemma_session_blocks_same(es, es2, metas, gs, gs2, names);
}

// ---------------------------------------------------------------------------
// What each pane row shows
// ---------------------------------------------------------------------------

proof fn lemma_pane_in_entries(rows: Seq<SidebarEntryView>, i: int)
    requires
        0 <= i < rows.len(),
        rows[i] is Pane,
    ensures
        pane_entries(rows).contains(rows[i]),
    decreases rows.len(),
{
    let init = rows.drop_last();
    if i == rows.len() - 1 {
        lemma_push_contains(pane_entries(init), rows[i], rows[i]);
    } else {
        assert(init[i] == rows[i]);
        lemma_pane_in_entries(init, i);
        if rows.last() is Pane {
            lemma_push_contains(pane_entries(init), rows.last(), rows[i]);
        }
    }
}

/// Every pane row of the hierarchy is the pane row of some window-states row
/// of the given ones, and shows its task's agent command: `model (effort)`
/// when the task's metadata sets both, the model alone, `(effort)` alone,
/// or none, and none when the task has no metadata; its agent kind is the
/// metadata's kind.
pub proof fn lemma_pane_rows_show_commands(
    ws: Seq<WorktreeGroupView>,
    es: Seq<WindowStateEntryView>,
    metas: Map<Seq<char>, SquadMetaView>,
    i: int,
)
    requires
        0 <= i < spec_build_hierarchy(ws, es, metas).len(),
        spec_build_hierarchy(ws, es, metas)[i] is Pane,
    ensures
        exists|k: int| 0 <= k < es.len() && spec_build_hierarchy(ws, es, metas)[i] == spec_pane_entry(#[trigger] es[k], metas),
        ({
            let row = spec_build_hierarchy(ws, es, metas)[i];
            let t = row->task_id;
            let cmd = row->agent_command;
            if metas.contains_key(t) {
                let m = metas[t];
                &&& row->agent_kind == m.kind
                &&& (m.model is Some && m.effort is Some ==> cmd == Some(
                    m.model->0 + " ("@ + m.effort->0 + ")"@,
                ))
                &&& (m.model is Some && m.effort is None ==> cmd == m.model)
                &&& (m.model is None && m.effort is Some ==> cmd == Some("("@ + m.effort->0 + ")"@))
                &&& (m.model is None && m.effort is None ==> cmd is None)
            } else {
                cmd is None && row->agent_kind is None
            }
        }),
{
    let r = spec_build_hierarchy(ws, es, metas);
    let gs = all_groups(ws, es, metas);
    let names = session_names(gs);
    let lp = listed_panes(es, metas, gs, names);
    lemma_session_blocks_entries(es, metas, gs, names);
    lemma_pane_in_entries(r, i);
    let pe = pane_entries(r);
    let j = choose|j: int| 0 <= j < pe.len() && pe[j] == r[i];
    crate::hierarchy_flat::lemma_pane_rows_facts(lp, metas);
    assert(r[i] == spec_pane_entry(lp[j], metas));
    lemma_listed_panes_from(es, metas, gs, names, lp[j]);
    let k = choose|k: int| 0 <= k < es.len() && es[k] == lp[j];
    assert(r[i] == spec_pane_entry(es[k], metas));
    crate::squad_laws::lemma_pane_entry_command(es[k], metas);
}

proof fn lemma_concat_from<T>(a: Seq<T>, b: Seq<T>, x: T)
    requires
        (a + b).contains(x),
    ensures
        a.contains(x) || b.contains(x),
{
    let k = choose|k: int| 0 <= k < (a + b).len() && (a + b)[k] == x;
    if k < a.len() {
        assert(a[k] == x);
    } else {
        assert(b[k - a.len()] == x);
    }
}

proof fn lemma_session_panes_from(
    es: Seq<WindowStateEntryView>,
    m: Map<Seq<char>, SquadMetaView>,
    s: Seq<char>,
    sgs: Seq<WorktreeGroupView>,
    x: WindowStateEntryView,
)
    requires
        session_panes(es, m, s, sgs).contains(x),
    ensures
        es.contains(x),
    decreases sgs.len(),
{
    if sgs.len() > 0 {
        let a = session_panes(es, m, s, sgs.drop_last());
        let p = sgs.last().worktree_path;
        lemma_concat_from(a, group_panes(es, m, s, p), x);
        if a.contains(x) {
            lemma_session_panes_from(es, m, s, sgs.drop_last(), x);
        } else {
            lemma_sort_elems(in_group(es, m, s, p), id_order());
            crate::hierarchy_flat::lemma_in_group_members(es, m, s, p);
            assert(in_group(es, m, s, p).contains(x));
        }
    }
}

proof fn lemma_listed_panes_from(
    es: Seq<WindowStateEntryView>,
    m: Map<Seq<char>, SquadMetaView>,
    gs: Seq<WorktreeGroupView>,
    names: Seq<Seq<char>>,
    x: WindowStateEntryView,
)
    requires
        listed_panes(es, m, gs, names).contains(x),
    ensures
        es.contains(x),
    decreases names.len(),
{
    if names.len() > 0 {
        let a = listed_panes(es, m, gs, names.drop_last());
        let t = names.last();
        lemma_concat_from(a, session_panes(es, m, t, session_groups(gs, t)), x);
        if a.contains(x) {
            lemma_listed_panes_from(es, m, gs, names.drop_last(), x);
        } else {
            lemma_session_panes_from(es, m, t, session_groups(gs, t), x);
        }
    }
}

} // verus!
