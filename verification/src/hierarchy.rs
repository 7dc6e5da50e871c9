//! The hierarchical sidebar list (session → worktree → pane) built from the
//! parsed state files.
use vstd::prelude::*;

use crate::agent::{aggregate, combine_status, AgentStatus};
use crate::data_source::{SidebarEntry, SidebarEntryView};
use crate::squad::{
    entry_views, group_views, meta_for, spec_entry_worktree_path, spec_map_status,
    spec_pane_entry, spec_parse_meta, spec_parse_window_states, spec_parse_window_target,
    spec_parse_worktrees,
    entry_worktree_path, string_views, MetaMap, SquadDataSource, SquadMetaView, WindowStateEntry,
    WindowStateEntryView, WorktreeGroup, WorktreeGroupView,
};
use crate::sort::{
    indices_below, key_order, lemma_sort_map, pick, pair_key_order, pair_order, sort_indices_by_key,
    sort_indices_by_pair, sort_stable,
};
use crate::text::{chars_eq, chars_of, clone_opt, opt_view, seq_le, string_from_chars, views};

verus! {

// ---------------------------------------------------------------------------
// Groups derived from window-states rows
// ---------------------------------------------------------------------------

/// The session of a window-states row.
pub open spec fn entry_session(e: WindowStateEntryView) -> Seq<char> {
    spec_parse_window_target(e.window).0
}

/// The `(session, worktree path)` group that a window-states row belongs to.
pub open spec fn group_key(e: WindowStateEntryView, metas: Map<Seq<char>, SquadMetaView>) -> (
    Seq<char>,
    Seq<char>,
) {
    (entry_session(e), spec_entry_worktree_path(e, metas))
}

/// The distinct group keys of `es`, in order of first appearance.
pub open spec fn keys_in_order(
    es: Seq<WindowStateEntryView>,
    metas: Map<Seq<char>, SquadMetaView>,
) -> Seq<(Seq<char>, Seq<char>)>
    decreases es.len(),
{
    if es.len() == 0 {
        Seq::empty()
    } else {
        let ks = keys_in_order(es.drop_last(), metas);
        let k = group_key(es.last(), metas);
        if ks.contains(k) {
            ks
        } else {
            ks.push(k)
        }
    }
}

/// The ids of the rows of `es` in group `k`, in order.
pub open spec fn ids_with_key(
    es: Seq<WindowStateEntryView>,
    metas: Map<Seq<char>, SquadMetaView>,
    k: (Seq<char>, Seq<char>),
) -> Seq<Seq<char>>
    decreases es.len(),
{
    if es.len() == 0 {
        Seq::empty()
    } else {
        let ids = ids_with_key(es.drop_last(), metas, k);
        if group_key(es.last(), metas) == k {
            ids.push(es.last().id)
        } else {
            ids
        }
    }
}

/// The first row of `es` in group `k`.
pub open spec fn first_with_key(
    es: Seq<WindowStateEntryView>,
    metas: Map<Seq<char>, SquadMetaView>,
    k: (Seq<char>, Seq<char>),
) -> Option<WindowStateEntryView>
    decreases es.len(),
{
    if es.len() == 0 {
        None
    } else {
        match first_with_key(es.drop_last(), metas, k) {
            Some(e) => Some(e),
            None => if group_key(es.last(), metas) == k {
                Some(es.last())
            } else {
                None
            },
        }
    }
}

/// The group derived for key `k`: its rows' ids, and the project of its
/// first row's metadata; no label and no branch.
pub open spec fn derived_group(
    es: Seq<WindowStateEntryView>,
    metas: Map<Seq<char>, SquadMetaView>,
    k: (Seq<char>, Seq<char>),
) -> WorktreeGroupView {
    WorktreeGroupView {
        session: k.0,
        worktree_path: k.1,
        project: match first_with_key(es, metas, k) {
            Some(e) => match meta_for(metas, e.id) {
                Some(m) => m.project,
                None => None,
            },
            None => None,
        },
        task_ids: ids_with_key(es, metas, k),
        session_label: None,
        worktree_branch: None,
    }
}

/// One derived group per distinct key of `es`, ordered by session and then
/// by worktree path.
pub open spec fn spec_derive_worktree_groups(
    es: Seq<WindowStateEntryView>,
    metas: Map<Seq<char>, SquadMetaView>,
) -> Seq<WorktreeGroupView> {
    sort_stable(keys_in_order(es, metas), pair_order()).map_values(
        |k: (Seq<char>, Seq<char>)| derived_group(es, metas, k),
    )
}

/// The session and worktree path of every row.
fn entry_keys(entries: &[WindowStateEntry], metas: &MetaMap) -> (r: (Vec<Vec<char>>, Vec<Vec<char>>))
    ensures
        r.0@.len() == entries@.len(),
        r.1@.len() == entries@.len(),
        forall|i: int|
            0 <= i < entries@.len() ==> (#[trigger] r.0@[i]@, r.1@[i]@) == group_key(
                entries@[i]@,
                metas@,
            ),
{
    let mut sessions: Vec<Vec<char>> = Vec::new();
    let mut paths: Vec<Vec<char>> = Vec::new();
    for i in 0..entries.len()
        invariant
            sessions@.len() == i,
            paths@.len() == i,
            forall|j: int|
                0 <= j < i ==> (#[trigger] sessions@[j]@, paths@[j]@) == group_key(
                    entries@[j]@,
                    metas@,
                ),
    {
        let (session, _) = SquadDataSource::parse_window_target(entries[i].window.as_str());
        let path = entry_worktree_path(&entries[i], metas);
        sessions.push(chars_of(session.as_str()));
        paths.push(chars_of(path.as_str()));
    }
    (sessions, paths)
}

/// Whether the pair `(a, b)` is among `(firsts[j], seconds[j])` for `j < upto`.
fn contains_pair(
    firsts: &Vec<Vec<char>>,
    seconds: &Vec<Vec<char>>,
    upto: usize,
    a: &[char],
    b: &[char],
) -> (r: bool)
    requires
        upto <= firsts@.len(),
        firsts@.len() == seconds@.len(),
    ensures
        r == exists|j: int| 0 <= j < upto && firsts@[j]@ == a@ && seconds@[j]@ == b@,
{
    let mut j: usize = 0;
    while j < upto
        invariant
            j <= upto <= firsts@.len(),
            firsts@.len() == seconds@.len(),
            forall|k: int| 0 <= k < j ==> !(firsts@[k]@ == a@ && seconds@[k]@ == b@),
        decreases upto - j,
    {
        if chars_eq(firsts[j].as_slice(), a) && chars_eq(seconds[j].as_slice(), b) {
            return true;
        }
        j = j + 1;
    }
    false
}

/// The pairs `(firsts[j], seconds[j])`.
pub open spec fn zip_views(firsts: Seq<Vec<char>>, seconds: Seq<Vec<char>>) -> Seq<
    (Seq<char>, Seq<char>),
> {
    Seq::new(firsts.len(), |j: int| (firsts[j]@, seconds[j]@))
}

/// The distinct keys of the rows, in order of first appearance.
fn distinct_keys(es_s: &Vec<Vec<char>>, es_p: &Vec<Vec<char>>, Ghost(es): Ghost<
    Seq<WindowStateEntryView>,
>, Ghost(metas): Ghost<Map<Seq<char>, SquadMetaView>>) -> (r: (Vec<Vec<char>>, Vec<Vec<char>>))
    requires
        es_s@.len() == es.len(),
        es_p@.len() == es.len(),
        forall|i: int| 0 <= i < es.len() ==> (#[trigger] es_s@[i]@, es_p@[i]@) == group_key(es[i], metas),
    ensures
        r.0@.len() == r.1@.len(),
        zip_views(r.0@, r.1@) == keys_in_order(es, metas),
{
    let mut ks: Vec<Vec<char>> = Vec::new();
    let mut kp: Vec<Vec<char>> = Vec::new();
    let mut i: usize = 0;
    assert(es.take(0) =~= Seq::<WindowStateEntryView>::empty());
    assert(zip_views(ks@, kp@) =~= keys_in_order(es.take(0), metas));
    while i < es_s.len()
        invariant
            i <= es.len(),
            es_s@.len() == es.len(),
            es_p@.len() == es.len(),
            forall|i: int| 0 <= i < es.len() ==> (#[trigger] es_s@[i]@, es_p@[i]@) == group_key(es[i], metas),
            ks@.len() == kp@.len(),
            zip_views(ks@, kp@) == keys_in_order(es.take(i as int), metas),
        decreases es.len() - i,
    {
        let ghost before = zip_views(ks@, kp@);
        let ghost k = group_key(es[i as int], metas);
        assert(es.take(i + 1).drop_last() =~= es.take(i as int));
        assert(es.take(i + 1).last() == es[i as int]);
        assert(k == (es_s@[i as int]@, es_p@[i as int]@));
        let found = contains_pair(&ks, &kp, ks.len(), es_s[i].as_slice(), es_p[i].as_slice());
        if found {
            proof {
                let j = choose|j: int|
                    0 <= j < ks@.len() && ks@[j]@ == es_s@[i as int]@ && kp@[j]@ == es_p@[i as int]@;
                assert(before[j] == k);
                assert(before.contains(k));
            }
        } else {
            assert(!before.contains(k)) by {
                if before.contains(k) {
                    let j = choose|j: int| 0 <= j < before.len() && before[j] == k;
                    assert(ks@[j]@ == es_s@[i as int]@ && kp@[j]@ == es_p@[i as int]@);
                }
            }
            ks.push(vstd::slice::slice_to_vec(es_s[i].as_slice()));
            kp.push(vstd::slice::slice_to_vec(es_p[i].as_slice()));
            assert(zip_views(ks@, kp@) =~= before.push(k));
        }
        i = i + 1;
    }
    assert(es.take(es.len() as int) =~= es);
    (ks, kp)
}

/// The derived group for key `(session, path)`.
fn derived_group_exec(
    entries: &[WindowStateEntry],
    metas: &MetaMap,
    es_s: &Vec<Vec<char>>,
    es_p: &Vec<Vec<char>>,
    session: &Vec<char>,
    path: &Vec<char>,
) -> (r: WorktreeGroup)
    requires
        es_s@.len() == entries@.len(),
        es_p@.len() == entries@.len(),
        forall|i: int|
            0 <= i < entries@.len() ==> (#[trigger] es_s@[i]@, es_p@[i]@) == group_key(
                entries@[i]@,
                metas@,
            ),
    ensures
        r@ == derived_group(entry_views(entries@), metas@, (session@, path@)),
{
    let ghost es = entry_views(entries@);
    let ghost k = (session@, path@);
    let mut ids: Vec<String> = Vec::new();
    let mut first: Option<usize> = None;
    let mut i: usize = 0;
    assert(es.take(0) =~= Seq::<WindowStateEntryView>::empty());
    assert(string_views(ids@) =~= Seq::<Seq<char>>::empty());
    while i < entries.len()
        invariant
            i <= entries@.len(),
            es == entry_views(entries@),
            es_s@.len() == entries@.len(),
            es_p@.len() == entries@.len(),
            forall|i: int|
                0 <= i < entries@.len() ==> (#[trigger] es_s@[i]@, es_p@[i]@) == group_key(
                    entries@[i]@,
                    metas@,
                ),
            k == (session@, path@),
            string_views(ids@) == ids_with_key(es.take(i as int), metas@, k),
            match first {
                Some(f) => f < i && first_with_key(es.take(i as int), metas@, k) == Some(es[f as int]),
                None => first_with_key(es.take(i as int), metas@, k) is None,
            },
        decreases entries@.len() - i,
    {
        let ghost prefix = es.take(i + 1);
        assert(prefix.drop_last() =~= es.take(i as int));
        assert(prefix.last() == es[i as int]);
        assert(es[i as int] == entries@[i as int]@);
        assert(group_key(es[i as int], metas@) == (es_s@[i as int]@, es_p@[i as int]@));
        if chars_eq(es_s[i].as_slice(), session.as_slice()) && chars_eq(
            es_p[i].as_slice(),
            path.as_slice(),
        ) {
            let ghost before = string_views(ids@);
            ids.push(entries[i].id.clone());
            assert(string_views(ids@) =~= before.push(es[i as int].id));
            if first.is_none() {
                first = Some(i);
            }
            assert(group_key(prefix.last(), metas@) == k);
        } else {
            assert(group_key(prefix.last(), metas@) != k);
        }
        assert(string_views(ids@) == ids_with_key(prefix, metas@, k));
        i = i + 1;
    }
    assert(es.take(entries@.len() as int) =~= es);
    let project = match first {
        Some(f) => match metas.get(entries[f].id.as_str()) {
            Some(m) => clone_opt(&m.project),
            None => None,
        },
        None => None,
    };
    WorktreeGroup {
        session: string_from_chars(session.as_slice()),
        worktree_path: string_from_chars(path.as_slice()),
        project,
        task_ids: ids,
        session_label: None,
        worktree_branch: None,
    }
}

/// The indices `0..n`.
fn index_range(n: usize) -> (r: Vec<usize>)
    ensures
        r@ == Seq::new(n as nat, |j: int| j as usize),
{
    let mut v: Vec<usize> = Vec::new();
    for j in 0..n
        invariant
            v@ == Seq::new(j as nat, |k: int| k as usize),
    {
        v.push(j);
        assert(v@ =~= Seq::new((j + 1) as nat, |k: int| k as usize));
    }
    v
}

/// Derive worktree groups from window-states + metas.
///
/// Used as a fallback when the `state/worktrees` file has not been published
/// yet, and as a safety net for entries the publisher hasn't grouped.
pub fn derive_worktree_groups(entries: &[WindowStateEntry], metas: &MetaMap) -> (r: Vec<
    WorktreeGroup,
>)
    ensures
        group_views(r@) == spec_derive_worktree_groups(entry_views(entries@), metas@),
{
    let ghost es = entry_views(entries@);
    let (es_s, es_p) = entry_keys(entries, metas);
    assert forall|i: int| 0 <= i < es.len() implies (#[trigger] es_s@[i]@, es_p@[i]@) == group_key(es[i], metas@) by {
        assert(es[i] == entries@[i]@);
    }
    let (ks, kp) = distinct_keys(&es_s, &es_p, Ghost(es), Ghost(metas@));
    let ghost keys = zip_views(ks@, kp@);
    let all = index_range(ks.len());
    let sorted = sort_indices_by_pair(&ks, &kp, &all);
    let ghost f = |j: usize| (views(ks@)[j as int], views(kp@)[j as int]);
    proof {
        lemma_sort_map(all@, f, pair_key_order(views(ks@), views(kp@)), pair_order());
        assert(all@.map_values(f) =~= keys);
    }
    let ghost sorted_keys = sort_stable(keys, pair_order());
    assert(sorted@.map_values(f) == sorted_keys);
    let mut out: Vec<WorktreeGroup> = Vec::new();
    let mut pos: usize = 0;
    while pos < sorted.len()
        invariant
            pos <= sorted@.len(),
            indices_below(sorted@, ks@.len() as int),
            ks@.len() == kp@.len(),
            sorted@.map_values(f) == sorted_keys,
            f == (|j: usize| (views(ks@)[j as int], views(kp@)[j as int])),
            es == entry_views(entries@),
            es_s@.len() == entries@.len(),
            es_p@.len() == entries@.len(),
            forall|i: int|
                0 <= i < entries@.len() ==> (#[trigger] es_s@[i]@, es_p@[i]@) == group_key(
                    entries@[i]@,
                    metas@,
                ),
            out@.len() == pos,
            forall|q: int|
                0 <= q < pos ==> (#[trigger] out@[q])@ == derived_group(es, metas@, sorted_keys[q]),
        decreases sorted@.len() - pos,
    {
        let j = sorted[pos];
        assert(sorted_keys[pos as int] == f(sorted@[pos as int]));
        let g = derived_group_exec(entries, metas, &es_s, &es_p, &ks[j], &kp[j]);
        out.push(g);
        pos = pos + 1;
    }
    assert(group_views(out@) =~= spec_derive_worktree_groups(es, metas@));
    out
}

// ---------------------------------------------------------------------------
// The hierarchy
// ---------------------------------------------------------------------------

/// Whether `ws` holds a group with this session and worktree path.
pub open spec fn is_published(ws: Seq<WorktreeGroupView>, session: Seq<char>, path: Seq<char>) -> bool {
    exists|i: int| 0 <= i < ws.len() && ws[i].session == session && ws[i].worktree_path == path
}

/// The groups of `ds` whose `(session, path)` `ws` does not hold, in order.
pub open spec fn unpublished(ds: Seq<WorktreeGroupView>, ws: Seq<WorktreeGroupView>) -> Seq<
    WorktreeGroupView,
>
    decreases ds.len(),
{
    if ds.len() == 0 {
        Seq::empty()
    } else {
        let init = unpublished(ds.drop_last(), ws);
        if is_published(ws, ds.last().session, ds.last().worktree_path) {
            init
        } else {
            init.push(ds.last())
        }
    }
}

/// The published groups, followed by the derived groups that the
/// published ones do not cover.
pub open spec fn all_groups(
    ws: Seq<WorktreeGroupView>,
    es: Seq<WindowStateEntryView>,
    metas: Map<Seq<char>, SquadMetaView>,
) -> Seq<WorktreeGroupView> {
    ws + unpublished(spec_derive_worktree_groups(es, metas), ws)
}

/// The distinct sessions of `gs`, in order of first appearance.
pub open spec fn distinct_sessions(gs: Seq<WorktreeGroupView>) -> Seq<Seq<char>>
    decreases gs.len(),
{
    if gs.len() == 0 {
        Seq::empty()
    } else {
        let init = distinct_sessions(gs.drop_last());
        if init.contains(gs.last().session) {
            init
        } else {
            init.push(gs.last().session)
        }
    }
}

/// The order of names.
pub open spec fn name_order() -> spec_fn(Seq<char>, Seq<char>) -> bool {
    |a: Seq<char>, b: Seq<char>| seq_le(a, b)
}

/// The order of groups by worktree path.
pub open spec fn path_order() -> spec_fn(WorktreeGroupView, WorktreeGroupView) -> bool {
    |a: WorktreeGroupView, b: WorktreeGroupView| seq_le(a.worktree_path, b.worktree_path)
}

/// The order of window-states rows by task id.
pub open spec fn id_order() -> spec_fn(WindowStateEntryView, WindowStateEntryView) -> bool {
    |a: WindowStateEntryView, b: WindowStateEntryView| seq_le(a.id, b.id)
}

/// The sessions of `gs`, ordered by name.
pub open spec fn session_names(gs: Seq<WorktreeGroupView>) -> Seq<Seq<char>> {
    sort_stable(distinct_sessions(gs), name_order())
}

/// The groups of `gs` in session `s`, in order.
pub open spec fn in_session(gs: Seq<WorktreeGroupView>, s: Seq<char>) -> Seq<WorktreeGroupView>
    decreases gs.len(),
{
    if gs.len() == 0 {
        Seq::empty()
    } else {
        let init = in_session(gs.drop_last(), s);
        if gs.last().session == s {
            init.push(gs.last())
        } else {
            init
        }
    }
}

/// The groups of session `s`, ordered by worktree path.
pub open spec fn session_groups(gs: Seq<WorktreeGroupView>, s: Seq<char>) -> Seq<WorktreeGroupView> {
    sort_stable(in_session(gs, s), path_order())
}

/// The rows of `es` in group `(s, p)`, in order.
pub open spec fn in_group(
    es: Seq<WindowStateEntryView>,
    metas: Map<Seq<char>, SquadMetaView>,
    s: Seq<char>,
    p: Seq<char>,
) -> Seq<WindowStateEntryView>
    decreases es.len(),
{
    if es.len() == 0 {
        Seq::empty()
    } else {
        let init = in_group(es.drop_last(), metas, s, p);
        if group_key(es.last(), metas) == (s, p) {
            init.push(es.last())
        } else {
            init
        }
    }
}

/// The panes of group `(s, p)`, ordered by task id.
pub open spec fn group_panes(
    es: Seq<WindowStateEntryView>,
    metas: Map<Seq<char>, SquadMetaView>,
    s: Seq<char>,
    p: Seq<char>,
) -> Seq<WindowStateEntryView> {
    sort_stable(in_group(es, metas, s, p), id_order())
}

/// The mapped statuses of `panes`.
pub open spec fn pane_statuses(panes: Seq<WindowStateEntryView>) -> Seq<Option<AgentStatus>>
    decreases panes.len(),
{
    if panes.len() == 0 {
        Seq::empty()
    } else {
        pane_statuses(panes.drop_last()).push(spec_map_status(panes.last().label))
    }
}

/// The pane rows of `panes`.
pub open spec fn pane_rows(panes: Seq<WindowStateEntryView>, metas: Map<Seq<char>, SquadMetaView>) -> Seq<
    SidebarEntryView,
>
    decreases panes.len(),
{
    if panes.len() == 0 {
        Seq::empty()
    } else {
        pane_rows(panes.drop_last(), metas).push(spec_pane_entry(panes.last(), metas))
    }
}

/// A worktree row followed by the rows of its panes.
pub open spec fn worktree_block(
    es: Seq<WindowStateEntryView>,
    metas: Map<Seq<char>, SquadMetaView>,
    s: Seq<char>,
    g: WorktreeGroupView,
) -> Seq<SidebarEntryView> {
    let panes = group_panes(es, metas, s, g.worktree_path);
    seq![
        SidebarEntryView::Worktree {
            session: s,
            worktree_path: g.worktree_path,
            branch: g.worktree_branch,
            task_count: panes.len(),
            aggregate_status: aggregate(pane_statuses(panes)),
        },
    ] + pane_rows(panes, metas)
}

/// The blocks of the groups `sgs` of session `s`, in order.
pub open spec fn worktree_blocks(
    es: Seq<WindowStateEntryView>,
    metas: Map<Seq<char>, SquadMetaView>,
    s: Seq<char>,
    sgs: Seq<WorktreeGroupView>,
) -> Seq<SidebarEntryView>
    decreases sgs.len(),
{
    if sgs.len() == 0 {
        Seq::empty()
    } else {
        worktree_blocks(es, metas, s, sgs.drop_last()) + worktree_block(es, metas, s, sgs.last())
    }
}

/// The panes of the groups `sgs` of session `s`, group after group.
pub open spec fn session_panes(
    es: Seq<WindowStateEntryView>,
    metas: Map<Seq<char>, SquadMetaView>,
    s: Seq<char>,
    sgs: Seq<WorktreeGroupView>,
) -> Seq<WindowStateEntryView>
    decreases sgs.len(),
{
    if sgs.len() == 0 {
        Seq::empty()
    } else {
        session_panes(es, metas, s, sgs.drop_last()) + group_panes(
            es,
            metas,
            s,
            sgs.last().worktree_path,
        )
    }
}

/// The first session label among `sgs`.
pub open spec fn first_label(sgs: Seq<WorktreeGroupView>) -> Option<Seq<char>>
    decreases sgs.len(),
{
    if sgs.len() == 0 {
        None
    } else {
        match first_label(sgs.drop_last()) {
            Some(l) => Some(l),
            None => sgs.last().session_label,
        }
    }
}

/// A session row followed by the blocks of its groups.
pub open spec fn session_block(
    es: Seq<WindowStateEntryView>,
    metas: Map<Seq<char>, SquadMetaView>,
    gs: Seq<WorktreeGroupView>,
    s: Seq<char>,
) -> Seq<SidebarEntryView> {
    let sgs = session_groups(gs, s);
    let panes = session_panes(es, metas, s, sgs);
    seq![
        SidebarEntryView::Session {
            session: s,
            label: first_label(sgs),
            task_count: panes.len(),
            aggregate_status: aggregate(pane_statuses(panes)),
        },
    ] + worktree_blocks(es, metas, s, sgs)
}

/// The blocks of the sessions `names`, in order.
pub open spec fn session_blocks(
    es: Seq<WindowStateEntryView>,
    metas: Map<Seq<char>, SquadMetaView>,
    gs: Seq<WorktreeGroupView>,
    names: Seq<Seq<char>>,
) -> Seq<SidebarEntryView>
    decreases names.len(),
{
    if names.len() == 0 {
        Seq::empty()
    } else {
        session_blocks(es, metas, gs, names.drop_last()) + session_block(
            es,
            metas,
            gs,
            names.last(),
        )
    }
}

/// The hierarchical entry list: for each session in name order, its row,
/// then for each of its worktrees in path order the worktree row and the
/// rows of its panes in task-id order.
pub open spec fn spec_build_hierarchy(
    ws: Seq<WorktreeGroupView>,
    es: Seq<WindowStateEntryView>,
    metas: Map<Seq<char>, SquadMetaView>,
) -> Seq<SidebarEntryView> {
    let gs = all_groups(ws, es, metas);
    session_blocks(es, metas, gs, session_names(gs))
}

/// The views of a sequence of rows.
pub open spec fn row_views(v: Seq<SidebarEntry>) -> Seq<SidebarEntryView> {
    v.map_values(|e: SidebarEntry| e@)
}

/// The views of a sequence of group references.
pub open spec fn ref_views(v: Seq<&WorktreeGroup>) -> Seq<WorktreeGroupView> {
    v.map_values(|g: &WorktreeGroup| g@)
}

/// `sessions` and `paths` hold the characters of the sessions and worktree
/// paths of `gs`.
pub open spec fn keys_match(gs: Seq<WorktreeGroupView>, sessions: Seq<Vec<char>>, paths: Seq<Vec<char>>) -> bool {
    &&& sessions.len() == gs.len()
    &&& paths.len() == gs.len()
    &&& forall|j: int|
        0 <= j < gs.len() ==> sessions[j]@ == (#[trigger] gs[j]).session && paths[j]@
            == gs[j].worktree_path
}

/// The published groups, then the derived ones that they do not cover.
fn all_group_refs<'a>(worktrees: &'a [WorktreeGroup], derived: &'a Vec<WorktreeGroup>) -> (r: (
    Vec<&'a WorktreeGroup>,
    Vec<Vec<char>>,
    Vec<Vec<char>>,
))
    ensures
        ref_views(r.0@) == group_views(worktrees@) + unpublished(group_views(derived@), group_views(worktrees@)),
        keys_match(ref_views(r.0@), r.1@, r.2@),
{
    let ghost ws = group_views(worktrees@);
    let ghost ds = group_views(derived@);
    let mut refs: Vec<&WorktreeGroup> = Vec::new();
    let mut gs: Vec<Vec<char>> = Vec::new();
    let mut gp: Vec<Vec<char>> = Vec::new();
    for i in 0..worktrees.len()
        invariant
            ws == group_views(worktrees@),
            ref_views(refs@) == ws.take(i as int),
            keys_match(ref_views(refs@), gs@, gp@),
    {
        let ghost before = ref_views(refs@);
        let w = &worktrees[i];
        let ghost old_gs = gs@;
        let ghost old_gp = gp@;
        refs.push(w);
        gs.push(chars_of(w.session.as_str()));
        gp.push(chars_of(w.worktree_path.as_str()));
        assert(ws[i as int] == w@);
        assert(ref_views(refs@) =~= before.push(w@));
        assert(keys_match(ref_views(refs@), gs@, gp@)) by {
            assert forall|j: int| 0 <= j < refs@.len() implies #[trigger] gs@[j]@ == ref_views(refs@)[j].session && gp@[j]@
                == ref_views(refs@)[j].worktree_path by {
                if j < i {
                    assert(ref_views(refs@)[j] == before[j]);
                    assert(old_gs[j]@ == before[j].session);
                    assert(gs@[j] == old_gs[j]);
                    assert(gp@[j] == old_gp[j]);
                    assert(old_gp[j]@ == before[j].worktree_path);
                }
            }
        }
        assert(ws.take(i + 1) =~= ws.take(i as int).push(ws[i as int]));
    }
    assert(ws.take(worktrees@.len() as int) =~= ws);
    let n = refs.len();
    assert(ds.take(0) =~= Seq::<WorktreeGroupView>::empty());
    for i in 0..derived.len()
        invariant
            ws == group_views(worktrees@),
            ds == group_views(derived@),
            n == ws.len(),
            n <= gs@.len(),
            ref_views(refs@) == ws + unpublished(ds.take(i as int), ws),
            keys_match(ref_views(refs@), gs@, gp@),
    {
        let ghost before = ref_views(refs@);
        let d = &derived[i];
        assert(ds.take(i + 1).drop_last() =~= ds.take(i as int));
        assert(ds.take(i + 1).last() == d@);
        let ds_s = chars_of(d.session.as_str());
        let ds_p = chars_of(d.worktree_path.as_str());
        let published = contains_pair(&gs, &gp, n, ds_s.as_slice(), ds_p.as_slice());
        if published {
            proof {
                let j = choose|j: int| 0 <= j < n && gs@[j]@ == ds_s@ && gp@[j]@ == ds_p@;
                assert(ref_views(refs@)[j] == ws[j]);
                assert(ws[j].session == d@.session && ws[j].worktree_path == d@.worktree_path);
            }
        } else {
            assert(!is_published(ws, d@.session, d@.worktree_path)) by {
                if is_published(ws, d@.session, d@.worktree_path) {
                    let j = choose|j: int|
                        0 <= j < ws.len() && ws[j].session == d@.session && ws[j].worktree_path
                            == d@.worktree_path;
                    assert(ref_views(refs@)[j] == ws[j]);
                    assert(gs@[j]@ == ws[j].session);
                    assert(gp@[j]@ == ws[j].worktree_path);
                    assert(gs@[j]@ == ds_s@ && gp@[j]@ == ds_p@);
                }
            }
            let ghost old_gs = gs@;
            let ghost old_gp = gp@;
            refs.push(d);
            gs.push(ds_s);
            gp.push(ds_p);
            assert(ref_views(refs@) =~= before.push(d@));
            assert(old_gs.len() == before.len());
            assert(gs@.len() == ref_views(refs@).len());
            assert(keys_match(ref_views(refs@), gs@, gp@)) by {
                assert forall|j: int| 0 <= j < refs@.len() implies #[trigger] gs@[j]@ == ref_views(refs@)[j].session && gp@[j]@
                    == ref_views(refs@)[j].worktree_path by {
                    if j < refs@.len() - 1 {
                        assert(ref_views(refs@)[j] == before[j]);
                        assert(old_gs[j]@ == before[j].session);
                        assert(gs@[j] == old_gs[j]);
                        assert(gp@[j] == old_gp[j]);
                        assert(old_gp[j]@ == before[j].worktree_path);
                    }
                }
            }
        }
    }
    assert(ds.take(derived@.len() as int) =~= ds);
    (refs, gs, gp)
}

/// Whether `s` is among `names`.
fn contains_chars(names: &Vec<Vec<char>>, s: &[char]) -> (r: bool)
    ensures
        r == views(names@).contains(s@),
{
    let mut j: usize = 0;
    while j < names.len()
        invariant
            j <= names@.len(),
            forall|k: int| 0 <= k < j ==> names@[k]@ != s@,
        decreases names@.len() - j,
    {
        if chars_eq(names[j].as_slice(), s) {
            assert(views(names@)[j as int] == s@);
            return true;
        }
        j = j + 1;
    }
    assert(!views(names@).contains(s@)) by {
        if views(names@).contains(s@) {
            let k = choose|k: int| 0 <= k < views(names@).len() && views(names@)[k] == s@;
            assert(names@[k]@ == s@);
        }
    }
    false
}

/// The sessions of the groups, ordered by name.
fn sorted_session_names(
    sessions: &Vec<Vec<char>>,
    paths: &Vec<Vec<char>>,
    Ghost(gs): Ghost<Seq<WorktreeGroupView>>,
) -> (r: Vec<Vec<char>>)
    requires
        keys_match(gs, sessions@, paths@),
    ensures
        views(r@) == session_names(gs),
{
    let mut names: Vec<Vec<char>> = Vec::new();
    let mut i: usize = 0;
    assert(gs.take(0) =~= Seq::<WorktreeGroupView>::empty());
    assert(views(names@) =~= Seq::<Seq<char>>::empty());
    while i < sessions.len()
        invariant
            i <= sessions@.len(),
            keys_match(gs, sessions@, paths@),
            views(names@) == distinct_sessions(gs.take(i as int)),
        decreases sessions@.len() - i,
    {
        assert(gs.take(i + 1).drop_last() =~= gs.take(i as int));
        assert(gs.take(i + 1).last() == gs[i as int]);
        assert(sessions@[i as int]@ == gs[i as int].session);
        if !contains_chars(&names, sessions[i].as_slice()) {
            let ghost before = views(names@);
            names.push(vstd::slice::slice_to_vec(sessions[i].as_slice()));
            assert(views(names@) =~= before.push(gs[i as int].session));
        }
        i = i + 1;
    }
    assert(gs.take(sessions@.len() as int) =~= gs);
    let all = index_range(names.len());
    let sorted = sort_indices_by_key(&names, &all);
    let ghost f = |j: usize| views(names@)[j as int];
    proof {
        lemma_sort_map(all@, f, key_order(views(names@)), name_order());
        assert(all@.map_values(f) =~= views(names@));
    }
    let mut out: Vec<Vec<char>> = Vec::new();
    for q in 0..sorted.len()
        invariant
            indices_below(sorted@, names@.len() as int),
            sorted@.map_values(f) == session_names(gs),
            f == (|j: usize| views(names@)[j as int]),
            views(out@) == sorted@.map_values(f).take(q as int),
    {
        let j = sorted[q];
        let ghost before = views(out@);
        out.push(vstd::slice::slice_to_vec(names[j].as_slice()));
        assert(sorted@.map_values(f)[q as int] == views(names@)[j as int]);
        assert(views(out@) =~= before.push(views(names@)[j as int]));
        assert(sorted@.map_values(f).take(q + 1) =~= sorted@.map_values(f).take(q as int).push(
            sorted@.map_values(f)[q as int],
        ));
    }
    assert(sorted@.map_values(f).take(sorted@.len() as int) =~= sorted@.map_values(f));
    out
}

/// The group at index `j`, with its path read from `paths`.
pub open spec fn group_at(gs: Seq<WorktreeGroupView>, paths: Seq<Vec<char>>, j: usize) -> WorktreeGroupView {
    WorktreeGroupView { worktree_path: views(paths)[j as int], ..gs[j as int] }
}

/// The indices of the groups of session `s`, ordered by worktree path.
fn session_group_indices(
    sessions: &Vec<Vec<char>>,
    paths: &Vec<Vec<char>>,
    s: &[char],
    Ghost(gs): Ghost<Seq<WorktreeGroupView>>,
) -> (r: Vec<usize>)
    requires
        keys_match(gs, sessions@, paths@),
    ensures
        indices_below(r@, gs.len() as int),
        pick(gs, r@) == session_groups(gs, s@),
{
    let ghost fg = |j: usize| group_at(gs, paths@, j);
    let mut sel: Vec<usize> = Vec::new();
    let mut i: usize = 0;
    assert(gs.take(0) =~= Seq::<WorktreeGroupView>::empty());
    assert(sel@.map_values(fg) =~= Seq::<WorktreeGroupView>::empty());
    while i < sessions.len()
        invariant
            i <= sessions@.len(),
            keys_match(gs, sessions@, paths@),
            fg == (|j: usize| group_at(gs, paths@, j)),
            indices_below(sel@, i as int),
            sel@.map_values(fg) == in_session(gs.take(i as int), s@),
        decreases sessions@.len() - i,
    {
        assert(gs.take(i + 1).drop_last() =~= gs.take(i as int));
        assert(gs.take(i + 1).last() == gs[i as int]);
        assert(sessions@[i as int]@ == gs[i as int].session);
        if chars_eq(sessions[i].as_slice(), s) {
            let ghost before = sel@.map_values(fg);
            sel.push(i);
            assert(views(paths@)[i as int] == gs[i as int].worktree_path);
            assert(fg(i) == gs[i as int]);
            assert(sel@.map_values(fg) =~= before.push(gs[i as int]));
        }
        i = i + 1;
    }
    assert(gs.take(sessions@.len() as int) =~= gs);
    let sorted = sort_indices_by_key(paths, &sel);
    proof {
        assert forall|a: usize, b: usize| #[trigger] key_order(views(paths@))(a, b) == path_order()(fg(a), fg(b)) by {}
        lemma_sort_map(sel@, fg, key_order(views(paths@)), path_order());
        assert forall|q: int| 0 <= q < sorted@.len() implies gs[#[trigger] sorted@[q] as int]
            == session_groups(gs, s@)[q] by {
            assert(sorted@.map_values(fg)[q] == fg(sorted@[q]));
            let j = sorted@[q];
            assert(views(paths@)[j as int] == gs[j as int].worktree_path);
            assert(fg(j) == gs[j as int]);
        }
        assert(pick(gs, sorted@) =~= session_groups(gs, s@));
    }
    sorted
}

/// The row at index `k`, with its id read from `ids`.
pub open spec fn entry_at(es: Seq<WindowStateEntryView>, ids: Seq<Vec<char>>, k: usize) -> WindowStateEntryView {
    WindowStateEntryView { id: views(ids)[k as int], ..es[k as int] }
}

/// The indices of the panes of group `(s, p)`, ordered by task id.
fn group_pane_indices(
    es_s: &Vec<Vec<char>>,
    es_p: &Vec<Vec<char>>,
    es_id: &Vec<Vec<char>>,
    s: &[char],
    p: &[char],
    Ghost(es): Ghost<Seq<WindowStateEntryView>>,
    Ghost(metas): Ghost<Map<Seq<char>, SquadMetaView>>,
) -> (r: Vec<usize>)
    requires
        es_s@.len() == es.len(),
        es_p@.len() == es.len(),
        es_id@.len() == es.len(),
        forall|i: int| 0 <= i < es.len() ==> (#[trigger] es_s@[i]@, es_p@[i]@) == group_key(es[i], metas),
        forall|i: int| 0 <= i < es.len() ==> #[trigger] es_id@[i]@ == es[i].id,
    ensures
        indices_below(r@, es.len() as int),
        pick(es, r@) == group_panes(es, metas, s@, p@),
{
    let ghost fe = |k: usize| entry_at(es, es_id@, k);
    let mut sel: Vec<usize> = Vec::new();
    let mut i: usize = 0;
    assert(es.take(0) =~= Seq::<WindowStateEntryView>::empty());
    assert(sel@.map_values(fe) =~= Seq::<WindowStateEntryView>::empty());
    while i < es_s.len()
        invariant
            i <= es.len(),
            es_s@.len() == es.len(),
            es_p@.len() == es.len(),
            es_id@.len() == es.len(),
            forall|i: int| 0 <= i < es.len() ==> (#[trigger] es_s@[i]@, es_p@[i]@) == group_key(es[i], metas),
            forall|i: int| 0 <= i < es.len() ==> #[trigger] es_id@[i]@ == es[i].id,
            fe == (|k: usize| entry_at(es, es_id@, k)),
            indices_below(sel@, i as int),
            sel@.map_values(fe) == in_group(es.take(i as int), metas, s@, p@),
        decreases es.len() - i,
    {
        assert(es.take(i + 1).drop_last() =~= es.take(i as int));
        assert(es.take(i + 1).last() == es[i as int]);
        assert(group_key(es[i as int], metas) == (es_s@[i as int]@, es_p@[i as int]@));
        if chars_eq(es_s[i].as_slice(), s) && chars_eq(es_p[i].as_slice(), p) {
            let ghost before = sel@.map_values(fe);
            sel.push(i);
            assert(views(es_id@)[i as int] == es[i as int].id);
            assert(fe(i) == es[i as int]);
            assert(sel@.map_values(fe) =~= before.push(es[i as int]));
        }
        i = i + 1;
    }
    assert(es.take(es.len() as int) =~= es);
    let sorted = sort_indices_by_key(es_id, &sel);
    proof {
        assert forall|a: usize, b: usize| #[trigger] key_order(views(es_id@))(a, b) == id_order()(fe(a), fe(b)) by {}
        lemma_sort_map(sel@, fe, key_order(views(es_id@)), id_order());
        assert forall|q: int| 0 <= q < sorted@.len() implies es[#[trigger] sorted@[q] as int]
            == group_panes(es, metas, s@, p@)[q] by {
            assert(sorted@.map_values(fe)[q] == fe(sorted@[q]));
            let k = sorted@[q];
            assert(views(es_id@)[k as int] == es[k as int].id);
            assert(fe(k) == es[k as int]);
        }
        assert(pick(es, sorted@) =~= group_panes(es, metas, s@, p@));
    }
    sorted
}

/// The characters of every row's task id.
fn entry_ids(entries: &[WindowStateEntry]) -> (r: Vec<Vec<char>>)
    ensures
        r@.len() == entries@.len(),
        forall|i: int| 0 <= i < entries@.len() ==> #[trigger] r@[i]@ == entries@[i]@.id,
{
    let mut ids: Vec<Vec<char>> = Vec::new();
    for i in 0..entries.len()
        invariant
            ids@.len() == i,
            forall|j: int| 0 <= j < i ==> #[trigger] ids@[j]@ == entries@[j]@.id,
    {
        ids.push(chars_of(entries[i].id.as_str()));
    }
    ids
}

/// The per-row keys that the hierarchy is built from.
pub open spec fn entry_tables_match(
    es: Seq<WindowStateEntryView>,
    metas: Map<Seq<char>, SquadMetaView>,
    es_s: Seq<Vec<char>>,
    es_p: Seq<Vec<char>>,
    es_id: Seq<Vec<char>>,
) -> bool {
    &&& es_s.len() == es.len()
    &&& es_p.len() == es.len()
    &&& es_id.len() == es.len()
    &&& forall|i: int| 0 <= i < es.len() ==> (#[trigger] es_s[i]@, es_p[i]@) == group_key(es[i], metas)
    &&& forall|i: int| 0 <= i < es.len() ==> #[trigger] es_id[i]@ == es[i].id
}

/// Appends the block of session `s` to `out`.
#[verifier::rlimit(40)]
fn push_session_block(
    out: &mut Vec<SidebarEntry>,
    entries: &[WindowStateEntry],
    metas: &MetaMap,
    refs: &Vec<&WorktreeGroup>,
    g_s: &Vec<Vec<char>>,
    g_p: &Vec<Vec<char>>,
    es_s: &Vec<Vec<char>>,
    es_p: &Vec<Vec<char>>,
    es_id: &Vec<Vec<char>>,
    s: &Vec<char>,
)
    requires
        keys_match(ref_views(refs@), g_s@, g_p@),
        entry_tables_match(entry_views(entries@), metas@, es_s@, es_p@, es_id@),
    ensures
        row_views(final(out)@) == row_views(old(out)@) + session_block(
            entry_views(entries@),
            metas@,
            ref_views(refs@),
            s@,
        ),
{
    let ghost es = entry_views(entries@);
    let ghost gs = ref_views(refs@);
    let ghost m = metas@;
    let ghost base = row_views(out@);
    let sidx = session_group_indices(g_s, g_p, s.as_slice(), Ghost(gs));
    let ghost sgs = session_groups(gs, s@);
    // The session label: the first one among the session's groups.
    let mut label: Option<String> = None;
    let mut u: usize = 0;
    assert(sgs.take(0) =~= Seq::<WorktreeGroupView>::empty());
    while u < sidx.len()
        invariant
            u <= sidx@.len(),
            gs == ref_views(refs@),
            indices_below(sidx@, gs.len() as int),
            pick(gs, sidx@) == sgs,
            opt_view(label) == first_label(sgs.take(u as int)),
        decreases sidx@.len() - u,
    {
        assert(sgs.take(u + 1).drop_last() =~= sgs.take(u as int));
        assert(sgs.take(u + 1).last() == sgs[u as int]);
        assert(sgs[u as int] == gs[sidx@[u as int] as int]);
        assert(gs[sidx@[u as int] as int] == refs@[sidx@[u as int] as int]@);
        if label.is_none() {
            label = clone_opt(&refs[sidx[u]].session_label);
        }
        u = u + 1;
    }
    assert(sgs.take(sidx@.len() as int) =~= sgs);
    // The panes of each group, and of the whole session.
    let mut per_group: Vec<Vec<usize>> = Vec::new();
    let mut all_panes: Vec<usize> = Vec::new();
    let mut status: Option<AgentStatus> = None;
    let mut u: usize = 0;
    assert(pick(es, all_panes@) =~= session_panes(es, m, s@, sgs.take(0)));
    while u < sidx.len()
        invariant
            u <= sidx@.len(),
            es == entry_views(entries@),
            gs == ref_views(refs@),
            m == metas@,
            keys_match(gs, g_s@, g_p@),
            entry_tables_match(es, m, es_s@, es_p@, es_id@),
            indices_below(sidx@, gs.len() as int),
            pick(gs, sidx@) == sgs,
            per_group@.len() == u,
            forall|v: int|
                0 <= v < u ==> indices_below(#[trigger] per_group@[v]@, es.len() as int) && pick(
                    es,
                    per_group@[v]@,
                ) == group_panes(es, m, s@, sgs[v].worktree_path),
            indices_below(all_panes@, es.len() as int),
            pick(es, all_panes@) == session_panes(es, m, s@, sgs.take(u as int)),
            status == aggregate(pane_statuses(pick(es, all_panes@))),
        decreases sidx@.len() - u,
    {
        let j = sidx[u];
        assert(sgs[u as int] == gs[j as int]);
        assert(g_p@[j as int]@ == gs[j as int].worktree_path);
        let pidx = group_pane_indices(
            es_s,
            es_p,
            es_id,
            s.as_slice(),
            g_p[j].as_slice(),
            Ghost(es),
            Ghost(m),
        );
        let ghost gp = group_panes(es, m, s@, sgs[u as int].worktree_path);
        let ghost prev = pick(es, all_panes@);
        assert(sgs.take(u + 1).drop_last() =~= sgs.take(u as int));
        assert(session_panes(es, m, s@, sgs.take(u + 1)) == prev + gp);
        let mut w: usize = 0;
        assert(prev + gp.take(0) =~= prev);
        while w < pidx.len()
            invariant
                w <= pidx@.len(),
                es == entry_views(entries@),
                indices_below(pidx@, es.len() as int),
                pick(es, pidx@) == gp,
                indices_below(all_panes@, es.len() as int),
                pick(es, all_panes@) == prev + gp.take(w as int),
                status == aggregate(pane_statuses(pick(es, all_panes@))),
            decreases pidx@.len() - w,
        {
            let k = pidx[w];
            let ghost before = pick(es, all_panes@);
            all_panes.push(k);
            assert(pick(es, all_panes@) =~= before.push(es[k as int]));
            assert(pick(es, all_panes@).drop_last() =~= before);
            assert(es[k as int] == entries@[k as int]@);
            status = combine_status(status, SquadDataSource::map_status(entries[k].label.as_str()));
            proof {
                let y = pick(es, all_panes@);
                assert(pane_statuses(y) == pane_statuses(before).push(spec_map_status(es[k as int].label)));
                assert(pane_statuses(y).drop_last() =~= pane_statuses(before));
            }
            assert(gp[w as int] == es[k as int]);
            assert(prev + gp.take(w + 1) =~= before.push(es[k as int]));
            w = w + 1;
        }
        assert(gp.take(pidx@.len() as int) =~= gp);
        let ghost pg = per_group@;
        per_group.push(pidx);
        assert forall|v: int|
            0 <= v < u + 1 implies indices_below(#[trigger] per_group@[v]@, es.len() as int) && pick(
                es,
                per_group@[v]@,
            ) == group_panes(es, m, s@, sgs[v].worktree_path) by {
            if v < u {
                assert(per_group@[v] == pg[v]);
            }
        }
        u = u + 1;
    }
    assert(sgs.take(sidx@.len() as int) =~= sgs);
    out.push(
        SidebarEntry::Session {
            session: string_from_chars(s.as_slice()),
            label,
            task_count: all_panes.len(),
            aggregate_status: status,
        },
    );
    let ghost head = base + seq![row_views(out@).last()];
    assert(row_views(out@) =~= head);
    // The worktree blocks.
    let mut u: usize = 0;
    assert(head + worktree_blocks(es, m, s@, sgs.take(0)) =~= head);
    while u < sidx.len()
        invariant
            u <= sidx@.len(),
            es == entry_views(entries@),
            gs == ref_views(refs@),
            m == metas@,
            keys_match(gs, g_s@, g_p@),
            indices_below(sidx@, gs.len() as int),
            pick(gs, sidx@) == sgs,
            per_group@.len() == sidx@.len(),
            forall|v: int|
                0 <= v < sidx@.len() ==> indices_below(#[trigger] per_group@[v]@, es.len() as int)
                    && pick(es, per_group@[v]@) == group_panes(es, m, s@, sgs[v].worktree_path),
            row_views(out@) == head + worktree_blocks(es, m, s@, sgs.take(u as int)),
        decreases sidx@.len() - u,
    {
        let j = sidx[u];
        assert(sgs[u as int] == gs[j as int]);
        assert(gs[j as int] == refs@[j as int]@);
        let g = refs[j];
        let pidx = &per_group[u];
        let ghost gp = group_panes(es, m, s@, sgs[u as int].worktree_path);
        assert(indices_below(per_group@[u as int]@, es.len() as int));
        // Aggregate status of the group.
        let mut st: Option<AgentStatus> = None;
        let mut w: usize = 0;
        assert(gp.take(0) =~= Seq::<WindowStateEntryView>::empty());
        while w < pidx.len()
            invariant
                w <= pidx@.len(),
                es == entry_views(entries@),
                indices_below(pidx@, es.len() as int),
                pick(es, pidx@) == gp,
                st == aggregate(pane_statuses(gp.take(w as int))),
            decreases pidx@.len() - w,
        {
            let k = pidx[w];
            assert(gp[w as int] == es[k as int]);
            assert(es[k as int] == entries@[k as int]@);
            assert(gp.take(w + 1).drop_last() =~= gp.take(w as int));
            st = combine_status(st, SquadDataSource::map_status(entries[k].label.as_str()));
            proof {
                let y = gp.take(w + 1);
                assert(pane_statuses(y) == pane_statuses(gp.take(w as int)).push(spec_map_status(es[k as int].label)));
                assert(pane_statuses(y).drop_last() =~= pane_statuses(gp.take(w as int)));
            }
            w = w + 1;
        }
        assert(gp.take(pidx@.len() as int) =~= gp);
        let ghost before_block = row_views(out@);
        out.push(
            SidebarEntry::Worktree {
                session: string_from_chars(s.as_slice()),
                worktree_path: g.worktree_path.clone(),
                branch: clone_opt(&g.worktree_branch),
                task_count: pidx.len(),
                aggregate_status: st,
            },
        );
        let ghost wrow = row_views(out@).last();
        assert(row_views(out@) =~= before_block.push(wrow));
        let mut w: usize = 0;
        assert(pane_rows(gp.take(0), m) =~= Seq::<SidebarEntryView>::empty());
        assert(row_views(out@) =~= before_block + seq![wrow] + pane_rows(gp.take(0), m));
        while w < pidx.len()
            invariant
                w <= pidx@.len(),
                es == entry_views(entries@),
                m == metas@,
                indices_below(pidx@, es.len() as int),
                pick(es, pidx@) == gp,
                row_views(out@) == before_block + seq![wrow] + pane_rows(gp.take(w as int), m),
            decreases pidx@.len() - w,
        {
            let k = pidx[w];
            assert(gp[w as int] == es[k as int]);
            assert(es[k as int] == entries@[k as int]@);
            assert(gp.take(w + 1).drop_last() =~= gp.take(w as int));
            let ghost prev = row_views(out@);
            let row = SquadDataSource::pane_entry(&entries[k], metas);
            out.push(row);
            assert(row_views(out@) =~= prev.push(row@));
            assert(row_views(out@) =~= before_block + seq![wrow] + pane_rows(gp.take(w + 1), m));
            w = w + 1;
        }
        assert(gp.take(pidx@.len() as int) =~= gp);
        assert(sgs.take(u + 1).drop_last() =~= sgs.take(u as int));
        assert(sgs.take(u + 1).last() == sgs[u as int]);
        assert(worktree_block(es, m, s@, sgs[u as int]) =~= seq![wrow] + pane_rows(gp, m));
        assert(row_views(out@) =~= head + worktree_blocks(es, m, s@, sgs.take(u + 1)));
        u = u + 1;
    }
    assert(sgs.take(sidx@.len() as int) =~= sgs);
}

/// Build the hierarchical entry list from parsed state files.
///
/// Pure function (no filesystem, no UI): deterministic and unit-testable.
///
/// - Sessions are ordered by name; worktrees within a session by path;
///   panes within a worktree by task id.
/// - When `worktrees` is empty (file not published yet), groups are
///   derived from the window-states entries + metas so the hierarchy
///   still works during the publisher rollout.
/// - A task entry whose `(session, meta-path)` matches no published group
///   is still emitted via a derived group (publisher-lag tolerance).
fn build_hierarchy_rows(
    worktrees: &[WorktreeGroup],
    entries: &[WindowStateEntry],
    metas: &MetaMap,
) -> (r: Vec<SidebarEntry>)
    ensures
        row_views(r@) == spec_build_hierarchy(group_views(worktrees@), entry_views(entries@), metas@),
{
    let ghost es = entry_views(entries@);
    let derived = derive_worktree_groups(entries, metas);
    let (refs, g_s, g_p) = all_group_refs(worktrees, &derived);
    let ghost gs = ref_views(refs@);
    assert(gs == all_groups(group_views(worktrees@), es, metas@));
    let (es_s, es_p) = entry_keys(entries, metas);
    let es_id = entry_ids(entries);
    assert(entry_tables_match(es, metas@, es_s@, es_p@, es_id@)) by {
        assert forall|i: int| 0 <= i < es.len() implies (#[trigger] es_s@[i]@, es_p@[i]@) == group_key(es[i], metas@) by {
            assert(es[i] == entries@[i]@);
        }
        assert forall|i: int| 0 <= i < es.len() implies #[trigger] es_id@[i]@ == es[i].id by {
            assert(es[i] == entries@[i]@);
        }
    }
    let names = sorted_session_names(&g_s, &g_p, Ghost(gs));
    let ghost ns = views(names@);
    let mut out: Vec<SidebarEntry> = Vec::new();
    let mut q: usize = 0;
    assert(row_views(out@) =~= session_blocks(es, metas@, gs, ns.take(0)));
    while q < names.len()
        invariant
            q <= names@.len(),
            es == entry_views(entries@),
            gs == ref_views(refs@),
            ns == views(names@),
            keys_match(gs, g_s@, g_p@),
            entry_tables_match(es, metas@, es_s@, es_p@, es_id@),
            row_views(out@) == session_blocks(es, metas@, gs, ns.take(q as int)),
        decreases names@.len() - q,
    {
        push_session_block(&mut out, entries, metas, &refs, &g_s, &g_p, &es_s, &es_p, &es_id, &names[q]);
        assert(ns.take(q + 1).drop_last() =~= ns.take(q as int));
        assert(ns.take(q + 1).last() == names@[q as int]@);
        q = q + 1;
    }
    assert(ns.take(names@.len() as int) =~= ns);
    out
}

// ---------------------------------------------------------------------------
// Listing from the state files
// ---------------------------------------------------------------------------

/// The metadata map that the meta files give: each file's parsed metadata
/// under its task id, a later file for the same id replacing an earlier one.
pub open spec fn metas_of_files(files: Seq<(Seq<char>, Seq<char>)>) -> Map<Seq<char>, SquadMetaView>
    decreases files.len(),
{
    if files.len() == 0 {
        Map::empty()
    } else {
        metas_of_files(files.drop_last()).insert(files.last().0, spec_parse_meta(files.last().1))
    }
}

/// The views of `(task id, file text)` pairs.
pub open spec fn file_views(files: Seq<(String, String)>) -> Seq<(Seq<char>, Seq<char>)> {
    files.map_values(|f: (String, String)| (f.0@, f.1@))
}

/// The hierarchy that the texts of the state files give.
pub open spec fn spec_list_entries(
    window_states: Seq<char>,
    worktrees: Seq<char>,
    meta_files: Seq<(Seq<char>, Seq<char>)>,
) -> Seq<SidebarEntryView> {
    spec_build_hierarchy(
        spec_parse_worktrees(worktrees),
        spec_parse_window_states(window_states),
        metas_of_files(meta_files),
    )
}

impl SquadDataSource {
    /// Build the hierarchy from parsed state files; see [`build_hierarchy`].
    pub fn build_hierarchy(
        worktrees: &[WorktreeGroup],
        entries: &[WindowStateEntry],
        metas: &MetaMap,
    ) -> (r: Vec<SidebarEntry>)
        ensures
            row_views(r@) == spec_build_hierarchy(
                group_views(worktrees@),
                entry_views(entries@),
                metas@,
            ),
    {
        build_hierarchy_rows(worktrees, entries, metas)
    }

    /// The full hierarchical entry list (session → worktree → pane) from the
    /// texts of the state files.
    ///
    /// Pure data layer: no UI dependency. Combines `state/window-states`
    /// (task ground truth), `state/worktrees` (grouping overlay) and
    /// `state/<id>.meta` (model/effort/kind) into a depth-first ordered tree.
    /// A missing file reads as empty text; `meta_files` holds, for the rows of
    /// `window_states`, the task id and the text of each meta file that could
    /// be read.
    pub fn list_entries(window_states: &str, worktrees: &str, meta_files: &[(String, String)]) -> (r:
        Vec<SidebarEntry>)
        ensures
            row_views(r@) == spec_list_entries(window_states@, worktrees@, file_views(meta_files@)),
    {
        let entries = SquadDataSource::parse_window_states(window_states);
        let groups = SquadDataSource::parse_worktrees(worktrees);
        let mut metas = MetaMap::new();
        let ghost fs = file_views(meta_files@);
        let mut i: usize = 0;
        assert(fs.take(0) =~= Seq::<(Seq<char>, Seq<char>)>::empty());
        while i < meta_files.len()
            invariant
                i <= meta_files@.len(),
                fs == file_views(meta_files@),
                metas@ == metas_of_files(fs.take(i as int)),
            decreases meta_files@.len() - i,
        {
            let (id, text) = &meta_files[i];
            assert(fs.take(i + 1).drop_last() =~= fs.take(i as int));
            assert(fs.take(i + 1).last() == (id@, text@));
            metas.insert(id.clone(), SquadDataSource::parse_meta(text.as_str()));
            i = i + 1;
        }
        assert(fs.take(meta_files@.len() as int) =~= fs);
        build_hierarchy_rows(groups.as_slice(), entries.as_slice(), &metas)
    }
}

} // verus!
