//! What the state-file parsers and the pane builders do, stated over the
//! text they read and the records they build.
use vstd::prelude::*;

use crate::squad::{
    window_state_row, window_state_rows, worktree_row, worktree_rows, WorktreeGroupView, apply_meta_line, meta_of_lines,
    empty_meta, spec_agent_pane, spec_pane_entry, spec_parse_meta, spec_parse_window_states,
    spec_parse_worktrees, SquadMetaView, WindowStateEntryView,
};
use crate::data_source::SidebarEntryView;
use crate::text::{is_first_index, is_ws, lemma_first_index_unique, split, split_once, trim};

verus! {

// ---------------------------------------------------------------------------
// Lines
// ---------------------------------------------------------------------------

proof fn lemma_split_push_sep(a: Seq<char>, sep: char)
    ensures
        split(a.push(sep), sep) == split(a, sep).push(Seq::empty()),
{
    assert(a.push(sep).drop_last() =~= a);
}

proof fn lemma_split_append_piece(a: Seq<char>, b: Seq<char>, sep: char)
    requires
        !b.contains(sep),
    ensures
        split(a.push(sep) + b, sep) == split(a, sep).push(b),
    decreases b.len(),
{
    if b.len() == 0 {
        assert(a.push(sep) + b =~= a.push(sep));
        lemma_split_push_sep(a, sep);
        assert(b =~= Seq::<char>::empty());
    } else {
        let s = a.push(sep) + b;
        assert(s.drop_last() =~= a.push(sep) + b.drop_last());
        assert(!b.drop_last().contains(sep)) by {
            if b.drop_last().contains(sep) {
                let k = choose|k: int| 0 <= k < b.drop_last().len() && b.drop_last()[k] == sep;
                assert(b[k] == sep);
            }
        }
        lemma_split_append_piece(a, b.drop_last(), sep);
        assert(s.last() == b.last());
        assert(b[b.len() - 1] != sep);
        let r = split(s.drop_last(), sep);
        assert(r.update(r.len() - 1, r.last().push(s.last())) =~= split(a, sep).push(b)) by {
            assert(b.drop_last().push(b.last()) =~= b);
        }
    }
}

proof fn lemma_split_single(b: Seq<char>, sep: char)
    requires
        !b.contains(sep),
    ensures
        split(b, sep) == seq![b],
    decreases b.len(),
{
    if b.len() > 0 {
        assert(!b.drop_last().contains(sep)) by {
            if b.drop_last().contains(sep) {
                let k = choose|k: int| 0 <= k < b.drop_last().len() && b.drop_last()[k] == sep;
                assert(b[k] == sep);
            }
        }
        lemma_split_single(b.drop_last(), sep);
        assert(b[b.len() - 1] != sep);
        assert(seq![b.drop_last()].update(0, b.drop_last().push(b.last())) =~= seq![b]) by {
            assert(b.drop_last().push(b.last()) =~= b);
        }
    } else {
        assert(b =~= Seq::<char>::empty());
    }
}

proof fn lemma_window_rows_single(l: Seq<char>)
    ensures
        window_state_rows(seq![l]) == match window_state_row(l) {
            Some(e) => seq![e],
            None => Seq::<WindowStateEntryView>::empty(),
        },
{
    assert(seq![l].drop_last() =~= Seq::<Seq<char>>::empty());
    assert(seq![l].last() == l);
    assert(window_state_rows(seq![l].drop_last()) =~= Seq::<WindowStateEntryView>::empty());
    match window_state_row(l) {
        Some(e) => {
            assert(Seq::<WindowStateEntryView>::empty().push(e) =~= seq![e]);
        },
        None => {},
    }
}

proof fn lemma_trim_empty()
    ensures
        trim(Seq::<char>::empty()) == Seq::<char>::empty(),
{
}

// ---------------------------------------------------------------------------
// window-states
// ---------------------------------------------------------------------------

/// A newline after the last line changes nothing: a final line is read
/// whether or not a newline ends it.
pub proof fn lemma_window_states_trailing_newline(c: Seq<char>)
    ensures
        spec_parse_window_states(c + "\n"@) == spec_parse_window_states(c),
{
    reveal_strlit("\n");
    assert(c + "\n"@ =~= c.push('\n'));
    lemma_split_push_sep(c, '\n');
    lemma_trim_empty();
    let ls = split(c, '\n');
    assert(ls.push(Seq::empty()).drop_last() =~= ls);
    assert(ls.push(Seq::empty()).last() == Seq::<char>::empty());
    assert(window_state_row(Seq::empty()) is None);
}

/// The rows of a file and a further line are the rows of the file followed
/// by the rows of that line.
pub proof fn lemma_window_states_append_line(c: Seq<char>, l: Seq<char>)
    requires
        !l.contains('\n'),
    ensures
        spec_parse_window_states(c + "\n"@ + l) == spec_parse_window_states(c)
            + spec_parse_window_states(l),
{
    reveal_strlit("\n");
    assert(c + "\n"@ + l =~= c.push('\n') + l);
    lemma_split_append_piece(c, l, '\n');
    lemma_split_single(l, '\n');
    let rs = spec_parse_window_states(c);
    lemma_window_rows_single(l);
    assert(split(c, '\n').push(l).drop_last() =~= split(c, '\n'));
    assert(split(c, '\n').push(l).last() == l);
    match window_state_row(l) {
        Some(e) => {
            assert(rs.push(e) =~= rs + seq![e]);
        },
        None => {
            assert(rs + Seq::<WindowStateEntryView>::empty() =~= rs);
        },
    }
}

/// One line of at least four tab-separated fields is one row of its window,
/// id, label and state, with or without a newline after it.
pub proof fn lemma_window_states_one_line(l: Seq<char>)
    requires
        !l.contains('\n'),
        trim(l).len() > 0,
        split(trim(l), '\t').len() >= 4,
    ensures
        spec_parse_window_states(l).len() == 1,
        spec_parse_window_states(l)[0].window == split(trim(l), '\t')[0],
        spec_parse_window_states(l)[0].id == split(trim(l), '\t')[1],
        spec_parse_window_states(l)[0].label == split(trim(l), '\t')[2],
        spec_parse_window_states(l)[0].state == split(trim(l), '\t')[3],
        split(trim(l), '\t').len() == 4 ==> spec_parse_window_states(l)[0].detail == Seq::<char>::empty(),
        split(trim(l), '\t').len() == 5 ==> spec_parse_window_states(l)[0].detail == split(trim(l), '\t')[4],
        spec_parse_window_states(l + "\n"@) == spec_parse_window_states(l),
{
    lemma_split_single(l, '\n');
    lemma_window_rows_single(l);
    lemma_window_states_trailing_newline(l);
    let parts = split(trim(l), '\t');
    if parts.len() == 5 {
        assert(parts.skip(4) =~= seq![parts[4]]);
    }
}

// ---------------------------------------------------------------------------
// worktrees
// ---------------------------------------------------------------------------

/// A newline after the last line changes nothing.
pub proof fn lemma_worktrees_trailing_newline(c: Seq<char>)
    ensures
        spec_parse_worktrees(c + "\n"@) == spec_parse_worktrees(c),
{
    reveal_strlit("\n");
    assert(c + "\n"@ =~= c.push('\n'));
    lemma_split_push_sep(c, '\n');
    lemma_trim_empty();
    let ls = split(c, '\n');
    assert(ls.push(Seq::empty()).drop_last() =~= ls);
    assert(ls.push(Seq::empty()).last() == Seq::<char>::empty());
    assert(worktree_row(Seq::empty()) is None);
}

/// One line of at least two tab-separated columns is one group: session and
/// path from the first two columns, and the project, session label and
/// branch each from its own column, set exactly when that column is there
/// and not empty, whatever the other columns hold.
pub proof fn lemma_worktrees_one_line(l: Seq<char>)
    requires
        !l.contains('\n'),
        trim(l).len() > 0,
        split(trim(l), '\t').len() >= 2,
    ensures
        ({
            let parts = split(trim(l), '\t');
            let gs = spec_parse_worktrees(l);
            &&& gs.len() == 1
            &&& gs[0].session == parts[0]
            &&& gs[0].worktree_path == parts[1]
            &&& (parts.len() > 2 && parts[2].len() > 0 ==> gs[0].project == Some(parts[2]))
            &&& (parts.len() <= 2 || parts[2].len() == 0 ==> gs[0].project is None)
            &&& (parts.len() > 4 && parts[4].len() > 0 ==> gs[0].session_label == Some(parts[4]))
            &&& (parts.len() <= 4 || parts[4].len() == 0 ==> gs[0].session_label is None)
            &&& (parts.len() > 5 && parts[5].len() > 0 ==> gs[0].worktree_branch == Some(parts[5]))
            &&& (parts.len() <= 5 || parts[5].len() == 0 ==> gs[0].worktree_branch is None)
        }),
        spec_parse_worktrees(l + "\n"@) == spec_parse_worktrees(l),
{
    lemma_split_single(l, '\n');
    assert(seq![l].drop_last() =~= Seq::<Seq<char>>::empty());
    assert(seq![l].last() == l);
    assert(worktree_rows(seq![l].drop_last()) =~= Seq::<WorktreeGroupView>::empty());
    lemma_worktrees_trailing_newline(l);
}

// ---------------------------------------------------------------------------
// meta files
// ---------------------------------------------------------------------------

/// A plain value: not empty, no whitespace at either end, no newline, and
/// not the unset marker `-`.
pub open spec fn plain_value(v: Seq<char>) -> bool {
    &&& v.len() > 0
    &&& !is_ws(v[0])
    &&& !is_ws(v.last())
    &&& !v.contains('\n')
    &&& v != "-"@
}

proof fn lemma_trim_plain(s: Seq<char>)
    requires
        s.len() > 0,
        !is_ws(s[0]),
        !is_ws(s.last()),
    ensures
        trim(s) == s,
{
}

/// How the line `key=v` reads: as itself, not a comment, split at the `=`
/// that ends the key.
proof fn lemma_key_line(key: Seq<char>, v: Seq<char>)
    requires
        key.len() > 0,
        forall|j: int| 0 <= j < key.len() ==> key[j] != '=' && key[j] != '\n',
        !is_ws(key[0]),
        key[0] != '#',
        !is_ws(key.last()),
        plain_value(v),
    ensures
        ({
            let line = key + "="@ + v;
            &&& trim(line) == line
            &&& line.len() > 0
            &&& line[0] != '#'
            &&& split_once(line, '=') == Some((key, v))
            &&& trim(key) == key
            &&& trim(v) == v
            &&& !line.contains('\n')
        }),
{
    reveal_strlit("=");
    let line = key + "="@ + v;
    assert(line[0] == key[0]);
    assert(line.last() == v.last());
    lemma_trim_plain(line);
    lemma_trim_plain(key);
    lemma_trim_plain(v);
    let i = key.len() as int;
    assert(line[i] == '=');
    assert forall|j: int| 0 <= j < i implies line[j] != '=' by {
        assert(line[j] == key[j]);
    }
    assert(is_first_index(line, '=', i));
    let k = choose|k: int| is_first_index(line, '=', k);
    lemma_first_index_unique(line, '=', i, k);
    assert(line.take(i) =~= key);
    assert(line.skip(i + 1) =~= v);
    assert(!line.contains('\n')) by {
        if line.contains('\n') {
            let q = choose|q: int| 0 <= q < line.len() && line[q] == '\n';
            if q > i {
                assert(v[q - i - 1] == '\n');
                assert(v.contains('\n'));
            }
        }
    }
}

/// Metadata after the lines of `c` and then the line `key=v`.
proof fn lemma_meta_append_key(c: Seq<char>, key: Seq<char>, v: Seq<char>)
    requires
        key.len() > 0,
        forall|j: int| 0 <= j < key.len() ==> key[j] != '=' && key[j] != '\n',
        !is_ws(key[0]),
        key[0] != '#',
        !is_ws(key.last()),
        plain_value(v),
    ensures
        spec_parse_meta(c + "\n"@ + key + "="@ + v) == crate::squad::apply_meta_line(
            spec_parse_meta(c),
            key + "="@ + v,
        ),
        spec_parse_meta(key + "="@ + v) == crate::squad::apply_meta_line(empty_meta(), key + "="@ + v),
{
    reveal_strlit("\n");
    lemma_key_line(key, v);
    let line = key + "="@ + v;
    assert(c + "\n"@ + key + "="@ + v =~= c.push('\n') + line);
    lemma_split_append_piece(c, line, '\n');
    assert(split(c, '\n').push(line).drop_last() =~= split(c, '\n'));
    lemma_split_single(line, '\n');
    assert(seq![line].drop_last() =~= Seq::<Seq<char>>::empty());
    assert(seq![line].last() == line);
    assert(meta_of_lines(seq![line].drop_last()) == empty_meta());
    assert(key + "="@ + v == line);
}

/// A line `key=v` with a plain value sets that key's field to `v` and leaves
/// the others as the lines before it left them, for each of the six keys;
/// a file of that one line has that field set and no other.
pub proof fn lemma_meta_key_sets_field(c: Seq<char>, v: Seq<char>)
    requires
        plain_value(v),
    ensures
        spec_parse_meta(c + "\n"@ + "model"@ + "="@ + v) == (SquadMetaView { model: Some(v), ..spec_parse_meta(c) }),
        spec_parse_meta(c + "\n"@ + "effort"@ + "="@ + v) == (SquadMetaView { effort: Some(v), ..spec_parse_meta(c) }),
        spec_parse_meta(c + "\n"@ + "kind"@ + "="@ + v) == (SquadMetaView { kind: Some(v), ..spec_parse_meta(c) }),
        spec_parse_meta(c + "\n"@ + "mode"@ + "="@ + v) == (SquadMetaView { mode: Some(v), ..spec_parse_meta(c) }),
        spec_parse_meta(c + "\n"@ + "project"@ + "="@ + v) == (SquadMetaView { project: Some(v), ..spec_parse_meta(c) }),
        spec_parse_meta(c + "\n"@ + "worktree"@ + "="@ + v) == (SquadMetaView { worktree: Some(v), ..spec_parse_meta(c) }),
        spec_parse_meta("model"@ + "="@ + v) == (SquadMetaView { model: Some(v), ..empty_meta() }),
        spec_parse_meta("effort"@ + "="@ + v) == (SquadMetaView { effort: Some(v), ..empty_meta() }),
        spec_parse_meta("kind"@ + "="@ + v) == (SquadMetaView { kind: Some(v), ..empty_meta() }),
        spec_parse_meta("mode"@ + "="@ + v) == (SquadMetaView { mode: Some(v), ..empty_meta() }),
        spec_parse_meta("project"@ + "="@ + v) == (SquadMetaView { project: Some(v), ..empty_meta() }),
        spec_parse_meta("worktree"@ + "="@ + v) == (SquadMetaView { worktree: Some(v), ..empty_meta() }),
{
    reveal_strlit("model");
    reveal_strlit("effort");
    reveal_strlit("kind");
    reveal_strlit("mode");
    reveal_strlit("project");
    reveal_strlit("worktree");
    assert(spec_parse_meta(c + "\n"@ + "model"@ + "="@ + v) == (SquadMetaView { model: Some(v), ..spec_parse_meta(c) })
        && spec_parse_meta("model"@ + "="@ + v) == (SquadMetaView { model: Some(v), ..empty_meta() })) by {
        lemma_key_sets(c, "model"@, v);
    }
    assert(spec_parse_meta(c + "\n"@ + "effort"@ + "="@ + v) == (SquadMetaView { effort: Some(v), ..spec_parse_meta(c) })
        && spec_parse_meta("effort"@ + "="@ + v) == (SquadMetaView { effort: Some(v), ..empty_meta() })) by {
        lemma_key_sets(c, "effort"@, v);
    }
    assert(spec_parse_meta(c + "\n"@ + "kind"@ + "="@ + v) == (SquadMetaView { kind: Some(v), ..spec_parse_meta(c) })
        && spec_parse_meta("kind"@ + "="@ + v) == (SquadMetaView { kind: Some(v), ..empty_meta() })) by {
        lemma_key_sets(c, "kind"@, v);
    }
    assert(spec_parse_meta(c + "\n"@ + "mode"@ + "="@ + v) == (SquadMetaView { mode: Some(v), ..spec_parse_meta(c) })
        && spec_parse_meta("mode"@ + "="@ + v) == (SquadMetaView { mode: Some(v), ..empty_meta() })) by {
        lemma_key_sets(c, "mode"@, v);
    }
    assert(spec_parse_meta(c + "\n"@ + "project"@ + "="@ + v) == (SquadMetaView { project: Some(v), ..spec_parse_meta(c) })
        && spec_parse_meta("project"@ + "="@ + v) == (SquadMetaView { project: Some(v), ..empty_meta() })) by {
        lemma_key_sets(c, "project"@, v);
    }
    assert(spec_parse_meta(c + "\n"@ + "worktree"@ + "="@ + v) == (SquadMetaView { worktree: Some(v), ..spec_parse_meta(c) })
        && spec_parse_meta("worktree"@ + "="@ + v) == (SquadMetaView { worktree: Some(v), ..empty_meta() })) by {
        lemma_key_sets(c, "worktree"@, v);
    }
}

/// The line `key=v`, for a known key, applied after `c` or alone.
proof fn lemma_key_sets(c: Seq<char>, key: Seq<char>, v: Seq<char>)
    requires
        plain_value(v),
        key == "model"@ || key == "effort"@ || key == "kind"@ || key == "mode"@ || key == "project"@
            || key == "worktree"@,
    ensures
        spec_parse_meta(c + "\n"@ + key + "="@ + v) == apply_meta_line(spec_parse_meta(c), key + "="@ + v),
        spec_parse_meta(key + "="@ + v) == apply_meta_line(empty_meta(), key + "="@ + v),
        forall|m: SquadMetaView| #[trigger] apply_meta_line(m, key + "="@ + v) == if key == "model"@ {
            SquadMetaView { model: Some(v), ..m }
        } else if key == "effort"@ {
            SquadMetaView { effort: Some(v), ..m }
        } else if key == "kind"@ {
            SquadMetaView { kind: Some(v), ..m }
        } else if key == "mode"@ {
            SquadMetaView { mode: Some(v), ..m }
        } else if key == "project"@ {
            SquadMetaView { project: Some(v), ..m }
        } else {
            SquadMetaView { worktree: Some(v), ..m }
        },
{
    reveal_strlit("model");
    reveal_strlit("effort");
    reveal_strlit("kind");
    reveal_strlit("mode");
    reveal_strlit("project");
    reveal_strlit("worktree");
    reveal_strlit("-");
    assert(key.len() > 0);
    assert(forall|j: int| 0 <= j < key.len() ==> key[j] != '=' && key[j] != '\n');
    assert(!is_ws(key[0]) && key[0] != '#' && !is_ws(key.last()));
    lemma_meta_append_key(c, key, v);
    lemma_key_line(key, v);
}

// ---------------------------------------------------------------------------
// Agent commands
// ---------------------------------------------------------------------------

/// The command an agent pane shows: `model (effort)` when both are set, the
/// model alone, `(effort)` alone, or none.
pub proof fn lemma_agent_pane_command(e: WindowStateEntryView, meta: SquadMetaView, t: Option<u64>)
    ensures
        meta.model is Some && meta.effort is Some ==> spec_agent_pane(e, meta, t).agent_command == Some(
            meta.model->0 + " ("@ + meta.effort->0 + ")"@,
        ),
        meta.model is Some && meta.effort is None ==> spec_agent_pane(e, meta, t).agent_command == meta.model,
        meta.model is None && meta.effort is Some ==> spec_agent_pane(e, meta, t).agent_command == Some(
            "("@ + meta.effort->0 + ")"@,
        ),
        meta.model is None && meta.effort is None ==> spec_agent_pane(e, meta, t).agent_command is None,
        spec_agent_pane(e, meta, t).agent_kind == meta.kind,
{
}

/// The command a pane row shows, from its task's metadata: `model (effort)`
/// when both are set, the model alone, `(effort)` alone, or none, and none
/// when the task has no metadata.
pub proof fn lemma_pane_entry_command(e: WindowStateEntryView, metas: Map<Seq<char>, SquadMetaView>)
    ensures
        spec_pane_entry(e, metas) is Pane,
        spec_pane_entry(e, metas)->task_id == e.id,
        ({
            let cmd = spec_pane_entry(e, metas)->agent_command;
            let kind = spec_pane_entry(e, metas)->agent_kind;
            if metas.contains_key(e.id) {
                let m = metas[e.id];
                &&& kind == m.kind
                &&& (m.model is Some && m.effort is Some ==> cmd == Some(
                    m.model->0 + " ("@ + m.effort->0 + ")"@,
                ))
                &&& (m.model is Some && m.effort is None ==> cmd == m.model)
                &&& (m.model is None && m.effort is Some ==> cmd == Some("("@ + m.effort->0 + ")"@))
                &&& (m.model is None && m.effort is None ==> cmd is None)
            } else {
                cmd is None && kind is None
            }
        }),
{
}

} // verus!
