use workmux::agent::{combine_status, AgentStatus};
use workmux::daemon_ctrl::{daemon_args, daemon_pid, socket_wait_step, SocketWait};
use workmux::data_source::{worktree_key, DataSourceType, SidebarEntry};
use workmux::hierarchy::derive_worktree_groups;
use workmux::squad::{
    agent_command, entry_worktree_path, state_base, MetaMap, SquadDataSource, SquadMeta, WindowStateEntry,
    WorktreeGroup,
};
use workmux::text::{chars_lt, split_chars, trim_chars};

fn entry(id: &str, window: &str, label: &str) -> WindowStateEntry {
    WindowStateEntry {
        window: window.to_string(),
        id: id.to_string(),
        label: label.to_string(),
        state: label.to_string(),
        detail: String::new(),
    }
}

fn worktree_meta(path: &str) -> SquadMeta {
    SquadMeta {
        worktree: Some(path.to_string()),
        ..Default::default()
    }
}

fn group(session: &str, path: &str, label: Option<&str>) -> WorktreeGroup {
    WorktreeGroup {
        session: session.to_string(),
        worktree_path: path.to_string(),
        project: None,
        task_ids: Vec::new(),
        session_label: label.map(String::from),
        worktree_branch: None,
    }
}

fn s(x: &str) -> Option<String> {
    Some(x.to_string())
}

// ----- worktree keys and sessions -----

#[test]
fn worktree_key_puts_a_nul_between_session_and_path() {
    assert_eq!(worktree_key("Squad", "/a:b"), "Squad\u{0}/a:b");
    assert_ne!(worktree_key("a", "b:c"), worktree_key("a:b", "c"));
}

#[test]
fn sidebar_entry_session_of_every_variant() {
    let rows = vec![
        SidebarEntry::Session {
            session: "s1".into(),
            label: None,
            task_count: 0,
            aggregate_status: None,
        },
        SidebarEntry::Worktree {
            session: "s2".into(),
            worktree_path: "/p".into(),
            branch: None,
            task_count: 0,
            aggregate_status: None,
        },
        SidebarEntry::Pane {
            task_id: "t".into(),
            session: "s3".into(),
            window_name: "w".into(),
            pane_id: "%t".into(),
            label: "done".into(),
            detail: String::new(),
            status: None,
            agent_kind: None,
            agent_command: None,
        },
    ];
    let sessions: Vec<&str> = rows.iter().map(|r| r.session()).collect();
    assert_eq!(sessions, vec!["s1", "s2", "s3"]);
}

// ----- data source type -----

#[test]
fn data_source_type_names_and_parsing() {
    assert_eq!(DataSourceType::default(), DataSourceType::Tmux);
    assert_eq!(DataSourceType::Tmux.to_string(), "tmux");
    assert_eq!(DataSourceType::Squad.to_string(), "squad");
    assert_eq!(DataSourceType::from_name("TMUX"), Ok(DataSourceType::Tmux));
    assert_eq!(DataSourceType::from_name("Squad"), Ok(DataSourceType::Squad));
    assert_eq!(
        DataSourceType::from_name("Bogus"),
        Err("unknown data source: bogus".to_string())
    );
    assert_eq!("squad".parse::<DataSourceType>(), Ok(DataSourceType::Squad));
    for t in [DataSourceType::Tmux, DataSourceType::Squad] {
        assert_eq!(DataSourceType::from_name(&t.to_string()), Ok(t));
    }
}

// ----- status -----

#[test]
fn map_status_ignores_case() {
    assert_eq!(SquadDataSource::map_status("WORKING"), Some(AgentStatus::Working));
    assert_eq!(SquadDataSource::map_status("Blocked"), Some(AgentStatus::Waiting));
    assert_eq!(SquadDataSource::map_status("Failed"), Some(AgentStatus::Done));
    assert_eq!(SquadDataSource::status_of_lowercase("WORKING"), None);
}

#[test]
fn combine_status_is_commutative_associative_with_none_neutral() {
    let all = [
        None,
        Some(AgentStatus::Done),
        Some(AgentStatus::Waiting),
        Some(AgentStatus::Working),
    ];
    for a in all {
        assert_eq!(combine_status(None, a), a);
        assert_eq!(combine_status(a, a), a);
        for b in all {
            assert_eq!(combine_status(a, b), combine_status(b, a));
            for c in all {
                assert_eq!(
                    combine_status(combine_status(a, b), c),
                    combine_status(a, combine_status(b, c))
                );
            }
        }
    }
}

// ----- window targets -----

#[test]
fn window_target_splits_at_the_first_colon() {
    let (session, window) = SquadDataSource::parse_window_target("a:b:c");
    assert_eq!((session.as_str(), window.as_str()), ("a", "b:c"));
    let (session, window) = SquadDataSource::parse_window_target(":x");
    assert_eq!((session.as_str(), window.as_str()), ("", "x"));
    let (session, window) = SquadDataSource::parse_window_target("");
    assert_eq!((session.as_str(), window.as_str()), ("squad", ""));
}

// ----- text -----

#[test]
fn trim_removes_unicode_whitespace() {
    let v: Vec<char> = "\u{3000}\t x y \u{a0}\r".chars().collect();
    let t: String = trim_chars(&v).into_iter().collect();
    assert_eq!(t, "x y");
    let v: Vec<char> = " \u{2003} ".chars().collect();
    assert!(trim_chars(&v).is_empty());
}

#[test]
fn split_keeps_empty_pieces() {
    let v: Vec<char> = "a,,b,".chars().collect();
    let parts: Vec<String> = split_chars(&v, ',')
        .into_iter()
        .map(|p| p.into_iter().collect())
        .collect();
    assert_eq!(parts, vec!["a", "", "b", ""]);
    assert_eq!(split_chars(&[], ',').len(), 1);
}

#[test]
fn order_is_lexicographic_by_code_point() {
    let c = |x: &str| x.chars().collect::<Vec<char>>();
    assert!(chars_lt(&c("a"), &c("b")));
    assert!(chars_lt(&c("ab"), &c("abc")));
    assert!(!chars_lt(&c("abc"), &c("ab")));
    assert!(chars_lt(&c("Z"), &c("a")));
    assert!(!chars_lt(&c("x"), &c("x")));
}

// ----- window-states -----

#[test]
fn window_states_rows_with_four_and_more_fields() {
    let content = "w1\tid1\tdone\tdone\n  w2\tid2\tworking\tbusy\tpart one\tpart two  \r\nw3\tid3\tdone\n\n";
    let entries = SquadDataSource::parse_window_states(content);
    assert_eq!(entries.len(), 2);
    assert_eq!(entries[0].window, "w1");
    assert_eq!(entries[0].detail, "");
    assert_eq!(entries[1].window, "w2");
    assert_eq!(entries[1].state, "busy");
    assert_eq!(entries[1].detail, "part one\tpart two");
}

// ----- worktrees -----

#[test]
fn worktrees_optional_columns_and_task_ids() {
    let content = "S\t/p\t\t a , ,b \t\t\nT\t/q\tproj\n";
    let groups = SquadDataSource::parse_worktrees(content);
    assert_eq!(groups.len(), 2);
    assert_eq!(groups[0].project, None);
    assert_eq!(groups[0].task_ids, vec!["a", "b"]);
    assert_eq!(groups[0].session_label, None);
    assert_eq!(groups[0].worktree_branch, None);
    assert_eq!(groups[1].project.as_deref(), Some("proj"));
    assert!(groups[1].task_ids.is_empty());
}

// ----- meta -----

#[test]
fn meta_comments_unknown_keys_spacing_and_overrides() {
    let content = "# model=commented\n  model = first \nbogus=1\nno equals sign\nmodel=second\nproject=p\nmode=\nworktree= - \n";
    let meta = SquadDataSource::parse_meta(content);
    assert_eq!(meta.model.as_deref(), Some("second"));
    assert_eq!(meta.project.as_deref(), Some("p"));
    assert_eq!(meta.mode, None);
    assert_eq!(meta.worktree, None);
    assert_eq!(meta.effort, None);
    assert_eq!(meta.kind, None);
}

#[test]
fn meta_value_keeps_later_equals_signs() {
    let meta = SquadDataSource::parse_meta("model=a=b\n");
    assert_eq!(meta.model.as_deref(), Some("a=b"));
}

#[test]
fn meta_map_insert_replaces_and_get_misses() {
    let mut m = MetaMap::new();
    assert!(m.get("x").is_none());
    m.insert("x".into(), worktree_meta("/one"));
    m.insert("y".into(), worktree_meta("/two"));
    m.insert("x".into(), worktree_meta("/three"));
    assert_eq!(m.get("x").unwrap().worktree.as_deref(), Some("/three"));
    assert_eq!(m.get("y").unwrap().worktree.as_deref(), Some("/two"));
    assert!(m.get("z").is_none());
}

#[test]
fn meta_file_names() {
    assert_eq!(SquadDataSource::meta_file_name("sq-1"), "sq-1.meta");
    assert_eq!(SquadDataSource::busy_gen_file_name("sq-1"), "sq-1.busy-gen");
}

// ----- panes -----

#[test]
fn agent_command_formats() {
    assert_eq!(agent_command(&s("m"), &s("high")), s("m (high)"));
    assert_eq!(agent_command(&s("m"), &None), s("m"));
    assert_eq!(agent_command(&None, &s("high")), s("(high)"));
    assert_eq!(agent_command(&None, &None), None);
}

#[test]
fn entry_worktree_path_falls_back_to_project_then_root() {
    let mut m = MetaMap::new();
    m.insert(
        "a".into(),
        SquadMeta {
            project: s("/proj"),
            ..Default::default()
        },
    );
    m.insert("b".into(), SquadMeta::default());
    m.insert("c".into(), worktree_meta("/wt"));
    assert_eq!(entry_worktree_path(&entry("a", "S:a", "done"), &m), "/proj");
    assert_eq!(entry_worktree_path(&entry("b", "S:b", "done"), &m), "/");
    assert_eq!(entry_worktree_path(&entry("c", "S:c", "done"), &m), "/wt");
    assert_eq!(entry_worktree_path(&entry("d", "S:d", "done"), &m), "/");
}

#[test]
fn agent_pane_title_path_and_timestamps() {
    let mut e = entry("t1", "win", "blocked");
    e.state = "waiting".into();
    e.detail = "needs input".into();
    let meta = SquadMeta {
        project: s("/proj"),
        effort: s("low"),
        ..Default::default()
    };
    let p = SquadDataSource::agent_pane(&e, &meta, Some(42));
    assert_eq!(p.session, "squad");
    assert_eq!(p.window_name, "win");
    assert_eq!(p.pane_title.as_deref(), Some("waiting: needs input"));
    assert_eq!(p.path, "/proj");
    assert_eq!(p.status, Some(AgentStatus::Waiting));
    assert_eq!(p.status_ts, Some(42));
    assert_eq!(p.updated_ts, Some(42));
    assert_eq!(p.agent_command.as_deref(), Some("(low)"));
    assert_eq!(p.window_id, "");
    let q = SquadDataSource::agent_pane(&entry("t2", "w", "idle"), &SquadMeta::default(), None);
    assert_eq!(q.pane_title.as_deref(), Some("idle"));
    assert_eq!(q.path, "/");
    assert_eq!(q.status, None);
}

#[test]
fn pane_entry_without_meta() {
    let m = MetaMap::new();
    let row = SquadDataSource::pane_entry(&entry("t9", "S:w", "done"), &m);
    assert_eq!(
        row,
        SidebarEntry::Pane {
            task_id: "t9".into(),
            session: "S".into(),
            window_name: "w".into(),
            pane_id: "%t9".into(),
            label: "done".into(),
            detail: String::new(),
            status: Some(AgentStatus::Done),
            agent_kind: None,
            agent_command: None,
        }
    );
}

// ----- derived groups and the hierarchy -----

#[test]
fn derived_groups_are_sorted_by_session_then_path() {
    let mut m = MetaMap::new();
    m.insert(
        "1".into(),
        SquadMeta {
            worktree: s("/z"),
            project: s("P1"),
            ..Default::default()
        },
    );
    m.insert("2".into(), worktree_meta("/a"));
    m.insert("3".into(), worktree_meta("/z"));
    m.insert("4".into(), worktree_meta("/a"));
    let entries = vec![
        entry("1", "B:1", "done"),
        entry("2", "B:2", "done"),
        entry("3", "B:3", "done"),
        entry("4", "A:4", "done"),
    ];
    let groups = derive_worktree_groups(&entries, &m);
    let keys: Vec<(&str, &str)> = groups
        .iter()
        .map(|g| (g.session.as_str(), g.worktree_path.as_str()))
        .collect();
    assert_eq!(keys, vec![("A", "/a"), ("B", "/a"), ("B", "/z")]);
    assert_eq!(groups[2].task_ids, vec!["1", "3"]);
    assert_eq!(groups[2].project.as_deref(), Some("P1"));
    assert_eq!(groups[1].project, None);
}

#[test]
fn hierarchy_orders_sessions_worktrees_and_panes() {
    let mut m = MetaMap::new();
    for (id, path) in [("z", "/b"), ("y", "/b"), ("x", "/a"), ("w", "/c")] {
        m.insert(id.into(), worktree_meta(path));
    }
    let worktrees = vec![
        group("beta", "/b", None),
        group("beta", "/a", Some("Beta label")),
        group("alpha", "/c", None),
    ];
    let entries = vec![
        entry("z", "beta:z", "done"),
        entry("y", "beta:y", "working"),
        entry("x", "beta:x", "blocked"),
        entry("w", "alpha:w", "idle"),
    ];
    let rows = SquadDataSource::build_hierarchy(&worktrees, &entries, &m);
    let shape: Vec<String> = rows
        .iter()
        .map(|r| match r {
            SidebarEntry::Session { session, task_count, .. } => format!("S {session} {task_count}"),
            SidebarEntry::Worktree { worktree_path, task_count, .. } => {
                format!("W {worktree_path} {task_count}")
            }
            SidebarEntry::Pane { task_id, .. } => format!("P {task_id}"),
        })
        .collect();
    assert_eq!(
        shape,
        vec![
            "S alpha 1", "W /c 1", "P w", "S beta 3", "W /a 1", "P x", "W /b 2", "P y", "P z"
        ]
    );
    let SidebarEntry::Session { label, aggregate_status, .. } = &rows[3] else {
        panic!("expected the beta session");
    };
    assert_eq!(label.as_deref(), Some("Beta label"));
    assert_eq!(*aggregate_status, Some(AgentStatus::Working));
    let SidebarEntry::Session { aggregate_status, .. } = &rows[0] else {
        panic!("expected the alpha session");
    };
    assert_eq!(*aggregate_status, None);
}

#[test]
fn hierarchy_lists_every_task_and_empty_published_groups() {
    let m = MetaMap::new();
    let worktrees = vec![group("S", "/empty", None)];
    let entries = vec![entry("a", "S:a", "done"), entry("b", "plain", "done")];
    let rows = SquadDataSource::build_hierarchy(&worktrees, &entries, &m);
    let ids: Vec<&str> = rows
        .iter()
        .filter_map(|r| match r {
            SidebarEntry::Pane { task_id, .. } => Some(task_id.as_str()),
            _ => None,
        })
        .collect();
    assert_eq!(ids, vec!["a", "b"]);
    // S has its empty published group and the derived "/" group; "plain"
    // belongs to session "squad".
    assert_eq!(rows.len(), 7);
    assert!(matches!(&rows[1], SidebarEntry::Worktree { worktree_path, task_count: 1, .. } if worktree_path == "/"));
    assert!(matches!(&rows[3], SidebarEntry::Worktree { worktree_path, task_count: 0, .. } if worktree_path == "/empty"));
    assert!(matches!(&rows[4], SidebarEntry::Session { session, .. } if session == "squad"));
}

/// Checks the flat reading of a hierarchy: counts, aggregates and owners.
fn check_flat_counts(rows: &[SidebarEntry]) {
    for (i, row) in rows.iter().enumerate() {
        match row {
            SidebarEntry::Worktree { session, task_count, aggregate_status, .. } => {
                let run: Vec<&SidebarEntry> = rows[i + 1..]
                    .iter()
                    .take_while(|r| matches!(r, SidebarEntry::Pane { .. }))
                    .collect();
                assert_eq!(*task_count, run.len());
                let mut agg = None;
                for r in &run {
                    if let SidebarEntry::Pane { status, session: s, .. } = r {
                        agg = combine_status(agg, *status);
                        assert_eq!(s, session);
                    }
                }
                assert_eq!(*aggregate_status, agg);
            }
            SidebarEntry::Session { session, task_count, aggregate_status, .. } => {
                let sec: Vec<&SidebarEntry> = rows[i + 1..]
                    .iter()
                    .take_while(|r| !matches!(r, SidebarEntry::Session { .. }))
                    .collect();
                let mut panes = 0;
                let mut sum = 0;
                let mut agg = None;
                for r in &sec {
                    assert_eq!(r.session(), session.as_str());
                    match r {
                        SidebarEntry::Pane { status, .. } => {
                            panes += 1;
                            agg = combine_status(agg, *status);
                        }
                        SidebarEntry::Worktree { task_count, .. } => sum += task_count,
                        SidebarEntry::Session { .. } => unreachable!(),
                    }
                }
                assert_eq!(*task_count, panes);
                assert_eq!(*task_count, sum);
                assert_eq!(*aggregate_status, agg);
            }
            SidebarEntry::Pane { .. } => {
                assert!(i > 0);
                assert!(!matches!(rows[i - 1], SidebarEntry::Session { .. }));
            }
        }
    }
}

fn order_example() -> (Vec<WorktreeGroup>, Vec<WindowStateEntry>, MetaMap) {
    let mut m = MetaMap::new();
    for (id, path) in [("z", "/b"), ("y", "/b"), ("x", "/a"), ("w", "/c"), ("v", "/d")] {
        m.insert(id.into(), worktree_meta(path));
    }
    let worktrees = vec![
        group("beta", "/b", None),
        group("beta", "/a", Some("Beta label")),
        group("alpha", "/c", None),
        group("gamma", "/e", Some("Gamma")),
    ];
    let entries = vec![
        entry("z", "beta:z", "done"),
        entry("y", "beta:y", "working"),
        entry("x", "beta:x", "blocked"),
        entry("w", "alpha:w", "idle"),
        entry("v", "beta:v", "failed"),
    ];
    (worktrees, entries, m)
}

#[test]
fn hierarchy_flat_counts_and_owners() {
    let (worktrees, entries, m) = order_example();
    let rows = SquadDataSource::build_hierarchy(&worktrees, &entries, &m);
    check_flat_counts(&rows);
    assert!(matches!(&rows[0], SidebarEntry::Session { .. }));
    // Each row is listed once.
    let mut ids: Vec<&str> = rows
        .iter()
        .filter_map(|r| match r {
            SidebarEntry::Pane { task_id, .. } => Some(task_id.as_str()),
            _ => None,
        })
        .collect();
    ids.sort();
    assert_eq!(ids, vec!["v", "w", "x", "y", "z"]);
    // The published group without rows has its row, and its label names the
    // session.
    assert!(rows.iter().any(|r| matches!(r,
        SidebarEntry::Worktree { session, worktree_path, task_count: 0, .. }
            if session == "gamma" && worktree_path == "/e")));
    assert!(rows.iter().any(|r| matches!(r,
        SidebarEntry::Session { session, label: Some(l), task_count: 0, .. }
            if session == "gamma" && l == "Gamma")));
}

#[test]
fn hierarchy_does_not_depend_on_input_order() {
    let (worktrees, entries, m) = order_example();
    let rows = SquadDataSource::build_hierarchy(&worktrees, &entries, &m);
    let mut w2 = worktrees.clone();
    w2.reverse();
    let mut e2 = entries.clone();
    e2.rotate_left(2);
    let rows2 = SquadDataSource::build_hierarchy(&w2, &e2, &m);
    assert_eq!(rows, rows2);
}

#[test]
fn state_base_prefers_base_then_home() {
    assert_eq!(state_base(s("/b"), s("/h")), s("/b"));
    assert_eq!(state_base(None, s("/h")), s("/h"));
    assert_eq!(state_base(None, None), None);
}

#[test]
fn hierarchy_of_nothing_is_empty() {
    assert!(SquadDataSource::build_hierarchy(&[], &[], &MetaMap::new()).is_empty());
    assert!(SquadDataSource::list_entries("", "", &[]).is_empty());
}

// ----- daemon -----

#[test]
fn daemon_pid_is_trimmed_output() {
    assert_eq!(daemon_pid(Some(" 4242\n".into())), Some("4242".to_string()));
    assert_eq!(daemon_pid(Some(" \n".into())), None);
    assert_eq!(daemon_pid(None), None);
}

#[test]
fn daemon_args_with_and_without_squad() {
    assert_eq!(
        daemon_args(false, "i1"),
        vec!["_sidebar-daemon", "--instance-id", "i1"]
    );
    assert_eq!(
        daemon_args(true, "i1"),
        vec!["_sidebar-daemon", "--data-source", "squad", "--instance-id", "i1"]
    );
}

#[test]
fn socket_wait_steps() {
    assert_eq!(socket_wait_step(0, 2000, true), SocketWait::Ready);
    assert_eq!(socket_wait_step(0, 2000, false), SocketWait::Retry);
    assert_eq!(socket_wait_step(2000, 2000, true), SocketWait::GiveUp);
}
