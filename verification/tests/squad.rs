use workmux::agent::{combine_status, AgentStatus};
use workmux::data_source::SidebarEntry;
use workmux::squad::{MetaMap, SquadDataSource, SquadMeta, WindowStateEntry, WorktreeGroup};

fn entry(id: &str, window: &str, label: &str, state: &str, detail: &str) -> WindowStateEntry {
    WindowStateEntry {
        window: window.to_string(),
        id: id.to_string(),
        label: label.to_string(),
        state: state.to_string(),
        detail: detail.to_string(),
    }
}

fn meta(model: Option<&str>, worktree: Option<&str>, kind: Option<&str>) -> SquadMeta {
    SquadMeta {
        model: model.map(String::from),
        worktree: worktree.map(String::from),
        kind: kind.map(String::from),
        ..Default::default()
    }
}

fn metas_of(pairs: Vec<(&str, SquadMeta)>) -> MetaMap {
    let mut m = MetaMap::new();
    for (k, v) in pairs {
        m.insert(k.to_string(), v);
    }
    m
}

#[test]
fn test_parse_window_target() {
    let (session, window) = SquadDataSource::parse_window_target("squad:my-window");
    assert_eq!(session, "squad");
    assert_eq!(window, "my-window");

    let (session, window) = SquadDataSource::parse_window_target("just-window");
    assert_eq!(session, "squad");
    assert_eq!(window, "just-window");
}

#[test]
fn test_map_status() {
    assert_eq!(
        SquadDataSource::map_status("working"),
        Some(AgentStatus::Working)
    );
    assert_eq!(SquadDataSource::map_status("done"), Some(AgentStatus::Done));
    assert_eq!(
        SquadDataSource::map_status("blocked"),
        Some(AgentStatus::Waiting)
    );
    assert_eq!(
        SquadDataSource::map_status("awaiting-decision"),
        Some(AgentStatus::Waiting)
    );
    assert_eq!(
        SquadDataSource::map_status("failed"),
        Some(AgentStatus::Done)
    );
    assert_eq!(SquadDataSource::map_status("idle"), None);
    assert_eq!(SquadDataSource::map_status("unknown"), None);
}

#[test]
fn test_read_window_states_empty() {
    let entries = SquadDataSource::parse_window_states("");
    assert!(entries.is_empty());
}

#[test]
fn test_read_window_states() {
    let content = "squad:main\ttask-1\tworking\tworking\tImplementing feature\n\
                    squad:main\ttask-2\tdone\tdone\tFeature complete\n";
    let entries = SquadDataSource::parse_window_states(content);

    assert_eq!(entries.len(), 2);
    assert_eq!(entries[0].id, "task-1");
    assert_eq!(entries[0].label, "working");
    assert_eq!(entries[0].detail, "Implementing feature");
    assert_eq!(entries[1].id, "task-2");
    assert_eq!(entries[1].label, "done");
}

#[test]
fn test_read_meta() {
    // Squad writes meta in shell key=value format, not JSON
    let meta_content = "window=Squad:sq-abc\nmodel=atlas-3-pro\neffort=high\nkind=strike\nmode=drill\nproject=my-project\nworktree=/tmp/worktree-123\n";
    let meta = SquadDataSource::parse_meta(meta_content);

    assert_eq!(meta.model.unwrap(), "atlas-3-pro");
    assert_eq!(meta.effort.unwrap(), "high");
    assert_eq!(meta.kind.unwrap(), "strike");
    assert_eq!(meta.worktree.unwrap(), "/tmp/worktree-123");
}

#[test]
fn test_read_meta_empty_values() {
    // Squad uses '-' for unset values
    let meta_content = "model=-\neffort=-\nkind=strike\n";
    let meta = SquadDataSource::parse_meta(meta_content);

    assert!(meta.model.is_none());
    assert!(meta.effort.is_none());
    assert_eq!(meta.kind.unwrap(), "strike");
}

#[test]
fn test_list_agents_full() {
    let content = "squad:main\ttask-1\tworking\tworking\tImplementing feature\n";
    let meta_content =
        "model=atlas-3-pro\neffort=high\nkind=strike\nworktree=/tmp/worktree-123\n";

    let entries = SquadDataSource::parse_window_states(content);
    let meta = SquadDataSource::parse_meta(meta_content);
    let agents: Vec<_> = entries
        .iter()
        .map(|e| SquadDataSource::agent_pane(e, &meta, None))
        .collect();

    assert_eq!(agents.len(), 1);
    let agent = &agents[0];
    assert_eq!(agent.session, "squad");
    assert_eq!(agent.window_name, "main");
    assert_eq!(agent.pane_id, "%task-1");
    assert_eq!(agent.status, Some(AgentStatus::Working));
    assert_eq!(agent.path, "/tmp/worktree-123");
    assert_eq!(agent.agent_kind.as_ref().unwrap(), "strike");
    assert!(
        agent
            .agent_command
            .as_ref()
            .unwrap()
            .contains("atlas-3-pro")
    );
}

#[test]
fn test_read_worktrees_parses_realistic_file() {
    let content = "Squad\t/home/rehem/.fob/squad-b4752b/1/squad\t/home/rehem/Projects/squad\tsq-abc,sq-def\tSquad base\tmain\n\
                   Squad\t/tmp/squad-strike-xyz\t/home/rehem/Projects/squad\tsq-ghi\tSquad base\tfix/sidebar\n";
    let groups = SquadDataSource::parse_worktrees(content);

    assert_eq!(groups.len(), 2);
    let g0 = &groups[0];
    assert_eq!(g0.session, "Squad");
    assert_eq!(g0.worktree_path, "/home/rehem/.fob/squad-b4752b/1/squad");
    assert_eq!(g0.project.as_deref(), Some("/home/rehem/Projects/squad"));
    assert_eq!(g0.task_ids, vec!["sq-abc", "sq-def"]);
    assert_eq!(g0.session_label.as_deref(), Some("Squad base"));
    assert_eq!(g0.worktree_branch.as_deref(), Some("main"));
    assert_eq!(groups[1].worktree_branch.as_deref(), Some("fix/sidebar"));
}

#[test]
fn test_read_worktrees_missing_file_returns_empty() {
    assert!(SquadDataSource::parse_worktrees("").is_empty());
}

#[test]
fn test_read_worktrees_skips_short_rows() {
    let groups = SquadDataSource::parse_worktrees("Squad\nSquad\t/path\n");
    assert_eq!(groups.len(), 1);
    assert_eq!(groups[0].worktree_path, "/path");
}

#[test]
fn test_build_hierarchy_appendix_b() {
    // 1 session, 2 worktrees, 3 tasks.
    let metas = metas_of(vec![
        (
            "sq-abc",
            meta(
                Some("atlas-3-pro"),
                Some("/home/rehem/.fob/squad-b4752b/1/squad"),
                Some("strike"),
            ),
        ),
        (
            "sq-def",
            meta(None, Some("/home/rehem/.fob/squad-b4752b/1/squad"), None),
        ),
        ("sq-ghi", meta(None, Some("/tmp/squad-strike-xyz"), None)),
    ]);
    let worktrees = vec![
        WorktreeGroup {
            session: "Squad".to_string(),
            worktree_path: "/home/rehem/.fob/squad-b4752b/1/squad".to_string(),
            project: Some("/home/rehem/Projects/squad".to_string()),
            task_ids: vec!["sq-abc".to_string(), "sq-def".to_string()],
            session_label: Some("Squad base".to_string()),
            worktree_branch: Some("main".to_string()),
        },
        WorktreeGroup {
            session: "Squad".to_string(),
            worktree_path: "/tmp/squad-strike-xyz".to_string(),
            project: Some("/home/rehem/Projects/squad".to_string()),
            task_ids: vec!["sq-ghi".to_string()],
            session_label: Some("Squad base".to_string()),
            worktree_branch: Some("fix/sidebar".to_string()),
        },
    ];
    let entries = vec![
        entry(
            "sq-abc",
            "Squad:sq-abc",
            "working",
            "working",
            "Implementing feature",
        ),
        entry("sq-def", "Squad:sq-def", "done", "done", "Feature complete"),
        entry(
            "sq-ghi",
            "Squad:sq-ghi",
            "working",
            "working",
            "Sidebar hierarchy",
        ),
    ];

    let hierarchy = SquadDataSource::build_hierarchy(&worktrees, &entries, &metas);

    assert_eq!(hierarchy.len(), 6); // 1 session + 2 worktrees + 3 panes

    let SidebarEntry::Session {
        session,
        label,
        task_count,
        aggregate_status,
    } = &hierarchy[0]
    else {
        panic!("expected session first");
    };
    assert_eq!(session, "Squad");
    assert_eq!(label.as_deref(), Some("Squad base"));
    assert_eq!(*task_count, 3);
    assert_eq!(*aggregate_status, Some(AgentStatus::Working));

    let SidebarEntry::Worktree {
        worktree_path,
        branch,
        task_count,
        aggregate_status,
        ..
    } = &hierarchy[1]
    else {
        panic!("expected worktree second");
    };
    assert_eq!(worktree_path, "/home/rehem/.fob/squad-b4752b/1/squad");
    assert_eq!(branch.as_deref(), Some("main"));
    assert_eq!(*task_count, 2);
    assert_eq!(*aggregate_status, Some(AgentStatus::Working));

    let SidebarEntry::Pane {
        task_id,
        pane_id,
        session,
        window_name,
        status,
        agent_kind,
        agent_command,
        ..
    } = &hierarchy[2]
    else {
        panic!("expected pane third");
    };
    assert_eq!(task_id, "sq-abc");
    assert_eq!(pane_id, "%sq-abc");
    assert_eq!(session, "Squad");
    assert_eq!(window_name, "sq-abc");
    assert_eq!(*status, Some(AgentStatus::Working));
    assert_eq!(agent_kind.as_deref(), Some("strike"));
    assert!(agent_command.as_deref().unwrap().contains("atlas-3-pro"));

    // Panes within a worktree are sorted by task id.
    let SidebarEntry::Pane { task_id, .. } = &hierarchy[3] else {
        panic!("expected second pane");
    };
    assert_eq!(task_id, "sq-def");

    let SidebarEntry::Worktree {
        worktree_path,
        branch,
        task_count,
        ..
    } = &hierarchy[4]
    else {
        panic!("expected second worktree");
    };
    assert_eq!(worktree_path, "/tmp/squad-strike-xyz");
    assert_eq!(branch.as_deref(), Some("fix/sidebar"));
    assert_eq!(*task_count, 1);

    let SidebarEntry::Pane { task_id, .. } = &hierarchy[5] else {
        panic!("expected third pane");
    };
    assert_eq!(task_id, "sq-ghi");
}

#[test]
fn test_build_hierarchy_derives_groups_without_worktrees_file() {
    // Publisher rollout: no state/worktrees yet, groups derived from metas.
    let metas = metas_of(vec![(
        "sq-abc",
        meta(None, Some("/home/rehem/.fob/squad-b4752b/1/squad"), None),
    )]);
    let entries = vec![entry("sq-abc", "Squad:sq-abc", "working", "working", "x")];

    let hierarchy = SquadDataSource::build_hierarchy(&[], &entries, &metas);

    assert_eq!(hierarchy.len(), 3); // session + worktree + pane
    let SidebarEntry::Session { task_count, .. } = &hierarchy[0] else {
        panic!()
    };
    assert_eq!(*task_count, 1);
    let SidebarEntry::Worktree { worktree_path, .. } = &hierarchy[1] else {
        panic!()
    };
    assert_eq!(worktree_path, "/home/rehem/.fob/squad-b4752b/1/squad");
    let SidebarEntry::Pane { task_id, .. } = &hierarchy[2] else {
        panic!()
    };
    assert_eq!(task_id, "sq-abc");
}

#[test]
fn test_build_hierarchy_emits_unpublished_entries() {
    // Publisher lag: an entry whose (session, path) isn't in the file yet
    // must still appear (via a derived group).
    let metas = metas_of(vec![
        (
            "sq-abc",
            meta(None, Some("/home/rehem/.fob/squad-b4752b/1/squad"), None),
        ),
        ("sq-new", meta(None, Some("/tmp/squad-strike-new"), None)),
    ]);
    let worktrees = vec![WorktreeGroup {
        session: "Squad".to_string(),
        worktree_path: "/home/rehem/.fob/squad-b4752b/1/squad".to_string(),
        project: None,
        task_ids: vec!["sq-abc".to_string()],
        session_label: None,
        worktree_branch: None,
    }];
    let entries = vec![
        entry("sq-abc", "Squad:sq-abc", "working", "working", "x"),
        entry("sq-new", "Squad:sq-new", "working", "working", "y"),
    ];

    let hierarchy = SquadDataSource::build_hierarchy(&worktrees, &entries, &metas);
    assert_eq!(hierarchy.len(), 5); // session + 2 worktrees + 2 panes
    let task_ids: Vec<&str> = hierarchy
        .iter()
        .filter_map(|e| match e {
            SidebarEntry::Pane { task_id, .. } => Some(task_id.as_str()),
            _ => None,
        })
        .collect();
    assert_eq!(task_ids, vec!["sq-abc", "sq-new"]);
}

#[test]
fn test_combine_status_priority() {
    assert_eq!(
        combine_status(Some(AgentStatus::Working), Some(AgentStatus::Done)),
        Some(AgentStatus::Working)
    );
    assert_eq!(
        combine_status(Some(AgentStatus::Done), Some(AgentStatus::Waiting)),
        Some(AgentStatus::Waiting)
    );
    assert_eq!(
        combine_status(Some(AgentStatus::Done), Some(AgentStatus::Done)),
        Some(AgentStatus::Done)
    );
    assert_eq!(
        combine_status(Some(AgentStatus::Done), None),
        Some(AgentStatus::Done)
    );
    assert_eq!(
        combine_status(None, Some(AgentStatus::Waiting)),
        Some(AgentStatus::Waiting)
    );
    assert_eq!(combine_status(None, None), None);
}

#[test]
fn test_list_entries_full_roundtrip() {
    // A realistic state dir: window-states + worktrees + metas, hierarchy out
    // the other side.
    let window_states = "Squad:sq-abc\tsq-abc\tworking\tworking\tImplementing feature\n\
             Squad:sq-def\tsq-def\tdone\tdone\tFeature complete\n";
    let worktrees = "Squad\t/home/rehem/.fob/squad-b4752b/1/squad\t/home/rehem/Projects/squad\tsq-abc,sq-def\tSquad base\tmain\n";
    let meta_files = vec![
        (
            "sq-abc".to_string(),
            "window=Squad:sq-abc\nmodel=atlas-3-pro\neffort=high\nkind=strike\nworktree=/home/rehem/.fob/squad-b4752b/1/squad\n".to_string(),
        ),
        (
            "sq-def".to_string(),
            "window=Squad:sq-def\nworktree=/home/rehem/.fob/squad-b4752b/1/squad\n".to_string(),
        ),
    ];

    let hierarchy = SquadDataSource::list_entries(window_states, worktrees, &meta_files);

    assert_eq!(hierarchy.len(), 4); // session + worktree + 2 panes
    let SidebarEntry::Session {
        session,
        task_count,
        ..
    } = &hierarchy[0]
    else {
        panic!()
    };
    assert_eq!(session, "Squad");
    assert_eq!(*task_count, 2);
    let SidebarEntry::Worktree {
        worktree_path,
        branch,
        task_count,
        ..
    } = &hierarchy[1]
    else {
        panic!()
    };
    assert_eq!(worktree_path, "/home/rehem/.fob/squad-b4752b/1/squad");
    assert_eq!(branch.as_deref(), Some("main"));
    assert_eq!(*task_count, 2);
    let pane_ids: Vec<&str> = hierarchy[2..]
        .iter()
        .filter_map(|e| match e {
            SidebarEntry::Pane { pane_id, .. } => Some(pane_id.as_str()),
            _ => None,
        })
        .collect();
    assert_eq!(pane_ids, vec!["%sq-abc", "%sq-def"]);
}
