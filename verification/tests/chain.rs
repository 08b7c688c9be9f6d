use snatch::commands::chain::{
    chains_json, known_sessions, lineage_json, print_lineage, print_lineage_warnings,
    provider_lineage_rows, run_classic, tsv_cell, ChainMember, KnownSession, SessionChain,
};
use snatch::commands::OutputFormat;
use snatch::json;
use snatch::provider::{
    LineageEdge, LineageEdgeKind, LogicalSessionKey, ProjectSession, SkippedProvider, UnifiedProject,
};

fn key(native_id: &str) -> LogicalSessionKey {
    LogicalSessionKey {
        provider: "test".to_string(),
        namespace: String::new(),
        native_id: native_id.to_string(),
        qualified: format!("test:{native_id}"),
    }
}

fn known(key: &LogicalSessionKey, project: &str) -> KnownSession {
    KnownSession { key: key.clone(), project: project.to_string() }
}

#[test]
fn typed_rows_preserve_kinds_spawn_metadata_and_dangling_edges() {
    let root = key("root");
    let continuation = key("continuation");
    let fork = key("fork");
    let spawn = key("spawn");
    let missing = key("missing");
    let projects = vec![
        known(&root, "/work/project"),
        known(&continuation, "/work/project"),
        known(&fork, "/work/project"),
        known(&spawn, "/work/project"),
    ];
    let edges = vec![
        LineageEdge {
            from: root.clone(),
            to: continuation,
            kind: LineageEdgeKind::Continuation,
        },
        LineageEdge { from: missing, to: fork, kind: LineageEdgeKind::Fork },
        LineageEdge {
            from: root.clone(),
            to: spawn,
            kind: LineageEdgeKind::Spawn {
                tool_use_id: Some("tool-1".to_string()),
                agent_type: Some("worker".to_string()),
                description: Some("inspect".to_string()),
            },
        },
    ];

    let rows = provider_lineage_rows(&edges, &projects, &None);
    assert_eq!(rows.len(), 3);
    assert_eq!(rows[0].kind, "continuation");
    assert_eq!(rows[1].kind, "fork");
    assert!(rows[1].dangling_from);
    assert!(!rows[1].dangling_to);
    assert_eq!(rows[2].kind, "spawn");
    assert_eq!(rows[2].tool_use_id.as_deref(), Some("tool-1"));
    assert_eq!(rows[2].agent_type.as_deref(), Some("worker"));
    assert_eq!(rows[2].description.as_deref(), Some("inspect"));
}

#[test]
fn project_filter_keeps_edges_touching_a_selected_known_endpoint() {
    let selected = key("selected");
    let outside = key("outside");
    let dangling = key("dangling");
    let projects = vec![known(&selected, "/work/selected"), known(&outside, "/work/outside")];
    let edges = vec![
        LineageEdge {
            from: dangling.clone(),
            to: selected.clone(),
            kind: LineageEdgeKind::Fork,
        },
        LineageEdge { from: outside.clone(), to: dangling, kind: LineageEdgeKind::Fork },
    ];
    let members = Some(vec![selected]);

    let rows = provider_lineage_rows(&edges, &projects, &members);
    assert_eq!(rows.len(), 1);
    assert!(rows[0].dangling_from);
    assert_eq!(rows[0].to_project.as_deref(), Some("/work/selected"));
}

#[test]
fn tsv_cells_cannot_inject_rows_or_columns() {
    assert_eq!(tsv_cell("task\tname\r\nnext"), "task name  next");
}

#[test]
fn cells_keep_everything_but_breaks() {
    assert_eq!(tsv_cell("naïve │ text"), "naïve │ text");
    assert_eq!(tsv_cell(""), "");
}

#[test]
fn a_session_that_is_told_twice_keeps_its_last_project() {
    let a = key("a");
    let b = key("b");
    let projects = vec![known(&a, "/one"), known(&b, "/two"), known(&a, "/three")];
    let edges = vec![LineageEdge {
        from: a.clone(),
        to: b.clone(),
        kind: LineageEdgeKind::Continuation,
    }];
    let rows = provider_lineage_rows(&edges, &projects, &None);
    assert_eq!(rows[0].from_project.as_deref(), Some("/three"));
    assert_eq!(rows[0].from, "test:a");
    assert_eq!(rows[0].to, "test:b");
    assert!(!rows[0].dangling_from && !rows[0].dangling_to);
}

fn chain(root: &str, started: Option<i128>) -> SessionChain {
    SessionChain {
        root_id: root.to_string(),
        slug: None,
        members: vec![
            ChainMember { file_id: root.to_string(), started },
            ChainMember { file_id: "continued-file".to_string(), started: None },
        ],
        started,
    }
}

#[test]
fn chains_are_listed_latest_first() {
    let chains = vec![chain("unknown-time", None), chain("later-session", Some(3_600_000_000_000))];
    assert_eq!(
        run_classic("/p", chains.clone()),
        vec![
            "Project: /p",
            "Chains: 2",
            "",
            "  later-se [(no slug)] (2 files, started 1970-01-01 01:00 UTC)",
            "    1. later-se (root, 01:00)",
            "    2. continue (cont, ??:??)",
            "",
            "  unknown- [(no slug)] (2 files, started unknown)",
            "    1. unknown- (root, ??:??)",
            "    2. continue (cont, ??:??)",
            "",
        ]
    );
    assert!(run_classic("/p", vec![]).is_empty());
    assert_eq!(
        json::render(&chains_json("/p", chains[1..].to_vec())),
        "[{\"root_id\":\"later-session\",\"slug\":null,\
         \"members\":[\"later-session\",\"continued-file\"],\"length\":2,\
         \"started\":\"1970-01-01T01:00:00+00:00\",\"project\":\"/p\"}]"
    );
}

#[test]
fn edges_are_told_as_json_with_their_kinds() {
    let edges = vec![
        LineageEdge { from: key("a"), to: key("b"), kind: LineageEdgeKind::Fork },
        LineageEdge { from: key("a"), to: key("c"), kind: LineageEdgeKind::Fork },
    ];
    let rows = provider_lineage_rows(&edges, &vec![known(&key("a"), "/p")], &None);
    let skipped =
        vec![SkippedProvider { provider: "x".to_string(), reason: "gone".to_string() }];
    let warned = vec!["test:b".to_string()];
    let value = json::render(&lineage_json(&rows, &skipped, &warned));
    assert!(value.starts_with(
        "{\"edges\":[{\"provider\":\"test\",\"kind\":\"fork\",\"from\":\"test:a\",\
         \"to\":\"test:b\",\"from_project\":\"/p\",\"to_project\":null,\
         \"dangling_from\":false,\"dangling_to\":true}"
    ));
    assert!(value.contains("\"total_edges\":2,\"counts_by_kind\":{\"fork\":2}"));
    assert_eq!(
        print_lineage_warnings(&skipped, &warned),
        vec![
            "Warning: provider 'x' was skipped: gone",
            "Warning: test:b: project metadata unavailable; lineage retained under a session fallback",
        ]
    );
    assert_eq!(
        print_lineage(&rows, OutputFormat::Compact),
        vec!["fork\ttest:a\ttest:b", "fork\ttest:a\ttest:c"]
    );
    assert!(print_lineage(&rows, OutputFormat::Text)
        .contains(&"  Missing endpoint inventory: to".to_string()));
}

#[test]
fn sessions_are_known_by_their_projects() {
    let project = UnifiedProject {
        identity: "id".to_string(),
        display_path: None,
        sessions: vec![ProjectSession { key: key("a"), modified_at: None, artifact_bytes: 0 }],
    };
    let (all, chosen) = known_sessions(&vec![project], &vec![false]);
    assert_eq!(all[0].project, "id");
    assert!(chosen.is_empty());
}
