use snatch::commands::recent::{
    count_entries, flat_json, logical_json, print_flat, print_logical, print_provider,
    print_provider_warnings, provider_json, provider_recent_rows, run_collapsed, run_provider,
    LogicalRow, ShownRow,
};
use snatch::commands::OutputFormat;
use snatch::provider::{
    LineageEdge, LineageEdgeKind, LogicalSessionKey, ProjectSession, UnifiedProject,
};

fn key(id: &str) -> LogicalSessionKey {
    LogicalSessionKey {
        provider: "test".to_string(),
        namespace: String::new(),
        native_id: id.to_string(),
        qualified: format!("test:{id}"),
    }
}

fn project_session(id: &str, size: u64) -> ProjectSession {
    ProjectSession { key: key(id), modified_at: None, artifact_bytes: size }
}

#[test]
fn provider_recent_collapses_only_continuations() {
    let project = UnifiedProject {
        identity: "/repo".to_string(),
        display_path: Some("/repo".to_string()),
        sessions: vec![
            project_session("root", 1),
            project_session("continued", 2),
            project_session("fork", 4),
            project_session("spawn", 8),
        ],
    };
    let lineage = vec![
        LineageEdge {
            from: key("root"),
            to: key("continued"),
            kind: LineageEdgeKind::Continuation,
        },
        LineageEdge { from: key("root"), to: key("fork"), kind: LineageEdgeKind::Fork },
        LineageEdge {
            from: key("root"),
            to: key("spawn"),
            kind: LineageEdgeKind::Spawn { tool_use_id: None, agent_type: None, description: None },
        },
    ];

    let projects = vec![project];
    let rows = provider_recent_rows(&projects, &lineage, false);
    assert_eq!(rows.len(), 3);
    let root = rows.iter().find(|row| row.native_id == "root").expect("continuation root");
    assert_eq!(root.continuation_member_count, 2);
    assert_eq!(root.size_bytes, 3);
    assert!(rows
        .iter()
        .any(|row| row.native_id == "fork" && row.continuation_member_count == 1));
    assert!(rows
        .iter()
        .any(|row| row.native_id == "spawn" && row.continuation_member_count == 1));

    let flat = provider_recent_rows(&projects, &lineage, true);
    assert_eq!(flat.len(), 4);
    assert!(flat.iter().all(|row| row.continuation_member_count == 1));
}

#[test]
fn files_are_listed_without_the_columns_of_conversations() {
    let row = LogicalRow {
        root_id: "0123456789".to_string(),
        latest_session_id: "0123456789".to_string(),
        members: vec!["0123456789".to_string()],
        latest_modified: 0,
        total_size: 7,
        project: "/p".to_string(),
        display_name: "name".to_string(),
        short_project: "/p".to_string(),
        name: Some("name".to_string()),
        bookmarked: Some(true),
        time: "2024-01-01 00:00".to_string(),
        entry_count: Some(3),
    };
    let rows = vec![row];
    assert_eq!(
        print_flat(&rows, OutputFormat::Tsv, false),
        vec![
            "id\tproject\tmodified\tsize\tname",
            "01234567\t/p\t2024-01-01 00:00\t7\tname",
        ]
    );
    assert_eq!(print_flat(&rows, OutputFormat::Compact, false), vec!["01234567 /p"]);
    assert_eq!(
        print_flat(&rows, OutputFormat::Text, false)[3],
        format!("  ★ 01234567 │ {:45} │ 2024-01-01 00:00 │ 3 entries", "name")
    );
    assert_eq!(
        print_flat(&vec![], OutputFormat::Tsv, false),
        vec!["No recent sessions found."]
    );
    assert!(print_flat(&vec![], OutputFormat::Tsv, true).is_empty());
}

fn logical(id: &str, time: i128, members: usize) -> LogicalRow {
    LogicalRow {
        root_id: id.to_string(),
        latest_session_id: "latest-session".to_string(),
        members: (0..members).map(|i| format!("m{i}")).collect(),
        latest_modified: time,
        total_size: 9,
        project: "/p".to_string(),
        display_name: "/p".to_string(),
        short_project: "p".to_string(),
        name: None,
        bookmarked: None,
        time: "now".to_string(),
        entry_count: None,
    }
}

#[test]
fn conversations_come_latest_first() {
    let rows = vec![logical("first-session", 1, 1), logical("second-session", 2, 3)];
    let shown = run_collapsed(rows, 5);
    assert_eq!(shown[0].root_id, "second-session");
    assert_eq!(
        print_logical(&shown, OutputFormat::Compact, false),
        vec!["second-s p (chain: 3, latest latest-s)", "first-se p"]
    );
    assert_eq!(
        print_logical(&shown, OutputFormat::Tsv, false)[1],
        "second-s\t/p\tnow\t9\t\t3\tlatest-s"
    );
    assert_eq!(run_collapsed(shown, 1).len(), 1);
}

#[test]
fn conversations_are_told_as_json() {
    let rows = vec![logical("a", -1, 2)];
    assert_eq!(
        snatch::json::render(&logical_json(&rows)),
        "[{\"id\":\"a\",\"latest_session_id\":\"latest-session\",\"chain_member_count\":2,\
         \"chain_members\":[\"m0\",\"m1\"],\"project\":\"/p\",\"modified\":-1,\"size_bytes\":9,\
         \"entry_count\":null}]"
    );
    let mut row = logical("a", 2_999_999_999, 1);
    row.name = Some("n".to_string());
    row.bookmarked = Some(false);
    row.entry_count = Some(4);
    assert_eq!(
        snatch::json::render(&flat_json(&vec![row])),
        "[{\"id\":\"a\",\"project\":\"/p\",\"modified\":2,\"size_bytes\":9,\"entry_count\":4,\
         \"name\":\"n\",\"bookmarked\":false}]"
    );
}

#[test]
fn entries_of_a_conversation_add_up() {
    assert_eq!(count_entries(&vec![None, None]), None);
    assert_eq!(count_entries(&vec![Some(2), None, Some(3)]), Some(5));
}

#[test]
fn rows_of_providers_are_shown_in_each_format() {
    let projects = vec![UnifiedProject {
        identity: "id".to_string(),
        display_path: Some("/work".to_string()),
        sessions: vec![
            ProjectSession {
                key: key("one"),
                modified_at: Some(1_000_000_000),
                artifact_bytes: 5,
            },
            project_session("two", 6),
        ],
    }];
    let output = run_provider(&projects, &vec![], true, 1);
    assert_eq!(output.total, 2);
    assert_eq!(output.sessions[0].qualified_id, "test:one");
    let value = snatch::json::render(&provider_json(
        &output,
        &vec![snatch::provider::SkippedProvider {
            provider: "gone".to_string(),
            reason: "why".to_string(),
        }],
        &vec!["test:two".to_string()],
    ));
    assert!(value.contains("\"modified\":\"1970-01-01T00:00:01Z\",\"size_bytes\":5}],\"total\":2"));
    assert!(value.contains("\"skipped_providers\":[{\"provider\":\"gone\",\"reason\":\"why\"}]"));
    assert!(value.ends_with(
        "\"warnings\":[{\"qualified_id\":\"test:two\",\"reason\":\
         \"project metadata unavailable; session retained in its own project\"}]}"
    ));
    let rows: Vec<ShownRow> = output
        .sessions
        .into_iter()
        .map(|row| ShownRow {
            row,
            time: Some("00:00".to_string()),
            project: "/work".to_string(),
            short_project: "work".to_string(),
        })
        .collect();
    assert_eq!(
        print_provider(&rows, OutputFormat::Tsv, false)[1],
        "test:one\t/work\t1970-01-01T00:00:01+00:00\t5\t1\ttest:one"
    );
    assert_eq!(print_provider(&rows, OutputFormat::Compact, false), vec!["test:one work"]);
    assert_eq!(
        print_provider(&rows, OutputFormat::Text, false)[3],
        format!("  test:one │ {:45} │ 00:00 │ ", "/work")
    );
    assert_eq!(
        print_provider_warnings(&vec![], 2),
        vec!["warning: 2 session(s) lacked project metadata and were retained separately"]
    );
}
