use snatch::commands::conflicts::{self, choose_conflicts, ConflictPair};
use snatch::commands::file_evolution::{
    evolution_json, lies_in_range, print_evolution, print_provider_evolution, ChangeEvent,
    FileEvolution, ProviderChangeEvent, ProviderEvolution, ProviderFileEvolution,
};
use snatch::commands::file_history::{
    history_json, order_files, print_history, print_provider_history, provider_history_json,
    FileMatch, FileModification, ProviderChange, ProviderHistory,
};
use snatch::commands::monitor::{self, choose_candidates, Insight, MonitorOutput};
use snatch::commands::priorities::{
    print_provider_report, print_report, print_warnings, provider_report_json,
    remaining_providers, report_json, PriorityItem, PriorityReport, ProviderPriorityReport,
};
use snatch::commands::project_lessons::{
    category_of, lessons_json, print_lessons, ProjectLessons, RecurringCorrection, RecurringError,
};
use snatch::commands::providers::{
    count_forms, print_providers, providers_json, Artifact, ArtifactForm, ProviderEntry,
    ProviderScan,
};
use snatch::commands::OutputFormat;
use snatch::host::Host;
use snatch::json;

const NOON: i128 = 1_735_041_600_000_000_000;

fn host() -> Host {
    Host {
        name: "Helper Code".to_string(),
        brand: "Helper".to_string(),
        provider: "helper-code".to_string(),
        instructions: "HELPER.md".to_string(),
        title: "HELPER-SNATCH".to_string(),
        models: vec![],
    }
}

fn conflict(key: i64, earlier: i128) -> ConflictPair {
    ConflictPair {
        topic: "db".to_string(),
        detection: "opposing".to_string(),
        confidence_key: key,
        confidence: "0.5".to_string(),
        confidence_percent: 50,
        earlier_time: earlier,
        earlier_session: "aaaaaaaa-1".to_string(),
        earlier_text: "use\nsqlite".to_string(),
        later_time: NOON,
        later_session: "bbbbbbbb-1".to_string(),
        later_text: "no sqlite".to_string(),
    }
}

#[test]
fn the_surest_conflicts_come_first() {
    let all = vec![conflict(5, 2), conflict(9, 7), conflict(5, 1), conflict(1, 0)];
    let shown = choose_conflicts(all.clone(), 2, 10, false);
    let keys: Vec<_> = shown.iter().map(|c| (c.confidence_key, c.earlier_time)).collect();
    assert_eq!(keys, vec![(9, 7), (5, 1), (5, 2)]);
    assert_eq!(choose_conflicts(all.clone(), 2, 1, false).len(), 1);
    assert_eq!(choose_conflicts(all, i64::MIN, 1, true).len(), 4);
}

#[test]
fn conflicts_show_both_sides() {
    let lines = conflicts::output_text(&vec![conflict(1, NOON)], false);
    assert_eq!(
        lines,
        vec![
            "Detected 1 potential conflict:\n",
            "  [ 50%] opposing | topic: db",
            "",
            "    EARLIER (2024-12-24 [aaaaaaaa]):",
            "      use",
            "      sqlite",
            "",
            "    LATER (2024-12-24 [bbbbbbbb]):",
            "      no sqlite",
            "",
        ]
    );
    let value = json::render(&conflicts::output_json(&vec![conflict(1, NOON)]));
    assert!(value.contains("\"earlier\":{\"timestamp\":\"2024-12-24T12:00:00+00:00\",\"session_id\":\"aaaaaaaa-1\""));
    assert_eq!(conflicts::print_nothing(false, true, false).len(), 2);
    assert!(conflicts::print_nothing(false, true, true).is_empty());
}

fn insight(title: &str, is_due: bool) -> Insight {
    Insight {
        kind: "error".to_string(),
        title: title.to_string(),
        evidence: "3 times".to_string(),
        severity: "7".to_string(),
        fingerprint: "f".to_string(),
        is_due,
    }
}

#[test]
fn nobody_is_bothered_twice() {
    let all = vec![insight("a", false), insight("b", true)];
    assert_eq!(choose_candidates(all.clone(), true).len(), 1);
    assert_eq!(choose_candidates(all.clone(), false).len(), 2);
    match monitor::run(OutputFormat::Text, true, "p", &vec![]) {
        MonitorOutput::Lines(l) => assert!(l.is_empty()),
        other => panic!("{other:?}"),
    }
    match monitor::run(OutputFormat::Text, false, "p", &all) {
        MonitorOutput::Lines(l) => {
            assert_eq!(l[0], "Monitor insights for 'p' (2):");
            assert_eq!(l[4], "  2. [7] b");
        }
        other => panic!("{other:?}"),
    }
    match monitor::run(OutputFormat::Json, true, "p", &all[..1].to_vec()) {
        MonitorOutput::Value(v) => assert_eq!(
            json::render(&v),
            "[{\"kind\":\"error\",\"title\":\"a\",\"evidence\":\"3 times\",\"severity\":7,\
             \"fingerprint\":\"f\"}]"
        ),
        other => panic!("{other:?}"),
    }
    assert_eq!(monitor::print_inject(&all)[2], "- **a** — 3 times");
    assert!(monitor::marks_shown(true, true, true) && !monitor::marks_shown(false, true, true));
}

fn change(session: &str, version: u64) -> FileModification {
    FileModification {
        session_id: session.to_string(),
        project_path: "/p".to_string(),
        message_id: "message-1".to_string(),
        timestamp: NOON,
        version,
    }
}

#[test]
fn file_changes_are_shown_up_to_the_limit() {
    let files = order_files(vec![
        FileMatch { path: "b".to_string(), changes: vec![change("sess-0002", 3)] },
        FileMatch {
            path: "a".to_string(),
            changes: vec![change("sess-0001", 1), change("sess-0001", 2)],
        },
    ]);
    let lines = print_history("x", &files, 2);
    assert_eq!(
        lines,
        vec![
            "Files matching 'x': 2 (3 modifications)",
            "",
            "  a",
            "    sess-000 v1 (2024-12-24 12:00 UTC) [message-]",
            "    sess-000 v2 (2024-12-24 12:00 UTC) [message-]",
            "",
        ]
    );
    assert_eq!(print_history("x", &files, 0).len(), 2);
    assert_eq!(
        print_history("x", &vec![], 5),
        vec!["No sessions found that modified files matching 'x'."]
    );
    assert_eq!(json::render(&history_json(&files, 3)).matches("file_path").count(), 3);
    assert_eq!(json::render(&history_json(&files, 2)).matches("file_path").count(), 2);
}

fn provider_change(is_applied: bool) -> ProviderChange {
    ProviderChange {
        path: "a".to_string(),
        move_path: Some("b".to_string()),
        provider: "fake".to_string(),
        qualified_id: "fake:s".to_string(),
        session_id: "s".to_string(),
        project_path: None,
        entry_id: "e".to_string(),
        operation_id: None,
        timestamp: None,
        version: Some(2),
        kind: "update".to_string(),
        coverage: "full".to_string(),
        evidence: "patch".to_string(),
        is_applied,
        outcome: "failed".to_string(),
        record_ordinal: 1,
        outcome_record_ordinal: None,
    }
}

#[test]
fn attempts_are_told_apart_from_changes() {
    let history = ProviderHistory {
        path_query: "q".to_string(),
        selected: vec![provider_change(false), provider_change(true)],
        total_files: 1,
        total_modifications: 1,
        total_attempts: 1,
        skipped: vec!["other".to_string()],
        warnings: vec!["w".to_string()],
    };
    let lines = print_provider_history(history.clone());
    assert_eq!(
        &lines[2..],
        [
            "  a -> b: update fake:s v2 (time unavailable) [patch]",
            "  attempt a: update fake:s [failed; patch]",
            "  warning: other unavailable",
            "  warning: w",
        ]
    );
    let value = json::render(&provider_history_json(history));
    assert!(value.contains("\"returned\":2"));
    assert!(value.contains("\"skipped_providers\":[\"other: unavailable\"]"));
}

#[test]
fn changes_come_with_what_was_said() {
    let event = ChangeEvent {
        timestamp: NOON,
        session_id: "abcdefghij".to_string(),
        message_id: "m".to_string(),
        version: 3,
        user_prompt: Some("é".repeat(120)),
        assistant_response: None,
        thinking: Some("first\nsecond".to_string()),
        tools_used: vec!["Edit".to_string()],
        had_errors: true,
    };
    let file = FileEvolution {
        file_path: "a".to_string(),
        total_changes: 1,
        sessions_involved: 1,
        changes: vec![event],
    };
    let lines = print_evolution("a", &vec![file.clone()]);
    assert_eq!(lines[1], "  1. [abcdefgh] 2024-12-24 12:00 v3 [ERROR]");
    assert_eq!(lines[2], format!("     User: {}", "é".repeat(100)));
    assert_eq!(lines[3], "     Thinking: first");
    assert_eq!(lines[4], "     Tools: Edit");
    assert_eq!(
        print_evolution("a", &vec![]),
        vec!["No modifications found for files matching 'a'"]
    );
    assert!(json::render(&evolution_json(&vec![file])).contains("\"assistant_response\":null"));
}

#[test]
fn wider_spans_leave_no_session_out() {
    assert!(lies_in_range(None, None, None));
    assert!(!lies_in_range(None, Some(0), None));
    assert!(lies_in_range(Some((5, 9)), Some(9), Some(5)));
    assert!(!lies_in_range(Some((5, 9)), Some(10), None));
    assert!(!lies_in_range(Some((5, 9)), None, Some(4)));
}

#[test]
fn provider_changes_name_their_evidence() {
    let event = ProviderChangeEvent {
        timestamp: None,
        provider: "fake".to_string(),
        qualified_id: "fake:s".to_string(),
        session_id: "s".to_string(),
        project_path: "/p".to_string(),
        entry_id: "e".to_string(),
        operation_id: None,
        version: None,
        kind: "move".to_string(),
        move_path: Some("b".to_string()),
        evidence: "patch".to_string(),
        outcome: "rejected".to_string(),
        coverage: "full".to_string(),
        record_ordinal: 3,
        outcome_record_ordinal: None,
        user_prompt: Some("go\non".to_string()),
        assistant_response: None,
        thinking: None,
        tools_used: vec![],
        had_errors: false,
    };
    let evolution = ProviderEvolution {
        project: "/p".to_string(),
        file_pattern: "a".to_string(),
        files: vec![ProviderFileEvolution {
            file_path: "a".to_string(),
            total_changes: 1,
            total_attempts: 1,
            sessions_involved: 1,
            changes: vec![event.clone()],
            attempts: vec![event],
        }],
        skipped: vec![],
        warnings: vec!["w".to_string()],
    };
    assert_eq!(
        print_provider_evolution(&evolution),
        vec![
            "File: a (1 applied changes, 1 non-applied attempts across 1 sessions)\n",
            "  1. [s] time unavailable move -> b [patch; full]",
            "     User: go",
            "  attempt [s] move [rejected; patch]",
            "Evidence is bounded to structured patches/snapshots; shell writes are not inferred.",
            "warning: w",
        ]
    );
}

fn item() -> PriorityItem {
    PriorityItem {
        rank: 1,
        category: "goal".to_string(),
        summary: "finish".to_string(),
        score: "2.5".to_string(),
        score_shown: "2.5".to_string(),
        sources: vec!["x".to_string()],
    }
}

#[test]
fn priorities_carry_their_kind() {
    let report = PriorityReport {
        project: "p".to_string(),
        sessions_analyzed: 1,
        total_errors: 2,
        open_goals: 3,
        proposed_decisions: 4,
        priorities: vec![item()],
    };
    assert_eq!(
        print_report(&report),
        vec![
            "Priorities for 'p': 1 sessions, 2 tool failures, 3 open goals, 4 proposed decisions\n",
            "  1. [GOAL] finish (score: 2.5)",
            "     evidence: x",
            "",
        ]
    );
    assert!(json::render(&report_json(&report)).contains("\"score\":2.5,\"sources\":[\"x\"]"));
}

#[test]
fn priorities_of_providers_tell_what_is_missing() {
    let mut named = item();
    named.category = "straße".to_string();
    let report = ProviderPriorityReport {
        project: "p".to_string(),
        providers: vec!["a".to_string()],
        sessions_analyzed: 1,
        session_descriptors_analyzed: 2,
        date_fallbacks: 0,
        total_errors: 0,
        confirmed_failures: 0,
        inferred_failures: 0,
        open_goals: None,
        proposed_decisions: Some(1),
        registry_path: None,
        priorities: vec![named],
        skipped: vec![],
        warnings: vec!["w".to_string()],
    };
    assert_eq!(print_warnings(&report), vec!["warning: w"]);
    let lines = print_provider_report(&report, &host());
    assert!(lines[0].ends_with("unavailable open goals, 1 proposed decisions\n"));
    assert_eq!(lines[1], format!("  1. [{}] finish (score: 2.5)", "straße".to_uppercase()));
    assert_eq!(
        lines[3],
        "\nRegistry priorities unavailable: Helper project registry not resolved."
    );
    let value = json::render(&provider_report_json(&report, &host()));
    assert!(value.contains("\"goals_available\":false,\"decisions_available\":true"));
    assert!(value.ends_with("remain Helper-project scoped.\"}"));
}

#[test]
fn skipped_providers_are_not_counted() {
    let names = |list: &[&str]| list.iter().map(|s| s.to_string()).collect::<Vec<_>>();
    assert_eq!(
        remaining_providers(&names(&["b", "a", "b", "c"]), &names(&["c"])),
        names(&["a", "b"])
    );
}

#[test]
fn every_form_of_storage_is_counted() {
    let artifact = |form: ArtifactForm, archived: bool| Artifact { form, archived };
    let artifacts = vec![
        artifact(ArtifactForm::PlainFile, true),
        artifact(ArtifactForm::Database, false),
        artifact(ArtifactForm::PlainFile, false),
    ];
    let counts = count_forms(&artifacts);
    assert_eq!(counts, vec![("database".to_string(), 1), ("plain".to_string(), 2)]);
    assert_eq!(counts.iter().map(|c| c.1).sum::<usize>(), artifacts.len());
    let entries = vec![
        ProviderEntry {
            id: "a".to_string(),
            root: Some("/r".to_string()),
            scan: ProviderScan::Listed { sessions: 2, artifacts },
        },
        ProviderEntry {
            id: "b".to_string(),
            root: None,
            scan: ProviderScan::NotConstructed { reason: "gone".to_string() },
        },
        ProviderEntry {
            id: "c".to_string(),
            root: None,
            scan: ProviderScan::Failed { error: "bad".to_string() },
        },
    ];
    assert_eq!(
        print_providers(&entries),
        vec![
            "a",
            "  root: /r",
            "  status: available",
            "  sessions: 2",
            "  artifact formats: database ×1, plain ×2",
            "  archived artifacts: 1",
            "b",
            "  status: unavailable (not constructed) — gone",
            "c",
            "  status: unavailable (constructed, but session scan failed: bad)",
        ]
    );
    let value = json::render(&providers_json(&entries));
    assert!(value.contains("\"artifact_formats\":{\"database\":1,\"plain\":2}"));
    assert!(value.contains("\"constructed\":false,\"scan_ok\":false,\"available\":false"));
}

#[test]
fn lessons_of_a_project_are_counted() {
    let lessons = ProjectLessons {
        project: "p".to_string(),
        sessions_analyzed: 4,
        total_errors: 5,
        total_corrections: 6,
        top_failure_modes: vec![("Bash".to_string(), 3)],
        recurring_errors: vec![RecurringError {
            tool_name: "Bash".to_string(),
            error_pattern: "not found".to_string(),
            count: 3,
            sessions: ["aaaaaaaaa", "b", "c", "éééééééééé"].iter().map(|s| s.to_string()).collect(),
            last_seen: None,
            example_resolution: Some("install".to_string()),
        }],
        recurring_corrections: vec![RecurringCorrection {
            pattern: "no".to_string(),
            count: 2,
            sessions: vec![],
            examples: vec![],
        }],
    };
    let lines = print_lessons(&lessons);
    assert_eq!(lines[0], "Project lessons across 4 sessions (5 errors, 6 corrections)\n");
    assert_eq!(lines[3], "  1. [Bash] not found (3x, sessions: aaaaaaaa, b, c)");
    assert_eq!(lines[4], "     Fix: install");
    assert_eq!(lines[8], "  1. no (2x)");
    assert_eq!(lines.last().unwrap(), "  Bash: 3 error(s)");
    assert!(json::render(&lessons_json(&lessons)).contains("\"top_failure_modes\":[[\"Bash\",3]]"));
    assert_eq!(category_of(&None), "all");
}
