use snatch::commands::cleanup::{
    self, doomed_json, failed_line, is_confirmed, print_doomed, print_nothing, question,
    removed_line, select_sessions, CleanupSession,
};
use snatch::commands::decisions::{
    self, added_line, change_json, decision_not_found, find_decision, find_signals, list_decisions,
    list_json, merge_references, print_export, print_list, print_scores, removed_line as gone_line,
    score_hundredths, score_json, score_steps, split_tags, superseded_line, tally,
    title_keywords, title_matches_text, topic_of, updated_line, CrossEvidence, Decision,
    DecisionChange, DecisionStatus, DecisionsArgs, DecisionsPlan, Scored, Signals, StatusWord,
};
use snatch::commands::health::{
    accept_errors, collect_warnings, print_provider_report, print_report, provider_report_json,
    report_json, AnalysisError, DecisionChurn, FileChurn, HealthCoverage, HealthReport,
    SessionStat,
};
use snatch::commands::lessons::{
    self, add_counts, add_lessons, continue_or_record_failure, finish_providers, order_tools,
    print_several, print_single, several_json, single_json, Correction, ErrorFix, LessonStyle,
    LessonsArgs, LessonsCoverage, LessonsRoute, LessonsSoFar, LessonsSource, SessionLessons,
};
use snatch::commands::OutputFormat;
use snatch::error::SnatchError;
use snatch::host::Host;
use snatch::json;
use snatch::model::{AssistantEntry, ContentBlock, LogEntry, ToolUse, UserContent, UserEntry};

fn text(s: &str) -> String {
    s.to_string()
}

fn texts(list: &[&str]) -> Vec<String> {
    list.iter().map(|s| s.to_string()).collect()
}

fn invalid<T: std::fmt::Debug>(r: Result<T, SnatchError>) -> (String, String) {
    match r {
        Err(SnatchError::InvalidArgument { name, reason }) => (name, reason),
        other => panic!("{other:?}"),
    }
}

fn decision(id: u64, title: &str, status: DecisionStatus) -> Decision {
    Decision {
        id,
        title: text(title),
        description: None,
        status,
        status_shown: text("proposed"),
        confidence: text("0.5"),
        created_at: 0,
        updated_at: 0,
        percent: text("50"),
        below_one: true,
        session_id: Some(text("abcdefghij")),
        superseded_by: None,
        tags: texts(&["db"]),
        references: vec![],
    }
}

fn decision_args(operation: &str) -> DecisionsArgs {
    DecisionsArgs {
        operation: Some(text(operation)),
        id: None,
        title: None,
        description: None,
        status: None,
        has_confidence: false,
        tag: vec![],
        related_sessions: vec![],
        superseded_by: None,
    }
}

#[test]
fn decision_requests_are_checked() {
    let mut a = decision_args("add");
    assert_eq!(invalid(decisions::run(&a)).0, "title");
    a.title = Some(text("Use sqlite"));
    a.tag = texts(&["a, b", "c"]);
    assert_eq!(
        decisions::run(&a),
        Ok(DecisionsPlan::Add {
            title: text("Use sqlite"),
            status: None,
            tags: texts(&["a", "b", "c"]),
        })
    );
    a.status = Some(StatusWord { word: text("odd"), status: None });
    assert_eq!(
        invalid(decisions::run(&a)).1,
        "Invalid status 'odd'. Use: proposed, confirmed, superseded, abandoned"
    );
    assert_eq!(invalid(decisions::run(&decision_args("update"))).0, "id");
    let mut s = decision_args("supersede");
    s.id = Some(1);
    assert_eq!(invalid(decisions::run(&s)).0, "superseded-by");
    s.superseded_by = Some(2);
    assert_eq!(decisions::run(&s), Ok(DecisionsPlan::Supersede { id: 1, by: 2 }));
    assert!(invalid(decisions::run(&decision_args("import"))).1.starts_with("Import is not yet"));
    assert!(invalid(decisions::run(&decision_args("x"))).1.starts_with("Unknown operation 'x'"));
    assert_eq!(decisions::run(&decision_args("score")), Ok(DecisionsPlan::Score));
    assert!(matches!(
        decision_not_found(4, None),
        SnatchError::InvalidArgument { reason, .. } if reason.contains('4')
    ));
}

#[test]
fn tags_are_split_at_commas() {
    assert_eq!(split_tags(&texts(&["a,b", " c "])), texts(&["a", "b", "c"]));
}

#[test]
fn references_stay_and_are_not_repeated() {
    let once = merge_references(texts(&["a"]), &texts(&["b", "a"]));
    assert_eq!(once, texts(&["a", "b"]));
    assert_eq!(merge_references(once.clone(), &texts(&["b", "a"])), once);
}

#[test]
fn decisions_are_listed_by_status_search_and_tag() {
    let all = vec![
        decision(1, "Use SQLite", DecisionStatus::Confirmed),
        decision(2, "Use files", DecisionStatus::Proposed),
    ];
    let found = list_decisions(
        all.clone(),
        Some(DecisionStatus::Confirmed),
        &Some(text("sqlITE")),
        &texts(&["DB"]),
    );
    assert_eq!(found.len(), 1);
    assert_eq!(
        print_list(&found, "/p", 2, 1),
        vec![
            "Decisions for /p:",
            "",
            "  [!] #1: Use SQLite (50%) [db] (abcdefgh)",
            "",
            "2 decision(s), 1 active",
        ]
    );
    assert!(list_decisions(all, None, &None, &texts(&["other"])).is_empty());
    assert_eq!(print_list(&vec![], "/p", 0, 0), vec!["No decisions for /p."]);
}

#[test]
fn titles_match_by_all_their_words() {
    let words = title_keywords("use sqlite for this storage");
    assert_eq!(words, texts(&["sqlite", "storage"]));
    assert!(title_matches_text(&words, "the storage is sqlite"));
    assert!(!title_matches_text(&words, "sqlite"));
    assert!(!title_matches_text(&texts(&["sqlite"]), "sqlite"));
}

fn said(by_user: bool, words: &str, tool: bool) -> LogEntry {
    if by_user {
        LogEntry::User(UserEntry {
            is_sidechain: false,
            message: UserContent::Simple(text(words)),
        })
    } else {
        let mut content = vec![ContentBlock::Text(text(words))];
        if tool {
            content.push(ContentBlock::ToolUse(ToolUse {
                id: text("t"),
                name: text("Bash"),
                input: json::Json::Null,
            }));
        }
        LogEntry::Assistant(AssistantEntry { is_sidechain: false, content })
    }
}

#[test]
fn signals_are_found_near_the_topic() {
    let topic = topic_of("Use SQLite storage");
    let entries = vec![
        said(false, "I suggest: use sqlite storage", false),
        said(true, "yes", false),
        said(false, "done", true),
    ];
    assert_eq!(
        find_signals(&entries, &topic),
        Signals { confirmation: true, implementation: true, options: false, correction: false }
    );
    let corrected = vec![said(true, "no, do not use sqlite storage", false)];
    assert!(find_signals(&corrected, &topic).correction);
}

#[test]
fn scores_are_exact() {
    let all = Signals { confirmation: true, implementation: true, options: true, correction: false };
    let none = CrossEvidence { confirmations: 0, implementations: 0 };
    assert_eq!(score_hundredths(all, none, DecisionStatus::Proposed), 95);
    assert_eq!(score_hundredths(all, none, DecisionStatus::Confirmed), 100);
    let cross = CrossEvidence { confirmations: 2, implementations: 1 };
    let bad =
        Signals { confirmation: false, implementation: false, options: false, correction: true };
    assert_eq!(score_hundredths(bad, none, DecisionStatus::Superseded), 15);
    assert_eq!(score_hundredths(bad, cross, DecisionStatus::Proposed), 50);
    let steps = score_steps(bad, cross, DecisionStatus::Proposed);
    assert_eq!(steps.iter().sum::<i32>() + 50, 50);
}

#[test]
fn scoring_is_told_with_what_was_skipped() {
    let t = tally(&vec![Scored::Yes, Scored::NoSession, Scored::NotFound, Scored::NoSession]);
    let list = vec![decision(3, "T", DecisionStatus::Abandoned)];
    assert_eq!(
        print_scores(&list, &t),
        vec![
            "Auto-scored 1 decision(s) (skipped: 2 no session_id, 1 session not found):",
            "",
            "  [-] #3: T → 50%",
        ]
    );
    let value = json::render(&score_json("/p", &t, &list));
    assert!(value.starts_with(
        "{\"operation\":\"score\",\"project_path\":\"/p\",\"scored\":1,\"skipped_no_session_id\":2,\
         \"skipped_session_not_found\":1,\"decisions\":[{\"id\":3"
    ));
}

#[test]
fn decisions_are_written_out_by_status() {
    let mut first = decision(1, "A", DecisionStatus::Proposed);
    first.description = Some(text("Because."));
    let second = decision(2, "B", DecisionStatus::Confirmed);
    assert_eq!(
        print_export(&vec![first, second], "/p"),
        vec![
            "# Decisions — /p",
            "",
            "## Confirmed",
            "",
            "### #2: B",
            "",
            "_Confidence: 50% | Tags: db | Session: abcdefgh_",
            "",
            "## Proposed",
            "",
            "### #1: A",
            "",
            "Because.",
            "",
            "_Confidence: 50% | Tags: db | Session: abcdefgh_",
            "",
        ]
    );
}

#[test]
fn changes_to_decisions_are_told() {
    let list = vec![decision(1, "A", DecisionStatus::Proposed)];
    assert_eq!(find_decision(&list, 1).unwrap().title, "A");
    assert_eq!(added_line(1, "A"), "Added decision #1: A");
    assert_eq!(updated_line(&list[0]), "Updated decision #1: [proposed] A");
    assert_eq!(gone_line(1), "Removed decision #1");
    assert_eq!(superseded_line(&list, 1, 9), "Decision #1 'A' superseded by #9 '?'");
    assert_eq!(
        json::render(&change_json("/p", DecisionChange::Supersede(9), 1, &None)),
        "{\"operation\":\"supersede\",\"project_path\":\"/p\",\
         \"message\":\"Decision #1 superseded by #9\"}"
    );
    assert_eq!(
        json::render(&list_json("/p", &list)),
        "{\"project_path\":\"/p\",\"decisions\":[{\"id\":1,\"title\":\"A\",\"status\":\"proposed\",\
         \"confidence\":0.5,\"created_at\":\"1970-01-01T00:00:00+00:00\",\
         \"updated_at\":\"1970-01-01T00:00:00+00:00\",\"session_id\":\"abcdefghij\",\
         \"tags\":[\"db\"]}]}"
    );
}

fn pair(time: &str) -> ErrorFix {
    ErrorFix {
        session_id: Some(text("0123456789")),
        timestamp: Some(text(time)),
        tool_name: text("Bash"),
        input_summary: vec![(text("command"), text("ls"))],
        error_preview: text("no such file"),
        resolution_summary: Some(text("made it")),
        resolution_tools: texts(&["Write"]),
    }
}

fn session_lessons() -> SessionLessons {
    SessionLessons {
        error_fix_pairs: vec![pair("2")],
        user_corrections: vec![Correction {
            session_id: None,
            timestamp: None,
            user_text: text("no"),
            prior_assistant_summary: Some(text("did")),
        }],
        total_errors: 3,
        total_corrections: 1,
        most_error_prone_tools: vec![(text("Bash"), 2)],
    }
}

#[test]
fn lessons_of_one_session_are_told() {
    let lines = print_single("id", &session_lessons());
    assert_eq!(lines[0], "Lessons for session id (3 errors, 1 corrections)");
    assert!(lines.contains(&text("  1. [Bash] no such file")));
    assert!(lines.contains(&text("     Fix: made it")));
    assert!(lines.contains(&text("     After: did")));
    assert_eq!(lines.last().unwrap(), "  Bash: 2 error(s)");
    let source =
        LessonsSource { display_id: text("id"), provider: Some(text("p")), qualified_id: None };
    assert_eq!(
        json::render(&single_json(&source, &session_lessons())),
        "{\"session_id\":\"id\",\"provider\":\"p\",\"summary\":{\"total_errors\":3,\
         \"total_corrections\":1,\"most_error_prone_tools\":[[\"Bash\",2]]},\
         \"error_fix_pairs\":[{\"timestamp\":\"2\",\"tool_name\":\"Bash\",\
         \"input_summary\":{\"command\":\"ls\"},\"error_preview\":\"no such file\",\
         \"resolution_summary\":\"made it\",\"resolution_tools\":[\"Write\"]}],\
         \"user_corrections\":[{\"user_text\":\"no\",\"prior_assistant_summary\":\"did\"}]}"
    );
}

#[test]
fn lessons_of_several_sessions_add_up() {
    let empty = LessonsSoFar {
        error_fix_pairs: vec![],
        user_corrections: vec![],
        tools: vec![],
        sessions_scanned: 0,
        sessions_with_lessons: 0,
        total_errors: 0,
        total_corrections: 0,
    };
    assert_eq!(
        print_several(&empty, LessonStyle::Sessions),
        vec!["No lessons found across 0 sessions."]
    );
    let all = add_lessons(empty, session_lessons(), "session-one");
    let all = add_lessons(all, session_lessons(), "session-two");
    assert_eq!(all.tools, vec![(text("Bash"), 4)]);
    assert_eq!((all.sessions_scanned, all.sessions_with_lessons), (2, 2));
    let value = json::render(&several_json(&all, &None));
    assert!(value.starts_with(
        "{\"sessions_scanned\":2,\"sessions_with_lessons\":2,\"summary\":{\"total_errors\":2,"
    ));
    assert!(value.contains("\"error_fix_pairs\":[{\"session_id\":\"session-one\""));
    let coverage = LessonsCoverage {
        providers: texts(&["p"]),
        project_keys: vec![],
        skipped: vec![],
        warnings: texts(&["w"]),
    };
    let value = json::render(&several_json(&all, &Some(coverage)));
    assert!(value.starts_with("{\"providers\":[\"p\"],\"sessions_scanned\":2"));
    assert!(value.contains("\"total_errors\":6"));
    assert!(value.ends_with("\"warnings\":[\"w\"],\"activity_basis\":\"new-activity-only\"}"));
    assert_eq!(finish_providers(all, 1).error_fix_pairs.len(), 1);
}

#[test]
fn failures_of_tools_add_up() {
    let sum = add_counts(vec![(text("a"), 1)], &vec![(text("b"), 2), (text("a"), 3)]);
    assert_eq!(sum.iter().map(|t| t.1).sum::<usize>(), 6);
    assert_eq!(order_tools(sum)[0], (text("a"), 4));
}

#[test]
fn lessons_need_somewhere_to_look() {
    let mut a = LessonsArgs { session_id: None, project: None, all: false, provider: vec![] };
    assert!(lessons::run(&a, false).is_err());
    a.all = true;
    assert_eq!(lessons::run(&a, false), Ok(LessonsRoute::Sessions));
    a.provider = texts(&["p"]);
    assert_eq!(lessons::run(&a, false), Ok(LessonsRoute::Providers));
    a.session_id = Some(text("s"));
    a.all = false;
    assert_eq!(
        lessons::run(&a, false),
        Ok(LessonsRoute::Single { session_id: text("s"), from_provider: true })
    );
    let mut warnings = vec![];
    assert!(continue_or_record_failure(true, "k", &mut warnings, "why").is_err());
    assert!(continue_or_record_failure(false, "k", &mut warnings, "why").is_ok());
    assert_eq!(warnings.len(), 1);
}

fn health() -> HealthReport {
    HealthReport {
        sessions_analyzed: 1,
        descriptors: 2,
        total_errors: 3,
        confirmed_failures: 4,
        inferred_failures: 5,
        total_tool_calls: 6,
        hotspots: vec![FileChurn { path: text("a.rs"), count: 7, session_count: 1 }],
        rework: vec![FileChurn { path: text("b.rs"), count: 8, session_count: 2 }],
        churn: Some(DecisionChurn {
            total: 5,
            confirmed: 1,
            superseded: 1,
            abandoned: 1,
            proposed: 2,
        }),
        session_stats: vec![SessionStat {
            session_id: text("0123456789"),
            timestamp: None,
            error_count: 1,
            tool_count: 2,
        }],
    }
}

#[test]
fn health_is_told_for_a_reader() {
    let lines = print_report(&health());
    assert!(lines[0].starts_with("Project health: 1 sessions, 3 tool failures, 6 tool calls"));
    assert!(lines.contains(&text("  a.rs — 7 edits across 1 sessions")));
    assert!(lines.contains(&text("  [01234567] ? — 1 tool failures, 2 tools")));
    let host = Host {
        name: text("Helper Code"),
        brand: text("Helper"),
        provider: text("helper-code"),
        instructions: text("HELPER.md"),
        title: text("HELPER-SNATCH"),
        models: vec![],
    };
    assert!(print_provider_report(&health(), &host)[0].starts_with(
        "Project health: 1 logical sessions (2 descriptors), 4 confirmed tool failures"
    ));
}

#[test]
fn health_is_told_as_json() {
    assert_eq!(
        json::render(&report_json("p", &health())),
        "{\"project\":\"p\",\"sessions_analyzed\":1,\"total_tool_failures\":3,\
         \"total_tool_calls\":6,\"hotspot_files\":[{\"path\":\"a.rs\",\"edit_count\":7,\
         \"session_count\":1}],\"rework_files\":[{\"path\":\"b.rs\",\"version_count\":8,\
         \"session_count\":2}],\"decision_churn\":{\"total\":5,\"confirmed\":1,\"superseded\":1,\
         \"abandoned\":1,\"proposed\":2},\"session_stats\":[{\"session_id\":\"0123456789\",\
         \"timestamp\":null,\"tool_failure_count\":1,\"tool_count\":2}]}"
    );
    let coverage = HealthCoverage {
        providers: texts(&["p"]),
        date_fallbacks: 9,
        decisions_available: false,
        registry_path: None,
        skipped: vec![],
        warnings: vec![],
    };
    let mut report = health();
    report.churn = None;
    let value = json::render(&provider_report_json("p", &report, &coverage));
    assert!(value.contains("\"date_filter_fallback_descriptors\":9"));
    assert!(value.contains("\"decision_churn\":null,\"registry_coverage\":{\"scope\":"));
    assert!(value.contains("\"available\":false,\"project_path\":null}"));
}

#[test]
fn analysis_errors_stop_only_what_was_asked_for() {
    let errors = vec![AnalysisError { key: text("k"), reason: text("bad") }];
    assert_eq!(
        accept_errors(true, &errors),
        Err(SnatchError::InvalidArgument {
            name: text("k"),
            reason: text("selected session could not be analyzed: bad"),
        })
    );
    assert!(accept_errors(false, &errors).is_ok());
    assert_eq!(
        collect_warnings(texts(&["z", "z"]), &errors, 2),
        vec![
            "2 session descriptors used conservative source-time evidence for date filtering",
            "k: session could not be analyzed",
            "z",
        ]
    );
}

fn session(id: &str, size: u64, modified: i128, active: bool) -> CleanupSession {
    CleanupSession {
        session_id: text(id),
        project_path: text("/p"),
        file_size: size,
        size_shown: text("1 KB"),
        modified,
        is_subagent: true,
        is_active: active,
        path: text("/f"),
    }
}

#[test]
fn sessions_in_use_are_never_removed() {
    let all = vec![
        session("empty-session", 0, 5, false),
        session("old", 1, 1, false),
        session("busy", 0, 1, true),
        session("new", 1, 5, false),
    ];
    let (list, spared) = select_sessions(&all, true, Some(5));
    assert_eq!(spared, 1);
    let chosen: Vec<_> =
        list.iter().map(|d| (d.session.session_id.as_str(), d.reason.as_str())).collect();
    assert_eq!(chosen, [("empty-session", "empty (0 bytes)"), ("old", "older than cutoff")]);
    assert_eq!(
        print_doomed(&list, spared, "2 KB", true, false, OutputFormat::Text),
        vec![
            "Would delete 2 sessions (2 KB total):",
            "",
            "  empty-se [subagent] (1 KB) - empty (0 bytes)",
            "  old [subagent] (1 KB) - older than cutoff",
            "",
            "Note: 1 active session skipped for safety.",
        ]
    );
    assert_eq!(
        json::render(&doomed_json(&list[1..].to_vec())),
        "[{\"session_id\":\"old\",\"project\":\"/p\",\"file_size\":1,\
         \"reason\":\"older than cutoff\",\"path\":\"/f\"}]"
    );
}

#[test]
fn cleaning_up_is_asked_about() {
    assert!(cleanup::run(false, false).is_err());
    assert!(cleanup::run(true, false).is_ok());
    assert_eq!(question(1), "Delete 1 session? This cannot be undone. [y/N] ");
    assert!(is_confirmed(" YES\n") && is_confirmed("y") && !is_confirmed("yep"));
    assert_eq!(print_nothing(0), vec!["No sessions match the cleanup criteria."]);
    assert_eq!(print_nothing(2)[1], "(2 active sessions skipped for safety)");
    assert!(removed_line(1, "1 KB").contains("1 session"));
    assert!(failed_line(2).contains('2'));
}
