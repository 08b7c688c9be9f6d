use snatch::commands::chain::chain_projects;
use snatch::commands::decisions::{score_decision, Decision, DecisionStatus, OtherSession};
use snatch::commands::diff::{
    build_type_filter, check_file_size, effective_limit, exit_status, line_can_be_cut,
    line_diff_json, line_diff_text, missing_registry, resolve_classic_path, semantic_diff_json,
    semantic_diff_text, truncate_line, BoundedBytes, ConversationDiff, DiffSource, LineDiff,
    TypeArgs,
};
use snatch::commands::file_evolution::{provider_evolution_json, ProviderEvolution};
use snatch::commands::file_history::projects_to_search;
use snatch::commands::goals::{goal_not_found, goals_json};
use snatch::commands::helpers::{
    collect_sessions, extract_thinking_text, looks_like_decision, project_if_found,
    require_session, resolve_single_project, session_source, SessionCollectParams, SessionSource,
};
use snatch::commands::index::{print_rebuild, BuildReport, ShownCount};
use snatch::commands::info::{
    count_project, files_section, preview_section, print_session_table, show_directory_info,
    show_entry, show_files_touched, show_message_preview, show_project_info, show_raw,
    show_session_info, show_tree_structure, BranchPoint, DirectorySummary, PreviewMessage,
    ProjectSessionLine, ProjectSummary, RawEntry, SessionSummary, TreeStats,
};
use snatch::commands::list::{context_can_be_cut, ContextMessage};
use snatch::commands::notes::{note_not_found, notes_json};
use snatch::commands::pick::{self, shows_provider_projects, ProviderPickCandidate};
use snatch::commands::prompts::{
    collection_meta, digest_prompts, gather_provider_session, output_mode, run as prompts_run,
    route_session, session_needs_registry, session_uses_provider, show_digest, standard_total_count,
    unsupported_flags, written_notice, GatherOptions, Prompt, PromptsArgs, PromptsDigest,
    PromptsFigures, PromptsLayout, PromptsRoute, PromptsShown, ProviderGathered, ProviderSession,
    StatsShares,
};
use snatch::commands::{get_claude_dir, DirectorySource, OutputFormat};
use snatch::error::SnatchError;
use snatch::host::Host;
use snatch::json::{self, Json};
use snatch::model::{
    AssistantEntry, ContentBlock, LogEntry, Project, Session, ToolUse, UserContent, UserEntry,
};
use snatch::provider::{LogicalSessionKey, SkippedProvider};

fn text(s: &str) -> String {
    s.to_string()
}

fn texts(list: &[&str]) -> Vec<String> {
    list.iter().map(|s| s.to_string()).collect()
}

fn host() -> Host {
    Host {
        name: text("Helper Code"),
        brand: text("Helper"),
        provider: text("helper-code"),
        instructions: text("HELPER.md"),
        title: text("HELPER-SNATCH"),
        models: vec![],
    }
}

fn summary() -> SessionSummary {
    SessionSummary {
        session_id: text("abc"),
        project_path: text("/p"),
        is_subagent: true,
        parent_session_id: Some(text("par")),
        file_size: 7,
        file_size_human: text("7 B"),
        entry_count: 3,
        message_count: 2,
        compaction_count: 1,
        started: Some(0),
        ended: Some(60_000_000_000),
        duration: Some(text("1m")),
        state: text("Active"),
        is_active: true,
        version: None,
        path: text("/f"),
        tool_result_count: 2,
        tool_result_size: text("1 KB"),
        meta: None,
    }
}

#[test]
fn a_session_is_shown_with_its_times() {
    let lines = show_session_info(&summary(), true);
    for line in [
        "Type:         Subagent",
        "Parent:       par",
        "Compactions:  1",
        "File Path:    /f",
        "Tool Results: 2 files (1 KB)",
        "Started:      1970-01-01 00:00:00 UTC",
        "Last Activity:  1970-01-01 00:01:00 UTC",
    ] {
        assert!(lines.contains(&text(line)), "{line}");
    }
    assert!(!lines.contains(&text("Duration:     1m")));
    let ended = SessionSummary { is_active: false, ..summary() };
    assert!(show_session_info(&ended, false).contains(&text("Duration:     1m")));
    assert_eq!(print_session_table(&summary())[3], "subagent\ttrue");
}

#[test]
fn a_tree_is_shown_with_its_branches() {
    let stats = TreeStats {
        total_nodes: 9,
        max_depth: 4,
        main_thread_length: 5,
        branch_count: 1,
        tool_uses: 2,
        tool_results: 2,
        tools_balanced: true,
    };
    let points = vec![BranchPoint { id: text("0123456789"), children: 2, depth: 3 }];
    let lines = show_tree_structure(&stats, &points);
    assert_eq!(lines[7], "  Balanced:     yes (tool calls match results)");
    assert_eq!(lines.last().unwrap(), "  01234567 (2 children at depth 3)");
    let entry = |uuid: Option<&str>| RawEntry {
        message_type: text("user"),
        uuid: uuid.map(text),
        json: text("{}"),
    };
    let entries = vec![entry(None), entry(Some("abc"))];
    assert_eq!(show_entry(&entries, "ab"), vec!["Entry: abc", "Type: user", "", "{}"]);
    assert_eq!(show_entry(&entries, "x"), vec!["Entry not found: x"]);
    assert_eq!(show_raw(&entries)[3..], ["[0] user: no-uuid", "[1] user: abc"]);
}

#[test]
fn messages_are_previewed() {
    let messages = vec![
        PreviewMessage::User { has_tool_results: true, text: Some(text("no")) },
        PreviewMessage::User { has_tool_results: false, text: Some(text("hello")) },
        PreviewMessage::Other,
        PreviewMessage::Assistant(texts(&["a", "b"])),
    ];
    assert_eq!(
        show_message_preview(&messages, 1),
        vec!["", "[1] User:", "  hello"]
    );
    assert_eq!(show_message_preview(&messages, 0), vec!["No messages found."]);
    assert_eq!(preview_section(&messages, 1)[1], "Message Preview (first 1 messages):");
}

fn tool(name: &str, file: &str) -> LogEntry {
    LogEntry::Assistant(AssistantEntry {
        is_sidechain: false,
        content: vec![
            ContentBlock::Thinking(text("hm")),
            ContentBlock::ToolUse(ToolUse {
                id: text("i"),
                name: text(name),
                input: Json::Object(vec![(text("file_path"), Json::Text(text(file)))]),
            }),
        ],
    })
}

#[test]
fn files_are_told_by_what_was_done_to_them() {
    let entries = vec![tool("Read", "b"), tool("Read", "a"), tool("Edit", "c"), tool("Read", "b")];
    assert_eq!(
        show_files_touched(&entries),
        vec!["", "Read (2):", "  a", "  b", "", "Modified (1):", "  c"]
    );
    assert_eq!(show_files_touched(&vec![]), vec!["No file operations detected."]);
    assert_eq!(
        files_section(&vec![]),
        vec!["", "Files Touched:", "--------------", "No file operations detected."]
    );
    assert_eq!(extract_thinking_text(&entries[0]), Some(text("hm")));
}

#[test]
fn projects_and_directories_are_shown() {
    let sessions = vec![
        ProjectSessionLine {
            session_id: text("0123456789"),
            is_subagent: false,
            file_size: 2,
            size_shown: text("2 B"),
        },
        ProjectSessionLine {
            session_id: text("s"),
            is_subagent: true,
            file_size: 3,
            size_shown: text("3 B"),
        },
    ];
    let counts = count_project(&sessions);
    assert_eq!((counts.sessions, counts.main, counts.subagents, counts.total_size), (2, 1, 1, 5));
    let project = ProjectSummary {
        path: text("/p"),
        encoded_name: text("-p"),
        directory: text("/d"),
        sessions,
        size_shown: text("5 B"),
    };
    assert_eq!(
        show_project_info(&project, &counts, false, OutputFormat::Compact),
        vec!["/p:2:5 B"]
    );
    let directory = DirectorySummary {
        root: text("/r"),
        project_count: 1,
        session_count: 2,
        subagent_count: 3,
        total_size: 4,
        size_shown: text("4 B"),
        has_file_history: true,
        backup_file_count: 5,
        projects_dir: text("/r/p"),
        file_history_dir: text("/r/h"),
        settings_path: text("/r/s"),
        claude_md_path: text("/r/m"),
        mcp_config_path: text("/r/c"),
    };
    let lines = show_directory_info(&directory, true, OutputFormat::Text, &host());
    assert_eq!(lines[0], "Helper Code Directory");
    assert!(lines.contains(&text("File History:   Yes (5 backups)")));
    assert!(lines.contains(&text("  HELPER.md:    /r/m")));
    assert_eq!(
        get_claude_dir(Some(&text("/x"))),
        DirectorySource::At(text("/x"))
    );
    assert_eq!(get_claude_dir(None), DirectorySource::Discover);
}

fn source(name: &str) -> DiffSource {
    DiffSource { display: text(name), provider: None, qualified_id: None }
}

#[test]
fn lines_that_differ_are_shown() {
    let diff = LineDiff {
        identical: false,
        matching: 4,
        only_in_first: vec![2],
        only_in_second: vec![],
        different: vec![(7, "a".repeat(90), text("b"))],
    };
    assert!(line_can_be_cut(&diff.different[0].1, 80));
    let lines = line_diff_text(&diff, &source("A"), &source("B"), false, false);
    assert_eq!(lines[5], "  Matching lines:  4");
    assert!(lines.contains(&text("Lines only in A (first file):")));
    assert!(lines.contains(&format!("    A: {}", truncate_line(&"a".repeat(90), 80))));
    let value = json::render(&line_diff_json(&diff, &source("A"), &source("B")));
    assert!(value.contains("\"identical\":false"));
    let same = LineDiff { identical: true, ..diff };
    assert_eq!(
        line_diff_text(&same, &source("A"), &source("B"), false, false),
        vec!["Files are identical."]
    );
}

fn difference(added: usize) -> ConversationDiff {
    ConversationDiff {
        first_message_count: 3,
        second_message_count: 3 + added,
        added_messages: added,
        removed_messages: 0,
        common_messages: 3,
        first_user_count: 1,
        first_assistant_count: 2,
        second_user_count: 2,
        second_assistant_count: 2,
        first_branch_count: 0,
        second_branch_count: 1,
    }
}

#[test]
fn meanings_that_differ_are_shown() {
    let types = texts(&["user"]);
    assert_eq!(
        semantic_diff_text(&difference(0), &source("A"), &source("B"), false, Some(&types)),
        vec!["Conversations are semantically identical (filtered to: user)."]
    );
    let lines = semantic_diff_text(&difference(1), &source("A"), &source("B"), false, None);
    assert!(lines.contains(&text("  Added in B:         1")));
    assert!(lines.contains(&text("  A: 1 user, 2 assistant")));
    assert!(lines.contains(&text("  B branches: 1")));
    let value =
        json::render(&semantic_diff_json(&difference(1), &source("A"), &source("B"), None));
    assert!(value.contains("\"added_messages\":1"), "{value}");
    assert_eq!(exit_status(true, true), 0);
    assert_eq!(exit_status(false, true), 1);
    assert_eq!(exit_status(false, false), 0);
}

#[test]
fn comparisons_are_bounded() {
    let mut bytes = BoundedBytes::new(Some(3));
    assert_eq!(bytes.write(&vec![1, 2]), Ok(2));
    assert!(bytes.write(&vec![3, 4]).is_err());
    assert_eq!(bytes.write(&vec![3]), Ok(1));
    assert_eq!(bytes.into_inner(), [1, 2, 3]);
    assert!(check_file_size("r", 5, Some(4)).is_err());
    assert!(check_file_size("r", 4, Some(4)).is_ok());
    assert_eq!(effective_limit(Some(0)), None);
    assert_eq!(
        resolve_classic_path(None, false, "x"),
        Err(SnatchError::FileNotFound { path: text("x") })
    );
    assert_eq!(resolve_classic_path(None, true, "x"), Ok(text("x")));
    assert!(matches!(missing_registry(), SnatchError::InvalidArgument { .. }));
    assert_eq!(build_type_filter(&TypeArgs { prompts: false, message_type: vec![] }), None);
    assert_eq!(
        build_type_filter(&TypeArgs { prompts: true, message_type: vec![] }),
        Some(texts(&["user"]))
    );
}

fn project(path: &str) -> Project {
    Project { decoded_path: text(path), encoded_name: path.replace('/', "-"), best_path: text(path) }
}

fn session(id: &str, project: &str, modified: i128) -> Session {
    Session {
        session_id: text(id),
        project_path: text(project),
        modified,
        file_size: 1,
        is_subagent: id.starts_with("agent"),
        times: None,
    }
}

#[test]
fn sessions_are_collected_by_what_is_asked() {
    let all = || vec![session("a", "/p", 1), session("agent-b", "/p", 3), session("c", "/p", 2)];
    let params = SessionCollectParams {
        session: None,
        project: Some("p"),
        since: None,
        until: None,
        recent: Some(2),
        no_subagents: true,
    };
    assert!(matches!(session_source(&params), SessionSource::OfProjects(p) if p == "p"));
    let found = collect_sessions(all(), &params, 0).unwrap().unwrap();
    assert_eq!(found.iter().map(|s| s.session_id.as_str()).collect::<Vec<_>>(), ["c"]);
    let latest = SessionCollectParams { recent: Some(1), ..params };
    assert!(collect_sessions(all(), &latest, 0).unwrap().unwrap().is_empty());
    assert_eq!(
        require_session::<u8>(None, "x"),
        Err(SnatchError::SessionNotFound { session_id: text("x") })
    );
    assert_eq!(require_session(Some(1), "x"), Ok(1));
}

#[test]
fn projects_are_resolved_or_left_out() {
    let all = vec![project("/a/one"), project("/a/two")];
    let found = resolve_single_project(all.clone(), "two");
    assert_eq!(project_if_found(found).unwrap().unwrap().decoded_path, "/a/two");
    let none = resolve_single_project(all.clone(), "three");
    assert_eq!(project_if_found(none), Ok(None));
    assert!(resolve_single_project(all.clone(), "").is_err());
    assert_eq!(projects_to_search(all.clone(), &Some(text("one"))).len(), 1);
    assert_eq!(chain_projects(all.clone(), &Some(text("two")))[0].best_path, "/a/two");
    assert_eq!(projects_to_search(all, &None).len(), 2);
    assert!(looks_like_decision("We decided to use sqlite for storage."));
}

#[test]
fn missing_goals_and_notes_are_named() {
    assert_eq!(
        goal_not_found(3),
        SnatchError::InvalidArgument { name: text("id"), reason: text("Goal #3 not found") }
    );
    assert_eq!(
        note_not_found(4),
        SnatchError::InvalidArgument { name: text("id"), reason: text("Note #4 not found") }
    );
    assert_eq!(
        json::render(&goals_json("/p", &vec![])),
        "{\"project_path\":\"/p\",\"goals\":[]}"
    );
    assert_eq!(
        json::render(&notes_json("/p", &vec![])),
        "{\"project_path\":\"/p\",\"notes\":[]}"
    );
}

#[test]
fn a_rebuilt_index_names_the_old_one() {
    let count = |n: usize| ShownCount { count: n, shown: n.to_string() };
    let report = BuildReport {
        entries_replaced: text("5"),
        sessions_replaced: text("2"),
        sessions_unchanged: text("0"),
        sessions_removed: text("0"),
        generation: text("g"),
        skipped: count(0),
        warnings: count(0),
        removal_coverage_complete: true,
    };
    assert_eq!(
        print_rebuild(&report, &Some(text("/old"))),
        vec![
            "Rebuilt index with 5 entries from 2 sessions",
            "Generation: g",
            "Previous index retained at: /old",
        ]
    );
}

#[test]
fn provider_evolution_is_told_as_json() {
    let evolution = ProviderEvolution {
        project: text("/p"),
        file_pattern: text("a"),
        files: vec![],
        skipped: texts(&["x"]),
        warnings: vec![],
    };
    let value = json::render(&provider_evolution_json(&evolution));
    assert!(value.contains("\"files\":[]"));
    assert!(value.contains("\"x: unavailable\""));
}

#[test]
fn sizes_and_projects_are_told_apart_in_the_picker() {
    let candidate = |project: &str| ProviderPickCandidate {
        key: LogicalSessionKey {
            provider: text("p"),
            namespace: String::new(),
            native_id: text("n"),
            qualified: text("p:n"),
        },
        modified_at: None,
        project: text(project),
        spawned: false,
        artifact_bytes: None,
        artifact_count: 1,
    };
    assert!(shows_provider_projects(&vec![candidate("/a"), candidate("/b")]));
    assert!(!shows_provider_projects(&vec![candidate("/a"), candidate("/a")]));
    assert_eq!(pick::format_size(1023, "1.0"), "1023B");
    assert_eq!(pick::format_size(1024, "1.0"), "1.0KB");
    assert_eq!(pick::format_size(1024 * 1024, "1.0"), "1.0MB");
    let long = ContextMessage { has_tool_results: false, text: Some("é".repeat(60)) };
    assert!(context_can_be_cut(&vec![long], 100));
}

fn prompt(said: &str) -> Prompt {
    Prompt {
        text: text(said),
        timestamp: None,
        session_id: None,
        project_path: None,
        provider: None,
        qualified_id: None,
        project_key: None,
        sort_timestamp: 0,
        sort_tiebreak: String::new(),
        is_noise: false,
    }
}

fn prompts_args() -> PromptsArgs {
    PromptsArgs {
        session: None,
        provider: vec![],
        all: true,
        project: None,
        since: None,
        until: None,
        min_length: 0,
        limit: None,
        subagents: false,
        output_file: None,
        separators: false,
        timestamps: false,
        numbered: false,
        grep: None,
        ignore_case: false,
        invert_match: false,
        exclude_system: false,
        frequency: false,
        stats: false,
        unique: false,
        sort_by_length: false,
        min_count: None,
        no_truncate: false,
        contains: None,
    }
}

#[test]
fn prompts_of_providers_are_gathered() {
    let empty = ProviderGathered {
        prompts: vec![],
        roots: vec![],
        unique_texts: vec![],
        sessions_analyzed: 0,
        total_matching: 0,
    };
    let session = ProviderSession {
        qualified_id: text("p:s"),
        provider: text("p"),
        project_key: text("k"),
        project_path: text("/p"),
        logical_root: text("root"),
    };
    let options =
        GatherOptions { limit: Some(1), unique: true, shows_session: true, use_json: true };
    let all = gather_provider_session(
        empty,
        vec![prompt("b"), prompt("a"), prompt("b")],
        &session,
        &options,
    );
    assert_eq!(all.prompts.len(), 1);
    assert_eq!(all.prompts[0].qualified_id.as_deref(), Some("p:s"));
    assert_eq!(all.unique_texts.len(), 2);
    assert_eq!(standard_total_count(&all, true), 2);
    assert_eq!(standard_total_count(&all, false), 3);
    let skipped = vec![SkippedProvider { provider: text("x"), reason: text("why") }];
    let meta = collection_meta(&texts(&["x", "p", "p"]), skipped, vec![], 1, 1);
    assert_eq!(meta.providers, texts(&["p"]));
    assert_eq!(meta.warnings.len(), 1);
}

#[test]
fn prompts_are_told_in_the_way_that_is_asked_for() {
    let all = || vec![prompt("a"), prompt("b"), prompt("a")];
    let figures = PromptsFigures {
        stats: StatsShares {
            single_use: text("1"),
            average: text("1"),
            under_100: text("1"),
            from_100_to_500: text("0"),
            from_500_to_1000: text("0"),
            from_1000_to_5000: text("0"),
            over_5000: text("0"),
        },
        shares: vec![None, None],
        share: text("66.7"),
    };
    let layout =
        PromptsLayout { use_json: false, no_truncate: false, numbered: true, separators: false };
    let list = PromptsArgs { unique: true, limit: Some(1), ..prompts_args() };
    let digest = digest_prompts(all(), &list, None);
    assert!(matches!(&digest, PromptsDigest::List { total: 2, .. }));
    match show_digest(&digest, &figures, layout, None, &None, &None) {
        PromptsShown::Lines(lines) => assert_eq!(lines, ["1. a"]),
        other => panic!("{other:?}"),
    }
    let contains = PromptsArgs { contains: Some(text("a")), ..prompts_args() };
    let digest = digest_prompts(all(), &contains, None);
    match show_digest(
        &digest,
        &figures,
        PromptsLayout { use_json: true, ..layout },
        Some(4),
        &None,
        &None,
    ) {
        PromptsShown::Value(value) => assert_eq!(
            json::render(&value),
            "{\"phrase\":\"a\",\"matching_prompts\":2,\"total_prompts\":3,\"percentage\":66.7,\
             \"session_count\":4}"
        ),
        other => panic!("{other:?}"),
    }
    let stats = PromptsArgs { stats: true, frequency: true, ..prompts_args() };
    assert!(matches!(digest_prompts(all(), &stats, None), PromptsDigest::Stats(_)));
    assert_eq!(
        written_notice(&output_mode(&stats), Some(2), "/f"),
        "Wrote stats from 2 sessions to /f"
    );
}

#[test]
fn prompt_requests_are_routed() {
    assert_eq!(prompts_run(&prompts_args()), Ok(PromptsRoute::Sessions));
    let one = PromptsArgs { session: Some(text("s")), all: false, ..prompts_args() };
    assert_eq!(prompts_run(&one), Ok(PromptsRoute::Single(text("s"))));
    assert!(prompts_run(&PromptsArgs { all: false, ..prompts_args() }).is_err());
    let by = PromptsArgs { provider: texts(&["p"]), ..prompts_args() };
    assert_eq!(prompts_run(&by), Ok(PromptsRoute::Providers));
    assert!(session_needs_registry(&by, "s") && session_uses_provider(&by, "s", false));
    assert!(!session_uses_provider(&prompts_args(), "s", false));
    let given: Vec<String> =
        unsupported_flags(&prompts_args()).into_iter().filter(|f| f.1).map(|f| f.0).collect();
    assert_eq!(given, ["--all"]);
    assert_eq!(route_session(&prompts_args(), "s", true), Ok(false));
    assert_eq!(
        route_session(&by, "s", false),
        Err(SnatchError::UnsupportedFlags {
            route: text("provider-routed single-session prompts"),
            flags: texts(&["--all"]),
        })
    );
    let alone = PromptsArgs { all: false, ..by };
    assert_eq!(route_session(&alone, "s", false), Ok(true));
    let named = PromptsArgs { all: false, ..prompts_args() };
    assert_eq!(route_session(&named, "p:s", true), Ok(true));
    let parted = PromptsArgs { since: Some(text("1d")), separators: true, ..named };
    assert!(matches!(
        route_session(&parted, "p:s", true),
        Err(SnatchError::UnsupportedFlags { flags, .. })
            if flags == ["--since", "--separators"]
    ));
}

#[test]
fn whole_decisions_are_scored() {
    let decision = Decision {
        id: 1,
        title: text("Use SQLite storage"),
        description: None,
        status: DecisionStatus::Confirmed,
        status_shown: text("confirmed"),
        confidence: text("0.5"),
        created_at: 0,
        updated_at: 0,
        percent: text("50"),
        below_one: true,
        session_id: Some(text("own")),
        superseded_by: None,
        tags: vec![],
        references: vec![],
    };
    let say = |by_user: bool, words: &str| {
        if by_user {
            LogEntry::User(UserEntry {
                is_sidechain: false,
                message: UserContent::Simple(text(words)),
            })
        } else {
            LogEntry::Assistant(AssistantEntry {
                is_sidechain: false,
                content: vec![ContentBlock::Text(text(words))],
            })
        }
    };
    let talk = || vec![say(false, "we use sqlite storage"), say(true, "yes")];
    let other = |id: &str| OtherSession { session_id: text(id), entries: talk() };
    assert_eq!(score_decision(&decision, "own", &talk(), &vec![]), 80);
    assert_eq!(score_decision(&decision, "own", &talk(), &vec![other("own")]), 80);
    assert_eq!(score_decision(&decision, "own", &talk(), &vec![other("x"), other("y")]), 90);
}
