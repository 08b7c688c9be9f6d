use std::str::FromStr;

use snatch::commands::chunks::{print_chunks, ChunkedSession};
use snatch::commands::cleanup::{
    considered_sessions, may_remove, must_ask, print_doomed, select_sessions, CleanupSession,
};
use snatch::commands::completions::{complete_sessions, CompletionType};
use snatch::commands::config::parse_bool;
use snatch::commands::decisions::{
    outcomes, score_all, score_decision, tally, Decision, DecisionStatus, OtherSession, Scored,
};
use snatch::commands::diff::{
    compare_conversations, compare_conversations_filtered, require_records, semantic_fingerprint,
    ComparisonEntry, Conversation, EntryKind,
};
use snatch::commands::export::{
    build_options, entries_notice, export_session, is_main_thread_only, Destination, ExportArgs,
    ExportFormatArg, ExportWriter,
};
use snatch::commands::extract::{print_text_output, ExtractArgs, ExtractData};
use snatch::commands::helpers::{
    filter_projects, is_interrogative, keep_modified_within, looks_like_decision, truncate,
};
use snatch::commands::index::resolve_indexed_session;
use snatch::commands::info::{can_preview, PreviewMessage};
use snatch::commands::list::{print_sessions, ListedSession, SessionStyle};
use snatch::commands::prompts::{print_meta_warnings, PromptCollectionMeta};
use snatch::commands::recent::{continuation_root, print_logical, provider_recent_rows, LogicalRow};
use snatch::commands::OutputFormat;
use snatch::error::SnatchError;
use snatch::host::Host;
use snatch::json::Json;
use snatch::model::{
    AssistantEntry, ContentBlock, LogEntry, Project, Session, UserContent, UserEntry,
};
use snatch::provider::{
    LineageEdge, LineageEdgeKind, LogicalSessionKey, ProjectSession, ProviderSelection,
    SkippedProvider, UnifiedProject,
};

fn owned(s: &str) -> String {
    s.to_string()
}

// Texts

#[test]
fn dots_follow_only_what_was_cut() {
    assert_eq!(truncate("café", 4), "café");
    assert_eq!(truncate("café", 3), "caf...");
    assert_eq!(truncate("cafés", 4), "café...");
    assert_eq!(truncate("ééééé", 5), "ééééé");
    assert_eq!(truncate("", 0), "");
    assert_eq!(truncate("a", 0), "...");
}

#[test]
fn question_marks_in_code_ask_nothing() {
    assert!(!is_interrogative("```\nready?\n```"));
    assert!(is_interrogative("```\nlet x = 1;\n```\nready?"));
    assert!(!is_interrogative("look:\n  ```rust\nready?"));
    assert!(is_interrogative("ready?\n```\nx\n```"));
}

#[test]
fn completion_types_are_read_from_words() {
    assert_eq!(CompletionType::from_str("Sessions"), Ok(CompletionType::Sessions));
    assert_eq!(CompletionType::from_str("s"), Ok(CompletionType::Sessions));
    assert_eq!(CompletionType::from_str("projects"), Ok(CompletionType::Projects));
    assert_eq!(CompletionType::from_str("TOOLS"), Ok(CompletionType::Tools));
    assert_eq!(CompletionType::from_str("formats"), Ok(CompletionType::Formats));
    assert_eq!(CompletionType::from_str("models"), Ok(CompletionType::Models));
    assert_eq!(
        CompletionType::from_str("invalid"),
        Err(owned("unknown completion type: invalid"))
    );
}

#[test]
fn decisions_are_announced_in_any_case() {
    assert!(looks_like_decision("The TEAM decided TO wait"));
    assert!(looks_like_decision("they Decided to go"));
    assert!(looks_like_decision("We decided"));
    assert!(!looks_like_decision("they decided"));
    assert!(!looks_like_decision("steam decides to go"));
    assert!(looks_like_decision("steam decided to go"));
    assert!(looks_like_decision("Über allem: THEY DECIDED TO stay – ſo ſei es"));
    assert!(!looks_like_decision("they decıded to go"));
    assert!(!looks_like_decision("they decİded to go"));
}

#[test]
fn shown_truths_are_read_back() {
    assert!(matches!(parse_bool("true"), Ok(true)));
    assert!(matches!(parse_bool("false"), Ok(false)));
    assert!(matches!(parse_bool("YES"), Ok(true)));
    assert!(matches!(parse_bool("Off"), Ok(false)));
    assert!(parse_bool("maybe").is_err());
}

// Comparisons

fn words(s: &str) -> Json {
    Json::Text(owned(s))
}

fn object(fields: Vec<(&str, Json)>) -> Json {
    Json::Object(fields.into_iter().map(|(name, value)| (owned(name), value)).collect())
}

fn said(kind: EntryKind, content: Json) -> ComparisonEntry {
    let name = if kind == EntryKind::User { "user" } else { "assistant" };
    ComparisonEntry {
        kind,
        message_type: owned(name),
        message_id: if kind == EntryKind::User { None } else { Some(owned("m")) },
        value: object(vec![
            ("type", words(name)),
            ("message", object(vec![("role", words(name)), ("content", content)])),
        ]),
        semantics: None,
        human_prompt: kind == EntryKind::User,
    }
}

fn talk(letters: &[u8]) -> Conversation {
    Conversation {
        entries: letters
            .iter()
            .map(|c| said(EntryKind::User, words(&format!("{c}"))))
            .collect(),
        branch_count: letters.len(),
    }
}

fn common(a: &[u8], b: &[u8]) -> usize {
    match (a.split_last(), b.split_last()) {
        (Some((x, front)), Some((y, rest))) if x == y => common(front, rest) + 1,
        (Some((_, front)), Some((_, rest))) => common(front, b).max(common(a, rest)),
        _ => 0,
    }
}

fn lists(letters: u8, longest: usize) -> Vec<Vec<u8>> {
    let mut all: Vec<Vec<u8>> = vec![vec![]];
    let mut last = all.clone();
    for _ in 0..longest {
        last = last
            .iter()
            .flat_map(|front| {
                (0..letters).map(move |c| {
                    let mut next = front.clone();
                    next.push(c);
                    next
                })
            })
            .collect();
        all.extend(last.clone());
    }
    all
}

#[test]
fn comparisons_keep_as_much_as_they_can() {
    for a in &lists(2, 4) {
        for b in &lists(2, 4) {
            let d = compare_conversations(&talk(a), &talk(b));
            assert_eq!(d.common_messages, common(a, b), "{a:?} {b:?}");
            assert_eq!(d.common_messages + d.removed_messages, a.len());
            assert_eq!(d.common_messages + d.added_messages, b.len());
            assert_eq!(d.is_identical(), a == b);
        }
    }
    let a = [0, 1, 2, 3, 1, 0, 2, 2, 1, 3, 0];
    let b = [2, 1, 3, 0, 2, 1, 1, 0, 3, 2, 2];
    assert_eq!(compare_conversations(&talk(&a), &talk(&b)).common_messages, common(&a, &b));
}

#[test]
fn comparisons_turn_with_their_sides() {
    let (a, b) = (talk(&[0, 1, 2, 0]), talk(&[1, 0, 2]));
    let d = compare_conversations(&a, &b);
    let e = compare_conversations(&b, &a);
    assert_eq!(d.common_messages, e.common_messages);
    assert_eq!((d.added_messages, d.removed_messages), (e.removed_messages, e.added_messages));
    assert_eq!(d.first_message_count, e.second_message_count);
    assert_eq!(d.first_user_count, e.second_user_count);
    assert_eq!((d.first_branch_count, d.second_branch_count), (4, 3));
    assert!(compare_conversations(&a, &a).is_identical());
}

#[test]
fn user_comparisons_hold_messages_of_users() {
    let mut first = talk(&[0, 1]);
    first.entries.push(said(EntryKind::Assistant, words("x")));
    let second = talk(&[0]);
    let types = vec![owned("user")];
    let f = compare_conversations_filtered(&first, &second, Some(&types), false);
    let u = compare_conversations(&first, &second);
    assert_eq!((f.first_user_count, f.first_message_count, f.first_assistant_count), (2, 2, 0));
    assert_eq!((f.second_user_count, f.second_message_count), (1, 1));
    assert_eq!((u.first_user_count, u.first_assistant_count, u.first_message_count), (2, 1, 3));
    assert_eq!(f.first_branch_count, u.first_branch_count);
    assert_eq!(f.first_user_count, u.first_user_count);
}

#[test]
fn ids_of_calls_make_no_difference_but_inputs_do() {
    let call = |id: &str, inner: &str| {
        said(
            EntryKind::Assistant,
            Json::Array(vec![object(vec![
                ("type", words("tool_use")),
                ("id", words(id)),
                ("name", words("Read")),
                ("input", object(vec![("id", words(inner))])),
            ])]),
        )
    };
    let print = |id: &str, inner: &str| semantic_fingerprint(&call(id, inner));
    assert_eq!(print("a", "x"), print("b", "x"));
    assert_ne!(print("a", "x"), print("a", "y"));
}

#[test]
fn lines_are_compared_only_where_there_are_records() {
    assert!(require_records(true).is_ok());
    assert_eq!(
        require_records(false),
        Err(SnatchError::Unsupported { capability: owned("raw-jsonl line comparison") })
    );
}

// Conversations

#[test]
fn roots_end_the_way_or_are_least_on_a_circle() {
    let plain = vec![false; 6];
    let chain = vec![None, Some(0), Some(1), Some(2), None, Some(4)];
    assert_eq!(continuation_root(3, &chain, &plain), (0, 3));
    assert_eq!(continuation_root(0, &chain, &plain), (0, 0));
    assert_eq!(continuation_root(5, &chain, &plain), (4, 1));
    let circle = vec![Some(3), Some(2), Some(4), Some(1), Some(1), Some(0)];
    for member in 0..6 {
        assert_eq!(continuation_root(member, &circle, &plain), (1, 0));
    }
    let spawned = vec![true, false, false, false, false, false];
    assert_eq!(continuation_root(3, &chain, &spawned), (3, 0));
    assert_eq!(continuation_root(0, &chain, &spawned), (0, 0));
}

fn key(id: &str) -> LogicalSessionKey {
    LogicalSessionKey {
        provider: owned("p"),
        namespace: String::new(),
        native_id: owned(id),
        qualified: format!("p:{id}"),
    }
}

#[test]
fn rows_hold_every_session_once() {
    let edge = |from: &str, to: &str, kind: LineageEdgeKind| LineageEdge {
        from: key(from),
        to: key(to),
        kind,
    };
    let spawn = LineageEdgeKind::Spawn { tool_use_id: None, agent_type: None, description: None };
    let edges = vec![
        edge("a", "c", LineageEdgeKind::Continuation),
        edge("c", "b", LineageEdgeKind::Continuation),
        edge("b", "d", spawn),
        edge("d", "e", LineageEdgeKind::Continuation),
    ];
    let session = |id: &str| ProjectSession { key: key(id), modified_at: Some(1), artifact_bytes: 2 };
    let project = UnifiedProject {
        identity: owned("i"),
        display_path: None,
        sessions: ["f", "e", "d", "c", "b", "a", "a"].iter().map(|id| session(id)).collect(),
    };
    for no_chain in [false, true] {
        let rows = provider_recent_rows(&vec![project.clone()], &edges, no_chain);
        let mut ids: Vec<String> =
            rows.iter().flat_map(|row| row.continuation_members.clone()).collect();
        ids.sort();
        assert_eq!(ids, ["p:a", "p:b", "p:c", "p:d", "p:e", "p:f"]);
        assert!(rows.iter().any(|row| row.continuation_members == ["p:d"]));
        assert!(rows.iter().any(|row| row.continuation_members == ["p:f"]));
        assert_eq!(rows.iter().map(|row| row.size_bytes).sum::<u64>(), 12);
    }
    let rows = provider_recent_rows(&vec![project], &edges, false);
    assert_eq!(rows[0].continuation_members, ["p:a", "p:c", "p:b"]);
}

#[test]
fn equal_keys_stand_for_one_session() {
    let known = vec![key("abc"), key("abc"), key("xyz")];
    let found = resolve_indexed_session(known, &ProviderSelection::All, "ab", Err(String::new()));
    assert!(matches!(found, Ok(form) if form == "p:abc"));
}

#[test]
fn filters_stand_for_the_closest_projects() {
    let project = |path: &str| Project {
        decoded_path: owned(path),
        encoded_name: path.replace('/', "-"),
        best_path: owned(path),
    };
    let found = |filter: &str| -> Vec<String> {
        let all = vec![project("/a/x"), project("/a/x/y"), project("/b/xy")];
        filter_projects(all, filter).into_iter().map(|p| p.decoded_path).collect()
    };
    assert_eq!(found("/a/x"), ["/a/x"]);
    assert_eq!(found("x"), ["/a/x"]);
    assert_eq!(found("a"), ["/a/x", "/a/x/y"]);
    assert_eq!(found("-b"), ["/b/xy"]);
    assert!(found("z").is_empty());
}

// Removing

fn removable(id: &str, size: u64, modified: i128) -> CleanupSession {
    CleanupSession {
        session_id: owned(id),
        project_path: owned("/p/one"),
        file_size: size,
        size_shown: owned("0 B"),
        modified,
        is_subagent: false,
        is_active: false,
        path: format!("/{id}"),
    }
}

#[test]
fn sessions_are_removed_only_with_consent() {
    assert!(!may_remove(true, true, Some("y")));
    assert!(may_remove(false, true, None));
    assert!(may_remove(false, true, Some("n")));
    assert!(may_remove(false, false, Some(" YES\n")));
    assert!(may_remove(false, false, Some("y")));
    assert!(!may_remove(false, false, Some("yep")));
    assert!(!may_remove(false, false, Some("")));
    assert!(!may_remove(false, false, None));
    assert!(must_ask(false, false));
    assert!(!must_ask(true, false) && !must_ask(false, true));
}

#[test]
fn sessions_are_removed_only_as_asked_for() {
    let mut all = vec![
        removable("empty", 0, 9),
        removable("old", 7, 1),
        removable("kept", 7, 9),
        removable("used", 0, 1),
        removable("spawned", 0, 1),
        removable("elsewhere", 0, 1),
    ];
    all[3].is_active = true;
    all[4].is_subagent = true;
    all[5].project_path = owned("/q");
    let looked_at = considered_sessions(all, &Some(owned("/p")), false);
    let (doomed, spared) = select_sessions(&looked_at, true, Some(5));
    let ids: Vec<&str> = doomed.iter().map(|d| d.session.session_id.as_str()).collect();
    assert_eq!((ids, spared), (vec!["empty", "old"], 1));
    let (none, _) = select_sessions(&looked_at, false, Some(1));
    assert!(none.is_empty());
}

// Scoring

fn decision(id: u64, session: Option<&str>) -> Decision {
    Decision {
        id,
        title: owned("Use SQLite storage"),
        description: None,
        status: DecisionStatus::Proposed,
        status_shown: owned("proposed"),
        confidence: owned("0.5"),
        created_at: 1,
        updated_at: 2,
        percent: owned("50"),
        below_one: true,
        session_id: session.map(owned),
        superseded_by: None,
        tags: vec![owned("t")],
        references: vec![],
    }
}

fn agreed() -> Vec<LogEntry> {
    vec![
        LogEntry::Assistant(AssistantEntry {
            is_sidechain: false,
            content: vec![ContentBlock::Text(owned("we use sqlite storage"))],
        }),
        LogEntry::User(UserEntry {
            is_sidechain: false,
            message: UserContent::Simple(owned("yes")),
        }),
    ]
}

#[test]
fn scoring_keeps_all_decisions() {
    let before = vec![decision(3, Some("own")), decision(1, None), decision(2, Some("lost"))];
    let found = vec![
        (before[0].clone(), Some(agreed())),
        (before[1].clone(), Some(agreed())),
        (before[2].clone(), None),
    ];
    let others = vec![OtherSession { session_id: owned("x"), entries: agreed() }];
    let after = score_all(found, &others, 9);
    assert_eq!(outcomes(&after), vec![Scored::Yes, Scored::NoSession, Scored::NotFound]);
    assert_eq!(after[0].decision, Decision { updated_at: 9, ..before[0].clone() });
    assert_eq!(after[1].decision, before[1]);
    assert_eq!(after[2].decision, before[2]);
    let new = after[0].score.expect("the session was found");
    assert_eq!(new.hundredths, 80);
    assert_eq!(new.hundredths, score_decision(&before[0], "own", &agreed(), &others));
    assert!(new.signals.confirmation && new.cross.confirmations == 1);
    assert!(after[1].score.is_none() && after[2].score.is_none());
    let t = tally(&outcomes(&after));
    assert_eq!((t.scored, t.skipped_no_id, t.skipped_not_found), (1, 1, 1));
}

// Exports

fn export_request() -> ExportArgs {
    ExportArgs {
        session: Some(owned("s")),
        all: false,
        project: None,
        since: None,
        until: None,
        format: ExportFormatArg::Jsonl,
        gist: false,
        gist_public: false,
        clipboard: false,
        combine_agents: false,
        lossless: false,
        thinking: true,
        tool_use: true,
        tool_results: true,
        system: false,
        timestamps: true,
        usage: true,
        metadata: false,
        main_thread: true,
        redact: None,
        redact_preview: false,
        only: vec![],
        pretty: false,
        toc: false,
        dark: false,
    }
}

#[test]
fn only_the_clipboard_keeps_to_the_main_thread_of_everything() {
    let lossless = ExportArgs { lossless: true, ..export_request() };
    let whole = is_main_thread_only(&build_options(&lossless));
    assert!(!whole);
    assert!(is_main_thread_only(&build_options(&export_request())));
    let jsonl = |main_thread_only: bool| ExportWriter::Jsonl { main_thread_only };
    assert!(matches!(
        export_session(&lossless, 1, true, whole),
        Ok(Destination::File(w)) if w == jsonl(false)
    ));
    let board = ExportArgs { clipboard: true, ..lossless };
    assert!(matches!(
        export_session(&board, 1, true, whole),
        Ok(Destination::Clipboard(w)) if w == jsonl(true)
    ));
}

#[test]
fn written_entries_are_told() {
    assert_eq!(
        entries_notice(true, false, 3, "a.md"),
        Some(owned("Exported 3 entries to a.md"))
    );
    assert_eq!(entries_notice(true, true, 3, "a.md"), None);
    assert_eq!(entries_notice(false, false, 3, "a.md"), None);
}

#[test]
fn sessions_are_kept_by_the_time_of_their_files() {
    let session = |modified: i128| Session {
        session_id: format!("{modified}"),
        project_path: owned("/p"),
        modified,
        file_size: 0,
        is_subagent: false,
        times: None,
    };
    let kept = |since: Option<i128>, until: Option<i128>| -> Vec<i128> {
        let all = vec![session(3), session(1), session(2)];
        keep_modified_within(all, since, until).iter().map(|s| s.modified).collect()
    };
    assert_eq!(kept(None, None), [3, 1, 2]);
    assert_eq!(kept(Some(2), None), [3, 2]);
    assert_eq!(kept(None, Some(2)), [1, 2]);
    assert_eq!(kept(Some(2), Some(2)), [2]);
}

#[test]
fn skipped_providers_are_warned_of_behind_prompts() {
    let meta = PromptCollectionMeta {
        providers: vec![],
        session_descriptors_analyzed: 0,
        date_filter_fallback_descriptors: 0,
        skipped_providers: vec![SkippedProvider { provider: owned("x"), reason: owned("gone") }],
        warnings: vec![owned("late")],
    };
    assert_eq!(
        print_meta_warnings(&meta),
        ["warning: provider 'x' skipped: gone", "warning: late"]
    );
}

// Ids and texts that are not shown need not be cut

#[test]
fn ids_that_are_not_shown_need_not_be_cut() {
    let odd = "abcdefgé-and-more";
    let (doomed, _) = select_sessions(&vec![removable(odd, 0, 0)], true, None);
    assert_eq!(print_doomed(&doomed, 0, "0 B", true, false, OutputFormat::Compact), [odd]);
    let row = LogicalRow {
        root_id: owned("0123456789"),
        latest_session_id: owned(odd),
        members: vec![owned("m")],
        latest_modified: 0,
        total_size: 1,
        project: owned("/p"),
        display_name: owned("/p"),
        short_project: owned("p"),
        name: None,
        bookmarked: None,
        time: owned("now"),
        entry_count: None,
    };
    assert_eq!(print_logical(&vec![row], OutputFormat::Compact, false), ["01234567 p"]);
    let chunked = ChunkedSession {
        display_id: owned(odd),
        provider: None,
        qualified_id: None,
        session_id: owned(odd),
        project_path: owned("/p"),
        chain_id: None,
        chunks: vec![],
        preamble_entries: 2,
        unparsed: 0,
    };
    assert_eq!(print_chunks(&chunked).len(), 1);
    let listed = ListedSession {
        session_id: owned(odd),
        project_path: owned("/p"),
        modified: 0,
        file_size: 0,
        size_shown: owned("0 B"),
        is_subagent: false,
        is_wanted: true,
        meta: None,
        status: None,
        context: None,
    };
    let style = SessionStyle { full_ids: false, context: false, sizes: false };
    assert!(print_sessions(&vec![listed], 1, 0, style, OutputFormat::Json).is_empty());
}

#[test]
fn paths_that_are_not_shown_need_not_be_cut() {
    let session = |id: &str, path: &str| Session {
        session_id: owned(id),
        project_path: owned(path),
        modified: 0,
        file_size: 0,
        is_subagent: false,
        times: None,
    };
    let odd = format!("/{}é{}", "a".repeat(10), "b".repeat(26));
    let sessions = vec![session("a", "/p"), session("b", &odd), session("ab", "/q")];
    let found = complete_sessions(&sessions, &Some(owned("a")), None);
    assert_eq!(found, ["a\t/p", "ab\t/q"]);
    assert_eq!(complete_sessions(&sessions, &None, Some(1)), ["a\t/p"]);
}

#[test]
fn instructions_that_are_not_shown_need_not_be_cut() {
    let long = format!("{}é", "a".repeat(199));
    let data = ExtractData {
        source_count: 1,
        global_settings: None,
        project_settings: None,
        global_claude_md: Some(long),
        project_claude_md: None,
        servers: None,
        global_commands: vec![],
        project_commands: vec![],
        credentials: None,
        hooks: vec![],
        retention: None,
        sandbox: None,
        global_rules: vec![],
        project_rules: vec![],
        output_styles: vec![],
        history: None,
    };
    let args = ExtractArgs {
        all: false,
        settings: true,
        claude_md: false,
        mcp: false,
        commands: false,
        hooks: false,
        rules: false,
        file_history: false,
    };
    let host = Host {
        name: owned("Helper"),
        brand: owned("Helper"),
        provider: owned("helper"),
        instructions: owned("HELPER.md"),
        title: owned("Helper"),
        models: vec![],
    };
    let lines = print_text_output(&data, &args, &host);
    assert!(lines.iter().any(|line| line == "Data sources found: 1"));
}

#[test]
fn previews_are_tested_as_far_as_they_are_shown() {
    let user = |text: &str| PreviewMessage::User { has_tool_results: false, text: Some(owned(text)) };
    let odd = format!("{}é", "a".repeat(199));
    let all = vec![user("short"), PreviewMessage::Other, user(&odd)];
    assert!(can_preview(&all, 1));
    assert!(!can_preview(&all, 2));
    assert!(can_preview(&vec![user(&format!("{odd}b"))], 0));
}
