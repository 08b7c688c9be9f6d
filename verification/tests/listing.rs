use snatch::commands::export::{
    build_options, build_only_filter, check_for_pii, choose_writer, combined_notice,
    count_outcomes, export_all_sessions, export_all_sessions_sqlite, export_combined_agents,
    export_file_name, export_session, export_session_to_gist, export_single_session,
    extract_entry_texts, find_node_by_session_id, gist_command, gist_line, gist_notice, must_skip,
    run as export_run, upload_to_gist, AgentNode, ContentFilter, ContentType, Destination,
    ExportArgs, ExportContents, ExportEntry, ExportFormatArg, ExportOutcome, ExportRoute,
    ExportWriter, SingleExport,
};
use snatch::commands::extract::{
    print_text_output, run as extract_run, CredentialStatus, ExtractArgs, ExtractData,
    ExtractRoute, FileHistory, Hook, Named, Retention, Sandbox, Settings,
};
use snatch::commands::list::{
    context_width, get_session_context, is_cuttable, list_projects, list_sessions, print_projects,
    print_sessions, projects_json, run as list_run, sessions_json, shows_sizes, ContextMessage,
    ListTarget, ListedProject, ListedSession, SessionMeta, SessionQuery, SessionStyle, SortOrder,
};
use snatch::commands::messages::{
    build_message_output, chain_notice, chunk_notice, message_lengths, messages_json, paginate,
    parse_detail, print_page, render_subagent_transcript, renders_at_detail, select_messages,
    write_entry, Detail, MessageChain, MessageEntry, MessageFilter, MessageKind, MessagePage,
    MessageToolUse, MessagesOutput, SubagentMatch, ThinkingText, TranscriptLine,
};
use snatch::commands::OutputFormat;
use snatch::error::SnatchError;
use snatch::host::Host;
use snatch::json;

fn text(s: &str) -> String {
    s.to_string()
}

fn texts(list: &[&str]) -> Vec<String> {
    list.iter().map(|s| s.to_string()).collect()
}

fn host() -> Host {
    Host {
        name: text("Helper Code"),
        brand: text("Helper"),
        provider: text("helper-code"),
        instructions: text("HELPER.md"),
        title: text("HELPER-SNATCH"),
        models: vec![],
    }
}

fn project(path: &str, size: u64, sessions: usize) -> ListedProject {
    ListedProject {
        decoded_path: text(path),
        encoded_name: path.replace('/', "-"),
        session_count: sessions,
        total_size: size,
        size_shown: format!("{size} B"),
    }
}

#[test]
fn projects_are_listed() {
    assert_eq!(list_run(ListTarget::All).len(), 2);
    let all = vec![project("/b", 1, 2), project("/a", 9, 1), project("/c/x", 5, 3)];
    let (shown, total) = list_projects(all.clone(), &None, SortOrder::Size, 2);
    assert_eq!(total, 3);
    assert_eq!(shown[0].decoded_path, "/a");
    assert_eq!(
        print_projects(&shown, total, 2, true, OutputFormat::Text),
        vec![
            "Projects (showing 2 of 3, use -n 0 for all):",
            "",
            "  /a (1 sessions)",
            "    Size: 9 B",
            "  /c/x (3 sessions)",
            "    Size: 5 B",
        ]
    );
    let (found, _) = list_projects(all, &Some(text("/c")), SortOrder::Name, 0);
    assert_eq!(
        print_projects(&found, 1, 0, false, OutputFormat::Tsv)[1],
        "/c/x\t-c-x\t3"
    );
    assert_eq!(
        json::render(&projects_json(&found)),
        "[{\"path\":\"/c/x\",\"encoded_name\":\"-c-x\",\"session_count\":3,\"total_size\":5}]"
    );
}

fn listed(id: &str, modified: i128) -> ListedSession {
    ListedSession {
        session_id: text(id),
        project_path: text("/p"),
        modified,
        file_size: 0,
        size_shown: text("0 B"),
        is_subagent: false,
        is_wanted: true,
        meta: Some(SessionMeta {
            name: Some(text("Named")),
            tags: texts(&["x", "y"]),
            bookmarked: true,
            outcome: Some(text("Success")),
        }),
        status: None,
        context: Some(text("first\tprompt")),
    }
}

fn session_query() -> SessionQuery {
    SessionQuery {
        project: None,
        since: None,
        until: None,
        min_size: None,
        max_size: None,
        tag: None,
        tags: None,
        bookmarked: false,
        outcome: None,
        by_name: None,
        sort: SortOrder::Modified,
        limit: 0,
    }
}

#[test]
fn listed_sessions_fit_what_was_asked() {
    let all = vec![listed("a", 1), listed("b", 3), listed("c", 2)];
    let q = SessionQuery { since: Some(2), ..session_query() };
    let (shown, total) = list_sessions(all.clone(), &q);
    assert_eq!(total, 2);
    assert_eq!(shown.iter().map(|s| s.session_id.as_str()).collect::<Vec<_>>(), ["b", "c"]);
    let none = SessionQuery { tag: Some(text("z")), ..session_query() };
    assert_eq!(list_sessions(all.clone(), &none).1, 0);
    let elsewhere = SessionQuery { project: Some(text("nowhere")), ..session_query() };
    assert_eq!(list_sessions(all, &elsewhere).1, 0);
    assert_eq!(context_width(OutputFormat::Compact), 60);
    assert_eq!(context_width(OutputFormat::Json), 100);
    assert!(shows_sizes(true, SortOrder::Name) && shows_sizes(false, SortOrder::Size));
}

#[test]
fn sessions_are_shown_with_what_is_known() {
    let style = SessionStyle { full_ids: false, context: true, sizes: true };
    let list = vec![listed("0123456789", 0)];
    assert_eq!(
        print_sessions(&list, 1, 0, style, OutputFormat::Text),
        vec![
            "Sessions (1 found):",
            "",
            "  ★ \"Named\" (01234567) [Success] (0 B - empty, possibly new or interrupted)",
            "    Project: /p",
            "    Modified: 1970-01-01 00:00:00 UTC",
            "    Tags: x, y",
            "    Context: \"first\tprompt\"",
        ]
    );
    assert_eq!(
        print_sessions(&list, 1, 0, style, OutputFormat::Tsv)[1],
        "01234567\t/p\t0\t1970-01-01 00:00:00 UTC\tfalse\tNamed\tfirst prompt"
    );
    assert_eq!(
        json::render(&sessions_json(&list, false)),
        "[{\"session_id\":\"0123456789\",\"project_path\":\"/p\",\"is_subagent\":false,\
         \"file_size\":0,\"modified\":\"1970-01-01T00:00:00+00:00\",\"name\":\"Named\",\
         \"tags\":[\"x\",\"y\"],\"bookmarked\":true}]"
    );
    assert!(json::render(&sessions_json(&list, true)).contains("\"context\":\"first\\tprompt\""));
}

#[test]
fn the_first_prompt_tells_what_a_session_is_about() {
    let message = |has_tool_results: bool, said: &str| ContextMessage {
        has_tool_results,
        text: Some(text(said)),
    };
    let messages = vec![message(true, "result"), message(false, "  \n"), message(false, "Fix\nit")];
    assert_eq!(get_session_context(&messages, 100), Some(text("Fix it")));
    assert_eq!(get_session_context(&vec![], 100), None);
    assert!(is_cuttable("abc", 2) && !is_cuttable("aé", 2));
}

fn message(kind: MessageKind, said: &str) -> MessageEntry {
    let is_user = matches!(kind, MessageKind::User);
    let is_assistant = matches!(kind, MessageKind::Assistant);
    MessageEntry {
        kind,
        message_type: text(if is_user { "user" } else { "assistant" }),
        time: Some(3_661_000_000_000),
        prompt: if is_user { Some(text(said)) } else { None },
        summary: if is_assistant { Some(text(said)) } else { None },
        has_summary: is_assistant,
        system: None,
        attachment: None,
        queued: None,
        is_queued: false,
        boundary: if is_user { Some(text(said)) } else { None },
        is_boundary: is_user,
        is_human: is_user,
        has_errors: false,
        tool_names: vec![],
        tool_uses: vec![],
        thinking: None,
        has_thinking: false,
        git_branch: None,
        model: None,
    }
}

fn call() -> MessageEntry {
    let mut e = message(MessageKind::Assistant, "working");
    e.tool_names = texts(&["Task"]);
    e.model = Some(text("m"));
    e.thinking = Some(ThinkingText { preview: text("t"), brief: text("tb"), long: text("tl") });
    e.has_thinking = true;
    e.tool_uses = vec![MessageToolUse {
        id: text("id"),
        name: text("Task"),
        summary: vec![(text("prompt"), text("go"))],
        subagent: Some(SubagentMatch {
            session_id: text("agent"),
            message_count: Some(2),
            result_preview: Some(text("done")),
            result_line: Some(text("done")),
            transcript: vec![TranscriptLine {
                index: 0,
                msg_type: text("user"),
                content: text("go"),
            }],
            messages: vec![message(MessageKind::User, "go")],
        }),
    }];
    e
}

#[test]
fn messages_show_more_at_each_level() {
    assert!(matches!(parse_detail("conversation"), Detail::Conversation));
    assert!(matches!(parse_detail("full"), Detail::Full));
    let user = message(MessageKind::User, "hello");
    assert_eq!(
        write_entry(4, &user, Detail::Overview, false, false),
        vec!["[4] 01:01:01 user: hello"]
    );
    assert_eq!(
        write_entry(5, &call(), Detail::Full, true, true),
        vec![
            "[5] 01:01:01 assistant (m):",
            "    working",
            "    > Task prompt=go",
            "      -> subagent agent (2 msgs)",
            "         result: done",
            "         [0] user: go",
            "    thinking: tl",
            "",
        ]
    );
    assert_eq!(
        write_entry(5, &call(), Detail::Standard, false, false)[2],
        "    tools: Task"
    );
    assert!(!renders_at_detail(&call(), Detail::Overview, false));
    assert!(message_lengths(Detail::Full, Some(7)).truncate_len == 7);
}

#[test]
fn messages_are_handed_out_with_their_transcripts() {
    let out = build_message_output(5, &call(), Detail::Full, false, true).unwrap();
    assert_eq!(out.timestamp.as_deref(), Some("1970-01-01T01:01:01+00:00"));
    assert_eq!(out.thinking_preview, None);
    let transcript = out.tool_details.as_ref().unwrap()[0].subagent_transcript.as_ref().unwrap();
    assert_eq!(
        *transcript,
        render_subagent_transcript(&vec![message(MessageKind::User, "go")], false)
    );
    let all = MessagesOutput {
        session_id: text("s"),
        project_path: text("/p"),
        chain: Some(MessageChain { root_id: text("r"), members: texts(&["r", "s"]) }),
        total_messages: 9,
        offset: 5,
        messages: vec![out],
        unmatched: vec![],
    };
    assert_eq!(
        json::render(&messages_json(&all)),
        "{\"session_id\":\"s\",\"project_path\":\"/p\",\"chain_id\":\"r\",\
         \"chain_members\":[\"r\",\"s\"],\"chain_member_count\":2,\"total_messages\":9,\
         \"returned\":1,\"offset\":5,\"messages\":[{\"index\":5,\"msg_type\":\"assistant\",\
         \"timestamp\":\"1970-01-01T01:01:01+00:00\",\"content\":\"working\",\"model\":\"m\",\
         \"tool_calls\":[\"Task\"],\"tool_details\":[{\"tool_name\":\"Task\",\"prompt\":\"go\",\
         \"subagent_session_id\":\"agent\",\"subagent_result_preview\":\"done\",\
         \"subagent_transcript\":[{\"index\":0,\"msg_type\":\"user\",\
         \"timestamp\":\"1970-01-01T01:01:01+00:00\",\"content\":\"go\"}]}],\
         \"has_thinking\":true}]}"
    );
}

#[test]
fn pages_join_and_stay_within() {
    assert_eq!(paginate(5, false, 1, 2), [1, 2]);
    assert_eq!(paginate(5, true, 1, 2), [3, 2]);
    assert!(paginate(5, false, 9, 2).is_empty());
    let mut joined = paginate(5, false, 0, 2);
    joined.extend(paginate(5, false, 2, 3));
    assert_eq!(joined, paginate(5, false, 0, 5));
}

#[test]
fn a_page_says_what_it_shows() {
    let page = MessagePage {
        session_id: text("0123456789"),
        entries: vec![message(MessageKind::User, "hello"), call()],
        reverse: false,
        offset: 0,
        limit: 5,
        detail: Detail::Overview,
        include_thinking: false,
        transcripts: false,
        unparsed: 2,
        unmatched: vec![],
    };
    assert_eq!(
        print_page(&page),
        vec![
            "Session 01234567 (2 messages, showing 1-2; 1 rendered, 1 with no content at this detail)",
            "",
            "⚠ 2 lines could not be parsed (dropped from this view)",
            "",
            "[0] 01:01:01 user: hello",
        ]
    );
    assert!(chain_notice(2, "r").contains('2'));
    assert_eq!(
        chunk_notice(1, 1, &vec![0, 3], 4),
        "ℹ Showing chunk 1 of 2 (4 entries) (3 abandoned branch(es) not shown — see `snatch chunks`)"
    );
}

#[test]
fn messages_are_selected_by_kind_and_time() {
    let filter = MessageFilter {
        errors_only: false,
        failed: vec![],
        message_type: text("user"),
        after: None,
        before: Some(0),
        detail: Detail::Standard,
    };
    let all = || vec![message(MessageKind::User, "a"), call()];
    assert!(select_messages(all(), &filter).is_empty());
    let filter = MessageFilter { before: None, ..filter };
    assert_eq!(select_messages(all(), &filter).len(), 1);
    let filter = MessageFilter { message_type: text("all"), ..filter };
    assert_eq!(select_messages(all(), &filter).len(), 2);
    let filter = MessageFilter { errors_only: true, failed: texts(&["id"]), ..filter };
    assert_eq!(select_messages(all(), &filter), vec![call()]);
}

fn export_args(format: ExportFormatArg) -> ExportArgs {
    ExportArgs {
        session: Some(text("0123456789")),
        all: false,
        project: None,
        since: None,
        until: None,
        format,
        gist: false,
        gist_public: false,
        clipboard: false,
        combine_agents: false,
        lossless: false,
        thinking: true,
        tool_use: true,
        tool_results: true,
        system: false,
        timestamps: true,
        usage: true,
        metadata: false,
        main_thread: true,
        redact: None,
        redact_preview: false,
        only: vec![],
        pretty: true,
        toc: false,
        dark: true,
    }
}

fn refused(args: &ExportArgs, gh: bool) -> String {
    match export_run(args, 0, gh) {
        Some(Err(SnatchError::ConfigError { message })) => message,
        other => panic!("{other:?}"),
    }
}

#[test]
fn exports_that_do_not_go_together_are_refused() {
    let plain = export_args(ExportFormatArg::Markdown);
    assert_eq!(
        export_run(&plain, 0, false),
        Some(Ok(ExportRoute::Single { session_id: text("0123456789"), ignores_dates: false }))
    );
    assert!(refused(&ExportArgs { gist: true, ..plain.clone() }, false).starts_with("GitHub CLI"));
    let gist = ExportArgs { gist: true, ..plain.clone() };
    assert!(refused(&ExportArgs { all: true, ..gist.clone() }, true).contains("--all"));
    assert!(refused(&ExportArgs { clipboard: true, ..gist.clone() }, true).contains("exclusive"));
    assert!(
        refused(&ExportArgs { format: ExportFormatArg::Sqlite, ..gist }, true).contains("SQLite")
    );
    let board = ExportArgs { clipboard: true, ..plain.clone() };
    assert!(refused(&ExportArgs { all: true, ..board.clone() }, true).contains("--clipboard"));
    assert!(
        refused(&ExportArgs { format: ExportFormatArg::Sqlite, ..board }, true).contains("SQLite")
    );
    assert!(refused(&ExportArgs { session: None, ..plain.clone() }, true).starts_with("Either"));
    let bad = ExportArgs { since: Some(text("odd")), ..plain };
    assert!(matches!(
        export_run(&bad, 0, true),
        Some(Err(SnatchError::InvalidArgument { .. }))
    ));
}

#[test]
fn exports_have_a_writer_and_a_place() {
    let plain = export_args(ExportFormatArg::Html);
    assert_eq!(
        choose_writer(plain.format, true, true, false, true),
        Some(ExportWriter::Html { toc: false, dark: true })
    );
    assert_eq!(choose_writer(ExportFormatArg::Sqlite, true, true, false, true), None);
    assert_eq!(
        export_session(&plain, 3, true, true),
        Ok(Destination::File(ExportWriter::Html { toc: false, dark: true }))
    );
    assert_eq!(export_session(&plain, 0, true, true), Ok(Destination::Nowhere));
    assert!(export_session(&export_args(ExportFormatArg::Sqlite), 3, false, true).is_err());
    assert_eq!(
        export_combined_agents(&export_args(ExportFormatArg::Text), 1, false),
        Ok(Destination::Terminal(ExportWriter::Text))
    );
    assert!(matches!(export_single_session(&plain), SingleExport::Plain));
    match build_options(&plain) {
        ExportContents::Chosen(o) => {
            assert!(o.include_thinking && !o.include_system && o.main_thread_only)
        }
        other => panic!("{other:?}"),
    }
    assert!(matches!(
        build_options(&ExportArgs { lossless: true, ..plain }),
        ExportContents::Lossless { .. }
    ));
    let only = build_only_filter(&vec![ContentFilter::User, ContentFilter::Summary]);
    assert_eq!(only, vec![ContentType::User, ContentType::Summary]);
}

#[test]
fn outcomes_of_an_export_add_up() {
    let outcomes = vec![
        ExportOutcome::Exported,
        ExportOutcome::Skipped,
        ExportOutcome::Failed,
        ExportOutcome::Empty,
        ExportOutcome::Exported,
    ];
    assert_eq!(count_outcomes(&outcomes, ExportOutcome::Exported), 2);
    assert_eq!(
        export_all_sessions(&outcomes, "/out"),
        "Exported 2 of 5 sessions to /out (1 skipped) (1 errors)"
    );
    assert_eq!(
        export_all_sessions_sqlite(&outcomes, "/db"),
        "Exported 2 sessions to /db (1 errors)"
    );
    assert!(must_skip(true, false) && !must_skip(true, true) && !must_skip(false, false));
    assert_eq!(
        export_file_name("/a\\b", "id", ExportFormatArg::Json),
        "_a_b_id.json"
    );
    assert_eq!(
        combined_notice("s", 3, "/f"),
        "Exported combined session s (3 sessions) to /f"
    );
}

#[test]
fn nested_agents_are_found() {
    let leaf = AgentNode { session_id: text("leaf"), children: vec![] };
    let root = AgentNode { session_id: text("root"), children: vec![leaf] };
    let nodes = vec![root];
    assert_eq!(find_node_by_session_id(&nodes, "leaf").unwrap().session_id, "leaf");
    assert!(find_node_by_session_id(&nodes, "none").is_none());
}

#[test]
fn personal_data_is_warned_of_once_for_each_kind() {
    let (kinds, lines) = check_for_pii(&texts(&["email", "phone", "email"]), false);
    assert_eq!(kinds, texts(&["email", "phone"]));
    assert_eq!(lines[0], "⚠️  PII Warning: email detected in exported content");
    assert!(lines.contains(&text("   • phone")));
    assert!(check_for_pii(&texts(&["email"]), true).1.is_empty());
    assert_eq!(extract_entry_texts(&ExportEntry::User(Some(text("u")))), ["u"]);
    assert!(extract_entry_texts(&ExportEntry::Other).is_empty());
}

#[test]
fn gists_are_named_after_their_session() {
    let gist = export_session_to_gist(
        "0123456789",
        2,
        ExportFormatArg::Markdown,
        &None,
        true,
        &host(),
    )
    .unwrap();
    assert_eq!(
        gist_command(&gist),
        texts(&[
            "gist",
            "create",
            "--filename",
            "session-01234567.md",
            "--desc",
            "Helper Code session export",
            "--public",
        ])
    );
    assert!(export_session_to_gist("a", 0, ExportFormatArg::Md, &None, true, &host()).is_err());
    assert_eq!(upload_to_gist(true, " url\n", ""), Ok(text("url")));
    assert!(upload_to_gist(true, " ", "").is_err());
    assert_eq!(
        upload_to_gist(false, "", "bad"),
        Err(SnatchError::ExportError { message: text("gh gist create failed: bad") })
    );
    assert_eq!(gist_line("u", true), "{\"url\": \"u\"}");
    assert_eq!(gist_notice(false, 2), "✓ Created secret gist with 2 entries");
}

#[test]
fn all_parts_of_an_extraction_are_shown() {
    let named = |name: &str| Named { name: text(name), detail: None };
    let data = ExtractData {
        source_count: 9,
        global_settings: Some(Settings {
            default_model: Some(text("m")),
            temperature: None,
            endpoint: None,
            has_permissions: true,
            permission_count: 2,
        }),
        project_settings: None,
        global_claude_md: Some(text("1\n2\n3\n4\n5\n6\n7")),
        project_claude_md: None,
        servers: Some(vec![named("srv")]),
        global_commands: vec![named("cmd")],
        project_commands: vec![],
        credentials: Some(CredentialStatus { file_exists: true, key_present: false }),
        hooks: vec![Hook { event: Some(text("ev")), matcher: None, command: None }],
        retention: Some(Retention {
            max_sessions: Some(3),
            max_age_days: None,
            auto_cleanup: true,
        }),
        sandbox: Some(Sandbox { enabled: true, allowed_directories: 0, blocked_commands: 4 }),
        global_rules: vec![],
        project_rules: vec![named("rule")],
        output_styles: vec![],
        history: Some(FileHistory {
            backup_count: 1,
            total_size_bytes: 2,
            unique_files: 3,
            oldest: None,
            newest: None,
        }),
    };
    let mut args = ExtractArgs {
        all: true,
        settings: false,
        claude_md: false,
        mcp: false,
        commands: false,
        hooks: false,
        rules: false,
        file_history: false,
    };
    let lines = print_text_output(&data, &args, &host());
    for line in [
        "Data sources found: 9",
        "  Default Model: m",
        "  Has permissions: 2 rules",
        "  ... (2 more lines)",
        "  Servers: 1",
        "  Max sessions: 3",
        "  Blocked commands: 4",
        "  Total backups: 1",
    ] {
        assert!(lines.contains(&text(line)), "{line}");
    }
    args.all = false;
    assert!(!print_text_output(&data, &args, &host()).contains(&text("  Servers: 1")));
    assert!(matches!(extract_run(false, false, OutputFormat::Json), ExtractRoute::NoData));
    assert!(matches!(extract_run(true, false, OutputFormat::Json), ExtractRoute::Json));
    assert!(matches!(extract_run(false, true, OutputFormat::Text), ExtractRoute::Text));
}
