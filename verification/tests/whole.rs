use snatch::commands::chain::no_chains_line;
use snatch::commands::cleanup::{considered_sessions, CleanupSession};
use snatch::commands::code::{extracted_notice, writes_files, written_notice, CodeStyle};
use snatch::commands::context::print_found;
use snatch::commands::decisions::{nothing_to_export, nothing_to_score};
use snatch::commands::detect::nothing_detected;
use snatch::commands::diff::{read_records, BoundedBytes};
use snatch::commands::export::{
    copied_notice, date_note, empty_hierarchy, exported_notice, failure_notice, no_sessions,
    output_directory, progress_notice, ExportOutcome, ExportStage,
};
use snatch::commands::extract::{self, nothing_extracted};
use snatch::commands::lessons::{
    print_coverage, run_cross_session, run_provider_cross_session, uses_annotations, Correction,
    ErrorFix, ReadSession, SessionLessons,
};
use snatch::commands::messages::{
    self, page_outputs, print_page, MessageEntry, MessageKind, MessagesArgs, MessagesRead,
};
use snatch::commands::pick::provider_warnings;
use snatch::commands::prompts::{
    self, extract_multiple_sessions, extract_provider_multiple_sessions, extract_single_session,
    GrepRegex, PromptEntry, PromptsArgs, ProviderSession, ReadProviderSession,
    SessionProjectContext,
};
use snatch::commands::OutputFormat;
use snatch::error::SnatchError;

fn text(s: &str) -> String {
    s.to_string()
}

fn texts(list: &[&str]) -> Vec<String> {
    list.iter().map(|s| s.to_string()).collect()
}

fn pair(tool: &str, at: &str) -> ErrorFix {
    ErrorFix {
        session_id: None,
        timestamp: Some(text(at)),
        tool_name: text(tool),
        input_summary: vec![],
        error_preview: text("oops"),
        resolution_summary: None,
        resolution_tools: vec![],
    }
}

fn lessons(pairs: Vec<ErrorFix>, tools: &[(&str, usize)]) -> SessionLessons {
    SessionLessons {
        total_errors: pairs.len() + 1,
        error_fix_pairs: pairs,
        user_corrections: vec![],
        total_corrections: 0,
        most_error_prone_tools: tools.iter().map(|(name, n)| (text(name), *n)).collect(),
    }
}

fn sessions() -> Vec<ReadSession> {
    let session = |id: &str, outcome: Result<SessionLessons, String>| ReadSession {
        session_id: text(id),
        outcome,
    };
    vec![
        session("a", Ok(lessons(vec![pair("Bash", "2")], &[("Bash", 1)]))),
        session("b", Err(text("torn"))),
        session("c", Ok(lessons(vec![], &[("Edit", 9)]))),
        session("d", Ok(lessons(vec![pair("Edit", "1")], &[("Edit", 4), ("Bash", 1)]))),
    ]
}

#[test]
fn lessons_of_all_sessions_are_put_together() {
    let all = run_cross_session(sessions());
    assert_eq!((all.sessions_scanned, all.sessions_with_lessons), (4, 2));
    assert_eq!(all.tools, [(text("Edit"), 4), (text("Bash"), 2)]);
    let owners: Vec<_> = all.error_fix_pairs.iter().map(|p| p.session_id.as_deref()).collect();
    assert_eq!(owners, [Some("a"), Some("d")]);
}

#[test]
fn lessons_of_providers_are_cut_once() {
    let unplaced = texts(&["k"]);
    let found = run_provider_cross_session(sessions(), false, &unplaced, 1).unwrap();
    assert_eq!(found.lessons.sessions_scanned, 3);
    assert_eq!(found.lessons.total_errors, 5);
    assert_eq!(found.lessons.error_fix_pairs.len(), 1);
    assert_eq!(found.lessons.error_fix_pairs[0].session_id.as_deref(), Some("d"));
    assert_eq!(found.warnings, ["k: project metadata unavailable", "b: parse failed"]);
    assert_eq!(
        run_provider_cross_session(sessions(), true, &unplaced, 1),
        Err(SnatchError::InvalidArgument {
            name: text("b"),
            reason: text("selected session could not be parsed: torn"),
        })
    );
    assert_eq!(
        print_coverage(&texts(&["p"]), &found.warnings)[..2],
        ["warning: p: unavailable", "warning: k: project metadata unavailable"]
    );
    assert!(uses_annotations(1, true) && !uses_annotations(2, true));
    let none: Vec<Correction> = vec![];
    assert_eq!(found.lessons.user_corrections, none);
}

fn entry(said: &str, at: i128) -> PromptEntry {
    PromptEntry {
        is_user: true,
        is_human: true,
        text: Some(text(said)),
        is_noise: false,
        timestamp: at,
        semantics: None,
    }
}

fn args(limit: Option<usize>) -> PromptsArgs {
    PromptsArgs {
        session: None,
        provider: vec![],
        all: true,
        project: None,
        since: None,
        until: None,
        min_length: 0,
        limit,
        subagents: false,
        output_file: None,
        separators: true,
        timestamps: false,
        numbered: false,
        grep: None,
        ignore_case: false,
        invert_match: false,
        exclude_system: true,
        frequency: false,
        stats: false,
        unique: true,
        sort_by_length: false,
        min_count: None,
        no_truncate: false,
        contains: None,
    }
}

#[test]
fn prompts_of_sessions_are_read_until_there_are_enough() {
    let session = |id: &str, entries: Result<Vec<PromptEntry>, String>| prompts::ReadSession {
        session_id: text(id),
        project_path: text("/p"),
        entries,
    };
    let all = || {
        vec![
            session("a", Err(text("torn"))),
            session("b", Ok(vec![entry("one", 1)])),
            session("c", Ok(vec![entry("two", 2), entry("three", 3)])),
            session("d", Err(text("gone"))),
        ]
    };
    let read = extract_multiple_sessions(all(), &args(Some(2)), &None, false);
    let said: Vec<_> = read.gathered.prompts.iter().map(|p| p.text.as_str()).collect();
    assert_eq!(said, ["one", "two"]);
    assert_eq!(read.gathered.session_count, 2);
    assert_eq!(read.warnings, ["Warning: Failed to extract from a: torn"]);
    let whole = extract_multiple_sessions(all(), &args(None), &None, false);
    assert_eq!(whole.gathered.prompts.len(), 3);
    assert_eq!(whole.warnings.len(), 2);
    assert_eq!(whole.gathered.prompts[0].session_id.as_deref(), Some("b"));
}

#[test]
fn wanted_prompts_of_a_session_are_found() {
    let regex = Some(GrepRegex::new("t", false).unwrap());
    let entries = vec![entry(" two ", 1), entry("one", 2)];
    let found = extract_single_session(&entries, &args(None), &regex, false);
    assert_eq!(found.len(), 1);
    assert_eq!(found[0].text, "two");
    assert!(extract_single_session(&entries, &args(None), &regex, true).is_empty());
}

#[test]
fn limits_change_no_counts_of_providers() {
    let session = |id: &str, started: Option<i128>, entries: Vec<PromptEntry>| {
        ReadProviderSession {
            session: ProviderSession {
                qualified_id: text(id),
                provider: text("p"),
                project_key: text("k"),
                project_path: text("/p"),
                logical_root: text("root"),
            },
            context: SessionProjectContext {
                started_at: started,
                ended_at: started,
                modified_at: None,
                native_tail_unresolved: false,
            },
            semantic_annotations: false,
            entries,
        }
    };
    let all = vec![
        session("p:b", Some(5), vec![entry("late", 9), entry("same", 4)]),
        session("p:a", None, vec![entry("same", 3), entry("early", 1)]),
        session("p:c", Some(50), vec![entry("too late", 50)]),
    ];
    let span = (Some(2), Some(20));
    let whole = extract_provider_multiple_sessions(&all, span, &args(None), &None, true);
    let cut = extract_provider_multiple_sessions(&all, span, &args(Some(2)), &None, true);
    let said = |r: &prompts::ProviderReading| -> Vec<String> {
        r.gathered.prompts.iter().map(|p| p.text.clone()).collect()
    };
    assert_eq!(said(&whole), ["early", "same", "same", "late"]);
    assert_eq!(said(&cut), ["early", "same"]);
    assert_eq!(whole.gathered.total_matching, cut.gathered.total_matching);
    assert_eq!(whole.gathered.unique_texts, texts(&["early", "late", "same"]));
    assert_eq!(whole.gathered.unique_texts, cut.gathered.unique_texts);
    assert_eq!(cut.gathered.roots, texts(&["root"]));
    assert_eq!(cut.gathered.sessions_analyzed, 2);
    assert_eq!(cut.fallbacks, texts(&["p:a"]));
}

fn message(kind: MessageKind, said: &str, at: i128) -> MessageEntry {
    let human = kind == MessageKind::User;
    MessageEntry {
        kind,
        message_type: text(if human { "user" } else { "assistant" }),
        time: Some(at),
        prompt: human.then(|| text(said)),
        summary: (!human).then(|| text(said)),
        has_summary: !human,
        system: None,
        attachment: None,
        queued: None,
        is_queued: false,
        boundary: human.then(|| text(said)),
        is_boundary: human,
        is_human: human,
        has_errors: false,
        tool_names: vec![],
        tool_uses: vec![],
        thinking: None,
        has_thinking: false,
        git_branch: None,
        model: None,
    }
}

fn messages_args(after: Option<&str>) -> MessagesArgs {
    MessagesArgs {
        session_id: text("0123456789"),
        detail: text("conversation"),
        message_type: text("all"),
        limit: 10,
        offset: 0,
        reverse: true,
        include_thinking: false,
        errors_only: false,
        after: after.map(text),
        before: None,
        subagent_transcripts: false,
    }
}

#[test]
fn messages_that_are_asked_for_make_a_page() {
    let read = || MessagesRead {
        entries: vec![
            message(MessageKind::User, "ask", 0),
            message(MessageKind::Assistant, "answer", 1),
        ],
        failed: vec![],
        unmatched: vec![],
        unparsed: 0,
    };
    let page = messages::run(&messages_args(None), read(), 0).unwrap().unwrap();
    assert_eq!(page.entries.len(), 2);
    let out = page_outputs(&page);
    assert_eq!(out.iter().map(|m| m.index).collect::<Vec<_>>(), [1, 0]);
    assert_eq!(out[0].content.as_deref(), Some("answer"));
    assert_eq!(print_page(&page)[0], "Session 01234567 (2 messages, showing 1-2)");
    let page = messages::run(&messages_args(Some("1970-01-02")), read(), 0).unwrap().unwrap();
    assert!(page.entries.is_empty());
    assert!(messages::run(&messages_args(Some("never")), read(), 0).unwrap().is_err());
}

#[test]
fn records_must_be_text() {
    let gathered = |bytes: Vec<u8>| BoundedBytes { bytes, max: None };
    assert_eq!(read_records(gathered("é".as_bytes().to_vec()), "r"), Ok(text("é")));
    assert_eq!(
        read_records(gathered(vec![0xff]), "r"),
        Err(SnatchError::InvalidArgument {
            name: text("r"),
            reason: text("raw JSONL comparison requires valid UTF-8 records"),
        })
    );
}

#[test]
fn exports_say_what_became_of_them() {
    assert_eq!(
        date_note(true, false).unwrap(),
        "Note: --since/--until filters are only applied with --all; single session export \
         ignores them"
    );
    assert_eq!(date_note(true, true), None);
    let path = Some(text("/f"));
    assert_eq!(exported_notice(true, false, "s", &path).unwrap(), "Exported session s to /f");
    assert_eq!(exported_notice(false, false, "s", &path), None);
    assert_eq!(copied_notice(3), "Copied 3 entries to clipboard.");
    assert_eq!(empty_hierarchy(0, true), Some(vec![]));
    assert_eq!(empty_hierarchy(1, false), None);
    assert_eq!(
        no_sessions(0, false),
        Some(texts(&["No sessions match the specified filters"]))
    );
    assert_eq!(output_directory(&None, false, &None), ".");
    assert_eq!(output_directory(&Some(text("/d")), true, &Some(text("/"))), "/d");
    assert_eq!(output_directory(&Some(text("/d/f")), false, &Some(text("/d"))), "/d");
    assert_eq!(
        failure_notice(ExportStage::Build, "s", "why", false).unwrap(),
        "Failed to build conversation for s: why"
    );
    assert_eq!(failure_notice(ExportStage::Parse, "s", "why", true), None);
    assert_eq!(
        progress_notice(ExportOutcome::Skipped, "/f", true).unwrap(),
        "Skipped (exists): /f"
    );
    assert_eq!(progress_notice(ExportOutcome::Exported, "/f", false), None);
}

#[test]
fn blocks_are_counted_behind_them() {
    let style = |files: bool, concatenate: bool| CodeStyle { files, concatenate, metadata: false };
    assert_eq!(
        extracted_notice(2, style(false, false), OutputFormat::Text, false),
        vec!["", "Extracted 2 code block(s)"]
    );
    assert!(extracted_notice(2, style(false, true), OutputFormat::Text, false).is_empty());
    assert!(extracted_notice(2, style(false, false), OutputFormat::Tsv, false).is_empty());
    assert!(writes_files(style(true, false), OutputFormat::Compact));
    assert!(!writes_files(style(true, true), OutputFormat::Text));
    assert_eq!(
        written_notice(&texts(&["/d/a"]), "/d", false),
        vec!["Wrote: /d/a", "", "Wrote 1 file(s) to /d"]
    );
}

#[test]
fn nothing_is_said_to_be_nothing() {
    assert_eq!(no_chains_line(&vec![0, 0]).unwrap(), "No session chains found.");
    assert_eq!(no_chains_line(&vec![0, 1]), None);
    assert_eq!(print_found(&None), vec!["Event not found in session."]);
    assert_eq!(nothing_to_score(0, false), Some(texts(&["No decisions to score."])));
    assert_eq!(nothing_to_export(2, false), None);
    assert_eq!(
        nothing_detected(0, false),
        Some(texts(&["No candidate decisions detected."]))
    );
    let route = extract::run(false, false, OutputFormat::Text);
    assert_eq!(nothing_extracted(route).unwrap(), "No Beyond-JSONL data found.");
    assert_eq!(
        provider_warnings(&texts(&["q"]), &texts(&["b", "a", "b"])),
        vec![
            "warning: provider 'q' unavailable",
            "warning: a: project context unavailable",
            "warning: b: project context unavailable",
        ]
    );
}

#[test]
fn only_sessions_of_the_project_are_considered() {
    let session = |id: &str, project: &str, spawned: bool| CleanupSession {
        session_id: text(id),
        project_path: text(project),
        file_size: 0,
        size_shown: text("0 B"),
        modified: 0,
        is_subagent: spawned,
        is_active: false,
        path: text("/f"),
    };
    let all = || vec![session("a", "/x/y", false), session("b", "/x/y", true), session("c", "/z", false)];
    let ids = |list: Vec<CleanupSession>| -> Vec<String> {
        list.into_iter().map(|s| s.session_id).collect()
    };
    assert_eq!(ids(considered_sessions(all(), &Some(text("y")), false)), ["a"]);
    assert_eq!(ids(considered_sessions(all(), &None, true)), ["a", "b", "c"]);
}
