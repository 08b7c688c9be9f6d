use snatch::commands::cache::{
    self, clear_cache, invalidate_stale, show_stats, show_status, CacheAction, CachePlan,
    CacheStats, PartStats,
};
use snatch::commands::chunks::{
    can_span, chain_notice, chunks_json, fmt_span, print_chunks, Branch, Chunk, ChunkedSession,
    PromptSource,
};
use snatch::commands::context::{
    self, context_json, needs_registry, parse_timestamp, print_context, ContextArgs,
    ContextRoute, ContextSource, ContextTurn, EventContext, SemanticTurn, SemanticWindow,
};
use snatch::commands::digest::{digest_json, print_digest, project_of, DigestSource, DigestValues};
use snatch::commands::grab::{self, words_refused, GrabArgs};
use snatch::error::SnatchError;
use snatch::json::{self, Json};

const SECOND: i128 = 1_000_000_000;

fn chunk(index: usize) -> Chunk {
    Chunk {
        index,
        prompt: "do it".to_string(),
        headline: "do it".to_string(),
        prompt_source: PromptSource::Queued,
        source_shown: "queued".to_string(),
        prompt_uuid: "u".to_string(),
        start_ts: Some(0),
        end_ts: Some(75 * SECOND),
        entries: 12,
        attached: 2,
        tool_calls: 3,
        errors: 1,
        branches: vec![Branch {
            root_uuid: "b".to_string(),
            prompt: None,
            label: None,
            entries: 4,
        }],
    }
}

fn chunked(chunks: Vec<Chunk>) -> ChunkedSession {
    ChunkedSession {
        display_id: "abcdefghij".to_string(),
        session_id: "abcdefghij".to_string(),
        provider: None,
        qualified_id: None,
        project_path: "/p".to_string(),
        chain_id: None,
        preamble_entries: 5,
        unparsed: 1,
        chunks,
    }
}

#[test]
fn spans_are_short() {
    assert_eq!(fmt_span(None, Some(0)), "?");
    assert_eq!(fmt_span(Some(10 * SECOND), Some(0)), "0s");
    assert_eq!(fmt_span(Some(0), Some(45 * SECOND + 999_999_999)), "45s");
    assert_eq!(fmt_span(Some(0), Some(9 * 60 * SECOND)), "9m");
    assert_eq!(fmt_span(Some(0), Some(72 * 60 * SECOND)), "1h 12m");
    assert!(!can_span(Some(i128::MIN), Some(i128::MAX)));
    assert!(can_span(Some(-SECOND), Some(SECOND)));
}

#[test]
fn parts_of_a_session_are_listed() {
    assert_eq!(
        print_chunks(&chunked(vec![chunk(0)])),
        vec![
            "Session abcdefgh — 1 chunks, 5 preamble entries\n",
            "⚠ 1 line could not be parsed (dropped from this view)\n",
            "[  0] 01-01 00:00      1m    12 entries    3 tools ⚠1 errors (+2 attached)  (queued) do it",
            "      └ abandoned branch, 4 entries: (no prompt)",
            "\nRetrieve a chunk with: snatch messages abcdefghij --chunk <N> (or a range like 2-5)",
        ]
    );
    assert_eq!(
        print_chunks(&chunked(vec![])),
        vec!["No chunks: session has no human prompts (5 preamble entries)."]
    );
    let value = json::render(&chunks_json(&chunked(vec![chunk(0)])));
    assert!(value.contains("\"total_chunks\":1"));
    assert!(value.contains("\"start_ts\":\"1970-01-01T00:00:00+00:00\",\"end_ts\":\"1970-01-01T00:01:15+00:00\",\"entries\":12"));
    assert!(value.contains("\"branches\":[{\"root_uuid\":\"b\",\"entries\":4}]"));
    assert_eq!(
        chain_notice(3, "r"),
        "ℹ Showing full resume chain: 3 files (root r). Use --no-chain to restrict."
    );
}

fn context_args() -> ContextArgs {
    ContextArgs {
        session_id: "fake:x".to_string(),
        provider: vec![],
        message_id: Some("m".to_string()),
        timestamp: None,
        context_window: 3,
    }
}

#[test]
fn an_event_has_to_be_named() {
    let mut a = context_args();
    assert!(needs_registry(&a));
    assert_eq!(context::run(&a, true), Ok(ContextRoute::Provider));
    assert_eq!(context::run(&a, false), Ok(ContextRoute::Directory));
    a.message_id = None;
    assert_eq!(
        context::run(&a, true),
        Err(SnatchError::InvalidArgument {
            name: "message_id or timestamp".to_string(),
            reason: "either --message-id or --timestamp is required".to_string(),
        })
    );
    a.timestamp = Some("1day".to_string());
    a.session_id = "plain".to_string();
    assert_eq!(context::run(&a, true), Ok(ContextRoute::Directory));
}

#[test]
fn times_are_read_in_both_forms() {
    let text = "2024-12-24T10:00:00.25+01:00";
    let time = chrono::DateTime::parse_from_rfc3339(text).unwrap();
    assert_eq!(
        parse_timestamp(text, 0),
        Some(Ok(time.timestamp_nanos_opt().unwrap() as i128))
    );
    assert_eq!(
        parse_timestamp("1day", 10 * 86_400 * SECOND),
        Some(Ok(9 * 86_400 * SECOND))
    );
    assert!(parse_timestamp("sometime", 0).unwrap().is_err());
}

fn turn(index: usize) -> ContextTurn {
    ContextTurn {
        index,
        message_type: "user".to_string(),
        uuid: None,
        timestamp: Some(3_661 * SECOND),
        text: Some("1\n2\n3\n4\n5\n6".to_string()),
        tools: vec!["Bash".to_string(), "Read".to_string()],
        had_errors: true,
    }
}

fn event(window: Option<SemanticWindow>) -> EventContext {
    EventContext {
        target_index: 4,
        target: turn(4),
        before: vec![],
        after: vec![],
        semantic_window: window,
        related_files: vec!["a.rs".to_string()],
        error_count: 2,
        confirmed_failure_count: Some(1),
        inferred_failure_count: None,
    }
}

#[test]
fn five_lines_of_a_message_are_shown() {
    let lines = print_context(&event(None));
    assert_eq!(lines[0], "Context around message [4]:\n");
    assert_eq!(lines[1], "▸ [4] 01:01:01 user ✗:");
    assert_eq!(lines[6], "▸     5");
    assert_eq!(lines[7], "▸     tools: Bash, Read");
    assert_eq!(&lines[8..], ["", "\nRelated files:", "  a.rs", "\nErrors in window: 2"]);
}

#[test]
fn prompts_around_an_event_are_shown() {
    let focus = SemanticTurn {
        index: 1,
        turn_id: None,
        start_entry_index: 2,
        end_entry_index: 5,
        event_count: 4,
        user_prompt: Some("p".to_string()),
        steering_prompts: vec!["s".to_string()],
        assistant_response: None,
        tools: vec![],
        confirmed_failure_count: 0,
        inferred_failure_count: 2,
    };
    let window = SemanticWindow { before: vec![], focus, after: vec![] };
    let lines = print_context(&event(Some(window)));
    assert_eq!(
        &lines[1..7],
        [
            "◆ Turn 1 (derived, entries 2-5, 4 events):",
            "◆     user: p",
            "◆     steering: s",
            "◆     failures: 0 confirmed, 2 inferred",
            "",
            "Target event:",
        ]
    );
    let source = ContextSource {
        provider: "fake".to_string(),
        qualified_id: "fake:x".to_string(),
        native_id: "x".to_string(),
    };
    let value = context_json("fake:x", &Some(source), &event(None), &Some(Json::Bool(true)));
    let text = json::render(&value);
    assert!(text.starts_with("{\"session_id\":\"x\",\"target_index\":4"));
    assert!(text.ends_with(
        "\"provider\":\"fake\",\"qualified_id\":\"fake:x\",\"confirmed_failure_count\":1,\
         \"semantic_window\":true}"
    ));
}

#[test]
fn a_digest_names_its_session() {
    assert_eq!(print_digest("id", "body"), vec!["Session Digest: id\n", "body"]);
    assert_eq!(project_of(&vec![None, Some("/b".to_string()), Some("/c".to_string())]), "/b");
    assert_eq!(project_of(&vec![None]), "unknown");
    let null = || Json::Null;
    let source = DigestSource {
        display_id: "id".to_string(),
        provider: None,
        qualified_id: None,
        project_path: "/p".to_string(),
    };
    let values = DigestValues {
        key_prompts: null(),
        recent_prompts: null(),
        total_prompts: Json::Number("3".to_string()),
        files_touched: null(),
        top_tools: null(),
        error_count: null(),
        confirmed_tool_failures: null(),
        inferred_failure_signals: null(),
        compaction_count: null(),
        thinking_keywords: Json::Array(vec![]),
    };
    let text = json::render(&digest_json(&source, values));
    assert!(text.contains("\"provider\":null,\"qualified_id\":null,\"project_path\":\"/p\""));
    assert!(text.contains("\"total_prompts\":3"));
    assert!(text.ends_with("\"thinking_keywords\":[]}"));
}

#[test]
fn whole_sessions_come_with_their_agents() {
    let mut a = GrabArgs { session: "s".to_string(), output_file: None, raw: false };
    assert_eq!(grab::run(&a), vec!["grab", "s", "--combine-agents", "--resolve-tool-results"]);
    a.raw = true;
    a.output_file = Some("out".to_string());
    assert_eq!(
        grab::run(&a),
        vec!["grab", "s", "--combine-agents", "-f", "raw-jsonl", "-O", "out"]
    );
    assert_eq!(
        words_refused("no"),
        SnatchError::ConfigError {
            message: "failed to build export arguments for grab: no".to_string(),
        }
    );
}

#[test]
fn the_cache_tells_its_numbers() {
    let part = |n: usize| PartStats {
        entry_count: n,
        max_entries: 10,
        size: "1 KB".to_string(),
        max_size: "2 KB".to_string(),
        usage_percent: "50.0".to_string(),
    };
    let stats = CacheStats {
        enabled: true,
        metadata: part(1),
        entries: part(2),
        total_entries: 3,
        total_size: "2 KB".to_string(),
    };
    let lines = show_stats(&stats);
    assert_eq!(lines[2], "Enabled: yes");
    assert_eq!(lines[5], "  Entries: 1 / 10");
    assert_eq!(lines[6], "  Size: 1 KB / 2 KB (50.0%)");
    assert_eq!(lines.last().unwrap(), "  Size: 2 KB");
    assert_eq!(clear_cache(&stats), "Cleared 3 entries (2 KB)");
    assert_eq!(invalidate_stale(5, 3), "Invalidated 2 stale entries");
    assert_eq!(invalidate_stale(5, 5), "No stale entries found");
    assert_eq!(show_status(&stats)[1], "Usage: 3 entries, 2 KB");
    assert_eq!(
        cache::run(CacheAction::Status { enable: false, disable: false }),
        CachePlan::ShowStatus
    );
    assert!(matches!(
        cache::run(CacheAction::Status { enable: true, disable: true }),
        CachePlan::Hint(s) if s.starts_with("Caching is enabled by default")
    ));
}
