use snatch::commands::chunks;
use snatch::commands::diff::{semantic_fingerprint, ComparisonEntry, EntryKind};
use snatch::commands::export::database_options;
use snatch::commands::health::{self, HealthCoverage};
use snatch::commands::helpers::refuse_unsupported_flags;
use snatch::commands::info::{session_numbers, SessionAnalysis};
use snatch::commands::lessons::{several_json, LessonsCoverage, LessonsSoFar};
use snatch::commands::parse_date_filter;
use snatch::error::SnatchError;
use snatch::json::{of_large, render, Json};
use snatch::provider::{write_warnings, SkippedProvider};
use snatch::text::large;

fn text(s: &str) -> String {
    s.to_string()
}

fn texts(list: &[&str]) -> Vec<String> {
    list.iter().map(|s| s.to_string()).collect()
}

// Flags that do not go together

#[test]
fn flags_are_refused_where_one_is_given() {
    let flags = vec![(text("--a"), true), (text("--b"), false), (text("--c"), true)];
    assert_eq!(
        refuse_unsupported_flags("route", &flags),
        Err(SnatchError::UnsupportedFlags { route: text("route"), flags: texts(&["--a", "--c"]) })
    );
    assert_eq!(refuse_unsupported_flags("route", &vec![(text("--b"), false)]), Ok(()));
    assert_eq!(refuse_unsupported_flags("route", &vec![]), Ok(()));
}

#[test]
fn sessions_of_providers_are_never_chains() {
    assert_eq!(chunks::run(&vec![], true, false), Ok(false));
    assert_eq!(chunks::run(&vec![], false, true), Ok(true));
    assert_eq!(chunks::run(&texts(&["p"]), false, false), Ok(true));
    for (provider, qualified) in [(vec![], true), (texts(&["p"]), false)] {
        assert_eq!(
            chunks::run(&provider, true, qualified),
            Err(SnatchError::UnsupportedFlags {
                route: text("provider-routed chunks"),
                flags: texts(&["--no-chain"]),
            })
        );
    }
    assert_eq!(chunks::unsupported_flags(true), vec![(text("--no-chain"), true)]);
}

// Exports

#[test]
fn a_database_of_all_sessions_holds_everything() {
    for thinking in [false, true] {
        let o = database_options(thinking);
        assert_eq!(o.include_thinking, thinking);
        assert!(o.include_tool_use && o.include_tool_results && o.include_system);
        assert!(o.include_usage && o.include_timestamps && o.include_metadata);
        assert!(!o.main_thread_only && o.redaction.is_none() && o.only.is_empty());
    }
}

// What is known of a session

fn analysis() -> SessionAnalysis {
    SessionAnalysis {
        user_messages: 1,
        assistant_messages: 2,
        primary_model: Some(text("m")),
        tool_counts: vec![(text("Read"), 3)],
        estimated_cost: Some(text("0.5")),
        input_tokens: 10,
        cache_read_tokens: Some(5),
        output_tokens: 7,
        files: texts(&["/f"]),
        lines_added: 8,
        lines_removed: 9,
    }
}

#[test]
fn tokens_from_the_cache_count_as_given() {
    let n = session_numbers(Some(analysis()));
    assert_eq!((n.user_messages, n.assistant_messages), (Some(1), Some(2)));
    assert_eq!((n.input_tokens, n.output_tokens), (Some(15), Some(7)));
    assert_eq!((n.lines_added, n.lines_removed), (Some(8), Some(9)));
    assert_eq!(n.tools_summary, Some(vec![(text("Read"), 3)]));
    assert_eq!(n.files_modified, Some(texts(&["/f"])));
    assert_eq!(n.files_created, None);
    let n = session_numbers(Some(SessionAnalysis {
        tool_counts: vec![],
        files: vec![],
        cache_read_tokens: None,
        ..analysis()
    }));
    assert_eq!((n.input_tokens, n.tools_summary, n.files_modified), (Some(10), None, None));
    let n = session_numbers(None);
    assert_eq!((n.user_messages, n.input_tokens, n.lines_added), (None, None, None));
}

// Warnings

#[test]
fn warnings_stand_before_skipped_providers() {
    let skipped = vec![SkippedProvider { provider: text("p"), reason: text("gone") }];
    let lines = texts(&["warning: w", "warning: provider 'p' unavailable"]);
    assert_eq!(write_warnings(&texts(&["w"]), &skipped), lines);
    let coverage = HealthCoverage {
        providers: vec![],
        date_fallbacks: 0,
        decisions_available: false,
        registry_path: None,
        skipped,
        warnings: texts(&["w"]),
    };
    assert_eq!(health::print_warnings(&coverage), lines);
}

#[test]
fn skipped_providers_are_noted_with_the_lessons() {
    let none = LessonsSoFar {
        error_fix_pairs: vec![],
        user_corrections: vec![],
        tools: vec![],
        sessions_scanned: 0,
        sessions_with_lessons: 0,
        total_errors: 0,
        total_corrections: 0,
    };
    let coverage = LessonsCoverage {
        providers: vec![],
        project_keys: vec![],
        skipped: texts(&["p"]),
        warnings: vec![],
    };
    let value = render(&several_json(&none, &Some(coverage)));
    assert!(value.contains("\"skipped_providers\":[\"p: unavailable\"],"));
}

// Keys of entries

fn object(fields: Vec<(&str, Json)>) -> Json {
    Json::Object(fields.into_iter().map(|(name, value)| (text(name), value)).collect())
}

fn words(s: &str) -> Json {
    Json::Text(text(s))
}

/// An answer with all that identifies it, and what its tool is given.
fn answer(mark: &str, given: &str) -> ComparisonEntry {
    let call = object(vec![
        ("type", words("tool_use")),
        ("id", words(mark)),
        ("name", words("Read")),
        ("input", object(vec![("id", words(given)), ("path", words("/f"))])),
    ]);
    ComparisonEntry {
        kind: EntryKind::Assistant,
        message_type: text("assistant"),
        message_id: Some(text(mark)),
        value: object(vec![
            ("type", words("assistant")),
            ("uuid", words(mark)),
            ("parentUuid", words(mark)),
            ("timestamp", words(mark)),
            ("sessionId", words(mark)),
            ("version", words(mark)),
            ("cwd", words(mark)),
            (
                "message",
                object(vec![
                    ("id", words(mark)),
                    ("model", words(mark)),
                    ("usage", object(vec![("input_tokens", words(mark))])),
                    ("content", Json::Array(vec![object(vec![("type", words("text"))]), call])),
                ]),
            ),
        ]),
        semantics: None,
        human_prompt: false,
    }
}

#[test]
fn identity_does_not_tell_answers_apart() {
    let first = semantic_fingerprint(&answer("a", "x"));
    assert_eq!(first, semantic_fingerprint(&answer("b", "x")));
    assert_ne!(first, semantic_fingerprint(&answer("a", "y")));
    assert_ne!(first, semantic_fingerprint(&answer("b", "y")));
}

// Dates

#[test]
fn the_calendar_has_a_beginning() {
    let first = parse_date_filter("96465292days", 0).expect("the calendar begins there");
    assert_eq!(first, Ok(-8_334_601_228_800_000_000_000));
    assert!(parse_date_filter("96465293days", 0).is_none());
    let last: i128 = 8_210_266_876_799_000_000_000;
    assert_eq!(parse_date_filter("0d", last).map(|r| r.ok()), Some(Some(last)));
    assert!(parse_date_filter("0d", last + 1_000_000_000).is_none());
    assert!(parse_date_filter("9223372036854775807y", 0).is_none());
}

// Numbers

#[test]
fn large_numbers_are_written_in_full() {
    let limit = u128::from(u64::MAX);
    for n in [0, 7, 10, limit, limit + 1, 10 * limit, u128::MAX] {
        assert_eq!(large(n), n.to_string());
    }
    assert_eq!(render(&of_large(limit + 1)), "18446744073709551616");
}
