use snatch::commands::prompts::{
    compute_frequency, compute_stats, contains_json, context_overlaps_date_range, count_contains,
    deduplicate_prompts, extract_prompts_from_session, filter_prompts_by_grep,
    filter_system_messages, frequency_json, prompts_json, sort_prompts_chronologically, stats_json,
    write_contains_text, write_frequency_text, write_prompts, write_stats_text, FrequencyEntry,
    GrepRegex, Prompt, PromptCollectionMeta, PromptEntry, PromptSource, SessionProjectContext,
    StatsShares,
};
use snatch::error::SnatchError;

fn make_prompt(text: &str) -> Prompt {
    Prompt {
        text: text.to_string(),
        timestamp: None,
        session_id: None,
        project_path: None,
        provider: None,
        qualified_id: None,
        project_key: None,
        sort_timestamp: instant("2026-01-01T00:00:00Z"),
        sort_tiebreak: String::new(),
        is_noise: false,
    }
}

fn noise(text: &str) -> Prompt {
    Prompt { is_noise: true, ..make_prompt(text) }
}

fn instant(text: &str) -> i128 {
    chrono::DateTime::parse_from_rfc3339(text).unwrap().timestamp() as i128 * 1_000_000_000
}

#[test]
fn test_prompt_struct() {
    let mut prompt = make_prompt("Hello world");
    prompt.timestamp = Some("2025-12-30 12:00:00 UTC".to_string());
    assert_eq!(prompt.text, "Hello world");
    assert!(prompt.timestamp.is_some());
}

#[test]
fn deduplication_keeps_first_occurrence_order() {
    let prompts = vec![
        make_prompt("zebra"),
        make_prompt("alpha"),
        make_prompt("zebra"),
        make_prompt("beta"),
    ];
    let texts: Vec<_> =
        deduplicate_prompts(prompts).into_iter().map(|prompt| prompt.text).collect();
    assert_eq!(texts, ["zebra", "alpha", "beta"]);
}

#[test]
fn frequency_ties_are_deterministic() {
    let prompts = vec![make_prompt("zebra"), make_prompt("alpha")];
    let entries = compute_frequency(&prompts, None, false);
    assert_eq!(entries[0].prompt, "alpha");
    assert_eq!(entries[1].prompt, "zebra");
}

#[test]
fn text_analysis_truncates_unicode_at_a_character_boundary() {
    let prompt = make_prompt(&"🙂".repeat(100));
    let entry = FrequencyEntry { prompt: prompt.text, count: 1 };
    let frequency =
        write_frequency_text(&vec![entry], &vec![Some("100.0".to_string())], 1, false);
    assert!(frequency.join("\n").contains("..."));

    let stats = compute_stats(&vec![make_prompt(&"界".repeat(100))]);
    assert_eq!(stats.total_characters, 100);
    assert!(
        (stats.total_characters as f64 / stats.total_prompts as f64 - 100.0).abs() < f64::EPSILON
    );
    assert_eq!(stats.min_length, 100);
    assert_eq!(stats.max_length, 100);
    let shares = StatsShares {
        single_use: "100.0".to_string(),
        average: "100.0".to_string(),
        under_100: "0.0".to_string(),
        from_100_to_500: "100.0".to_string(),
        from_500_to_1000: "0.0".to_string(),
        from_1000_to_5000: "0.0".to_string(),
        over_5000: "0.0".to_string(),
    };
    let rendered = write_stats_text(&stats, &shares, None, false);
    assert!(rendered.join("\n").contains("..."));
}

#[test]
fn date_overlap_never_invents_a_start_from_the_end() {
    let ended_at = instant("2026-07-20T00:00:00Z");
    let until = instant("2026-07-10T00:00:00Z");
    let context = SessionProjectContext {
        started_at: None,
        ended_at: Some(ended_at),
        modified_at: Some(ended_at),
        native_tail_unresolved: false,
    };
    assert_eq!(
        context_overlaps_date_range(&context, None, Some(until)),
        (true, true),
        "without native start evidence the session must be included conservatively"
    );
}

#[test]
fn date_overlap_prefers_a_complete_native_end_over_fresh_mtime() {
    let ended_at = instant("2020-01-01T00:00:00Z");
    let modified_at = instant("2026-07-22T00:00:00Z");
    let since = instant("2026-07-17T00:00:00Z");
    let complete = SessionProjectContext {
        started_at: None,
        ended_at: Some(ended_at),
        modified_at: Some(modified_at),
        native_tail_unresolved: false,
    };
    assert_eq!(context_overlaps_date_range(&complete, Some(since), None), (false, false));

    let unresolved = SessionProjectContext { native_tail_unresolved: true, ..complete };
    assert_eq!(context_overlaps_date_range(&unresolved, Some(since), None), (true, true));
}

#[test]
fn test_filter_prompts_by_grep_no_filter() {
    let prompts = vec![make_prompt("Hello world"), make_prompt("Goodbye world")];
    let filtered = filter_prompts_by_grep(prompts.clone(), None, false);
    assert_eq!(filtered.len(), 2);
}

#[test]
fn test_filter_prompts_by_grep_simple_pattern() {
    let prompts = vec![
        make_prompt("implement a feature"),
        make_prompt("fix the bug"),
        make_prompt("implement another thing"),
    ];
    let regex = GrepRegex::new("implement", false).unwrap();
    let filtered = filter_prompts_by_grep(prompts, Some(&regex), false);
    assert_eq!(filtered.len(), 2);
    assert!(filtered[0].text.contains("implement"));
    assert!(filtered[1].text.contains("implement"));
}

#[test]
fn test_filter_prompts_by_grep_regex_pattern() {
    let prompts = vec![
        make_prompt("TODO: fix this"),
        make_prompt("FIXME: broken"),
        make_prompt("normal prompt"),
    ];
    let regex = GrepRegex::new("TODO|FIXME", false).unwrap();
    let filtered = filter_prompts_by_grep(prompts, Some(&regex), false);
    assert_eq!(filtered.len(), 2);
}

#[test]
fn test_filter_prompts_by_grep_case_insensitive() {
    let prompts = vec![
        make_prompt("Hello World"),
        make_prompt("hello there"),
        make_prompt("goodbye"),
    ];
    let regex = GrepRegex::new("hello", true).unwrap();
    let filtered = filter_prompts_by_grep(prompts, Some(&regex), false);
    assert_eq!(filtered.len(), 2);
}

#[test]
fn test_filter_prompts_by_grep_no_matches() {
    let prompts = vec![make_prompt("Hello world"), make_prompt("Goodbye world")];
    let regex = GrepRegex::new("nonexistent", false).unwrap();
    let filtered = filter_prompts_by_grep(prompts, Some(&regex), false);
    assert!(filtered.is_empty());
}

#[test]
fn test_filter_prompts_by_grep_invert_match() {
    let prompts = vec![
        make_prompt("implement a feature"),
        make_prompt("fix the bug"),
        make_prompt("implement another thing"),
    ];
    let regex = GrepRegex::new("implement", false).unwrap();
    let filtered = filter_prompts_by_grep(prompts, Some(&regex), true);
    assert_eq!(filtered.len(), 1);
    assert!(filtered[0].text.contains("fix the bug"));
}

#[test]
fn test_filter_system_messages() {
    let prompts = vec![
        noise("[Request interrupted by user]"),
        make_prompt("Caveat: The messages below were generated..."),
        noise("<command-name>/compact</command-name>"),
        noise("<local-command-stdout>output</local-command-stdout>"),
        make_prompt("Let's implement a feature"),
        make_prompt("How confident are you?"),
    ];
    let filtered = filter_system_messages(prompts);
    assert_eq!(filtered.len(), 2);
    assert!(filtered[0].text.starts_with("Let's"));
    assert!(filtered[1].text.starts_with("How"));
}

#[test]
fn expressions_that_do_not_compile_are_refused() {
    let error = GrepRegex::new("(", false).unwrap_err();
    let reason = regex::Regex::new("(").unwrap_err().to_string();
    assert_eq!(
        error,
        SnatchError::InvalidArgument {
            name: "grep".to_string(),
            reason: format!("Invalid regex pattern: {reason}"),
        }
    );
}

#[test]
fn inversion_finds_what_the_expression_does_not() {
    let prompts: Vec<Prompt> = ["a1", "b", "a2", "", "xa"].iter().map(|s| make_prompt(s)).collect();
    let regex = GrepRegex::new("^a", false).unwrap();
    let found = filter_prompts_by_grep(prompts.clone(), Some(&regex), false);
    let rest = filter_prompts_by_grep(prompts.clone(), Some(&regex), true);
    assert_eq!(found.len() + rest.len(), prompts.len());
    assert_eq!(found.len(), 2);
}

#[test]
fn deduplicating_twice_changes_nothing() {
    let prompts: Vec<Prompt> = ["x", "y", "x", "x"].iter().map(|s| make_prompt(s)).collect();
    let once = deduplicate_prompts(prompts);
    assert_eq!(deduplicate_prompts(once.clone()), once);
}

#[test]
fn frequency_counts_what_is_used_often_enough() {
    let prompts: Vec<Prompt> = ["b", "a", "b", "c", "b"].iter().map(|s| make_prompt(s)).collect();
    let entries = compute_frequency(&prompts, Some(2), false);
    assert_eq!(entries, vec![FrequencyEntry { prompt: "b".to_string(), count: 3 }]);
}

#[test]
fn prompts_are_told_as_json() {
    let mut prompt = make_prompt("hi");
    prompt.session_id = Some("s".to_string());
    let source =
        PromptSource { provider: "p".to_string(), qualified_id: "p:s".to_string() };
    assert_eq!(
        snatch::json::render(&prompts_json(&vec![prompt], 7, None, &Some(source), &None)),
        "{\"prompts\":[{\"text\":\"hi\",\"session_id\":\"s\"}],\"total_count\":7,\
         \"provider\":\"p\",\"qualified_id\":\"p:s\"}"
    );
    let meta = PromptCollectionMeta {
        providers: vec!["p".to_string()],
        session_descriptors_analyzed: 2,
        date_filter_fallback_descriptors: 1,
        skipped_providers: vec![],
        warnings: vec![],
    };
    assert_eq!(
        snatch::json::render(&contains_json("x", 1, 4, "25.0", Some(3), &None, &Some(meta))),
        "{\"phrase\":\"x\",\"matching_prompts\":1,\"total_prompts\":4,\"percentage\":25.0,\
         \"session_count\":3,\"session_descriptors_analyzed\":2,\
         \"date_filter_fallback_descriptors\":1,\"providers\":[\"p\"],\
         \"skipped_providers\":[],\"warnings\":[]}"
    );
}

#[test]
fn statistics_are_told_as_json() {
    let prompts = vec![make_prompt("aa"), make_prompt("aa"), make_prompt("b")];
    let entries = compute_frequency(&prompts, None, false);
    let shares = vec![Some("66.6".to_string()), None];
    assert_eq!(
        snatch::json::render(&frequency_json(&entries, &shares, 3, None, &None, &None)),
        "{\"entries\":[{\"prompt\":\"aa\",\"count\":2,\"percentage\":66.6},\
         {\"prompt\":\"b\",\"count\":1}],\"total_prompts\":3,\"unique_prompts\":2}"
    );
    let stats = compute_stats(&prompts);
    let numbers = StatsShares {
        single_use: "50.0".to_string(),
        average: "1.6".to_string(),
        under_100: "100.0".to_string(),
        from_100_to_500: "0.0".to_string(),
        from_500_to_1000: "0.0".to_string(),
        from_1000_to_5000: "0.0".to_string(),
        over_5000: "0.0".to_string(),
    };
    let value = snatch::json::render(&stats_json(&stats, &numbers, &shares, None, &None, &None));
    assert!(value.starts_with(
        "{\"total_prompts\":3,\"unique_prompts\":2,\"single_use_prompts\":1,\
         \"single_use_percentage\":50.0,\"reused_prompts\":1,\"total_characters\":5,\
         \"average_length\":1.6,\"median_length\":2,\"min_length\":1,\"max_length\":2,\
         \"length_distribution\":{\"under_100\":{\"count\":3,\"percentage\":100.0}"
    ));
}

#[test]
fn prompts_are_taken_from_what_people_wrote() {
    let entry = |text: &str, is_human: bool| PromptEntry {
        is_user: true,
        is_human,
        text: Some(text.to_string()),
        is_noise: false,
        timestamp: 0,
        semantics: None,
    };
    let entries = vec![entry("hello", true), entry("tool", false), entry("x", true)];
    let found = extract_prompts_from_session(&entries, 2, true);
    assert_eq!(found.len(), 1);
    assert_eq!(found[0].timestamp.as_deref(), Some("1970-01-01 00:00:00 UTC"));
    assert_eq!(write_prompts(&found, true, None)[0], "1. [1970-01-01 00:00:00 UTC]");
}

#[test]
fn phrases_are_counted_with_and_without_case() {
    let prompts = vec![make_prompt("Fix it"), make_prompt("fix"), make_prompt("no")];
    assert_eq!(count_contains(&prompts, "fix", false), 1);
    assert_eq!(count_contains(&prompts, "FIX", true), 2);
    assert!(write_contains_text("fix", 1, 3, "33.3", None)
        .contains(&"Matching prompts: 1 (33.3% of 3 total)".to_string()));
}

#[test]
fn prompts_sent_at_once_keep_a_fixed_order() {
    let mut a = make_prompt("a");
    a.sort_tiebreak = "2".to_string();
    let mut b = make_prompt("b");
    b.sort_tiebreak = "1".to_string();
    let mut c = make_prompt("c");
    c.sort_timestamp = 0;
    let texts: Vec<_> =
        sort_prompts_chronologically(vec![a, b, c]).into_iter().map(|p| p.text).collect();
    assert_eq!(texts, ["c", "b", "a"]);
}
