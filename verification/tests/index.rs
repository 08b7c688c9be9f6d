use snatch::commands::index::{
    coverage_warning, output_search_response, print_build, print_clear, print_status,
    provider_selection, resolve_indexed_session, run, BuildReport, IndexHit, IndexPlan,
    IndexResponse, IndexStatus, IndexSubcommand, ShownCount,
};
use snatch::commands::OutputFormat;
use snatch::error::SnatchError;
use snatch::host::Host;
use snatch::provider::{LogicalSessionKey, ProviderSelection};

fn host() -> Host {
    Host {
        name: "Helper Code".to_string(),
        brand: "Helper".to_string(),
        provider: "helper-code".to_string(),
        instructions: "HELPER.md".to_string(),
        title: "HELPER-SNATCH".to_string(),
        models: vec![],
    }
}

fn words(list: &[&str]) -> Vec<String> {
    list.iter().map(|s| s.to_string()).collect()
}

fn key(provider: &str, native_id: &str) -> LogicalSessionKey {
    LogicalSessionKey {
        provider: provider.to_string(),
        namespace: String::new(),
        native_id: native_id.to_string(),
        qualified: format!("{provider}:{native_id}"),
    }
}

#[test]
fn provider_selection_defaults_to_claude_and_rejects_mixed_all() {
    assert_eq!(
        provider_selection(&vec![], &host()).unwrap(),
        ProviderSelection::Explicit(vec![host().provider])
    );
    assert!(provider_selection(&words(&["all", "helper-code"]), &host()).is_err());
}

#[test]
fn all_alone_selects_every_provider() {
    assert_eq!(provider_selection(&words(&["all"]), &host()), Ok(ProviderSelection::All));
    assert_eq!(
        provider_selection(&words(&["b", "a"]), &host()),
        Ok(ProviderSelection::Explicit(words(&["b", "a"])))
    );
}

fn resolve(reference: &str, selection: &ProviderSelection) -> Result<String, SnatchError> {
    let known = vec![key("b", "abc1"), key("a", "abc"), key("a", "abcd"), key("a", "abc")];
    let parsed = match reference.split_once(':') {
        Some((_, "")) => Err("empty id".to_string()),
        Some((provider, id)) => Ok(key(provider, id)),
        None => Err("not qualified".to_string()),
    };
    resolve_indexed_session(known, selection, reference, parsed)
}

#[test]
fn a_whole_id_wins_over_longer_ones() {
    assert_eq!(resolve("abc", &ProviderSelection::All), Ok("a:abc".to_string()));
    assert_eq!(resolve("abc1", &ProviderSelection::All), Ok("b:abc1".to_string()));
    assert_eq!(resolve("a:abcd", &ProviderSelection::All), Ok("a:abcd".to_string()));
}

#[test]
fn ambiguous_references_name_their_candidates_in_order() {
    assert_eq!(
        resolve("ab", &ProviderSelection::All),
        Err(SnatchError::InvalidArgument {
            name: "session".to_string(),
            reason: "ambiguous indexed session reference 'ab'; candidates: a:abc, a:abcd, b:abc1"
                .to_string(),
        })
    );
}

#[test]
fn references_outside_the_selection_are_refused() {
    let only_a = ProviderSelection::Explicit(words(&["a"]));
    assert_eq!(
        resolve("abc1", &only_a),
        Err(SnatchError::SessionNotFound { session_id: "abc1".to_string() })
    );
    assert_eq!(
        resolve("b:abc1", &only_a),
        Err(SnatchError::InvalidArgument {
            name: "session".to_string(),
            reason: "qualified session b:abc1 belongs to unselected provider b".to_string(),
        })
    );
    assert_eq!(
        resolve("b:", &only_a),
        Err(SnatchError::InvalidArgument {
            name: "session".to_string(),
            reason: "empty id".to_string(),
        })
    );
}

#[test]
fn index_requests_are_checked_before_anything_is_opened() {
    let rebuild = IndexSubcommand::Rebuild {
        provider: words(&["all", "x"]),
        project: Some("p".to_string()),
    };
    assert!(matches!(
        run(&rebuild, &host()),
        Err(SnatchError::InvalidArgument { name, .. }) if name == "project"
    ));
    let search = IndexSubcommand::Search {
        query: " \t".to_string(),
        provider: vec![],
        limit: None,
    };
    assert!(matches!(
        run(&search, &host()),
        Err(SnatchError::InvalidArgument { name, .. }) if name == "query"
    ));
    let search = IndexSubcommand::Search {
        query: "x".to_string(),
        provider: words(&["all"]),
        limit: None,
    };
    assert_eq!(run(&search, &host()), Ok(IndexPlan::Search(ProviderSelection::All, 100)));
    assert_eq!(run(&IndexSubcommand::Clear, &host()), Ok(IndexPlan::Clear));
}

fn hit(session: &str, before: &str) -> IndexHit {
    IndexHit {
        provider: "p".to_string(),
        session_key: session.to_string(),
        project_path: "/a\tb".to_string(),
        entry_id: "e".to_string(),
        message_type: "user".to_string(),
        location: "line 1".to_string(),
        score: "7".to_string(),
        line: "x\ty\nz".to_string(),
        matched_text: "y".to_string(),
        context_before: before.to_string(),
        context_after: String::new(),
    }
}

fn response(matches: Vec<IndexHit>) -> IndexResponse {
    IndexResponse {
        matches,
        total_matches: "3".to_string(),
        total_occurrences: "4".to_string(),
        sessions_matched: "1".to_string(),
        returned: "2".to_string(),
        incomplete: true,
        generation: "g9".to_string(),
    }
}

#[test]
fn matches_are_grouped_by_session() {
    let r = response(vec![hit("s", "one\ntwo"), hit("s", "")]);
    assert_eq!(
        output_search_response(OutputFormat::Text, &r),
        vec![
            "Found 3 matches (4 occurrences across 1 sessions); showing 2:",
            "",
            "Session: s (/a\tb)",
            "",
            "  [user - score: 7] line 1",
            "    one\n    two",
            "  > x\ty\nz",
            "",
            "  [user - score: 7] line 1",
            "  > x\ty\nz",
        ]
    );
    assert_eq!(
        output_search_response(OutputFormat::Tsv, &r)[1],
        "p\ts\t/a b\te\tuser\tline 1\t7\tx y z"
    );
    assert_eq!(output_search_response(OutputFormat::Compact, &r)[0], "s:user:line 1: y");
    assert_eq!(
        output_search_response(OutputFormat::Text, &response(vec![])),
        vec!["No matches found."]
    );
    assert!(coverage_warning(OutputFormat::Json, false, &r).is_none());
    assert_eq!(
        coverage_warning(OutputFormat::Text, false, &r).unwrap(),
        "Warning: indexed coverage is incomplete for generation g9"
    );
}

#[test]
fn index_reports_tell_what_is_missing() {
    let count = |n: usize| ShownCount { count: n, shown: n.to_string() };
    let report = BuildReport {
        entries_replaced: "10".to_string(),
        sessions_replaced: "2".to_string(),
        sessions_unchanged: "3".to_string(),
        sessions_removed: "1".to_string(),
        generation: "g".to_string(),
        skipped: count(0),
        warnings: count(0),
        removal_coverage_complete: false,
    };
    assert_eq!(
        print_build(&report),
        vec![
            "Indexed 10 entries from 2 changed sessions (3 unchanged, 1 removed)",
            "Generation: g",
            "Coverage: 0 skipped, 0 warnings (removal coverage incomplete)",
        ]
    );
    let status = IndexStatus {
        path: "/i".to_string(),
        schema_version: 4,
        documents: "0".to_string(),
        sessions: "0".to_string(),
        entries: "0".to_string(),
        size: "0 B".to_string(),
        build: None,
    };
    let lines = print_status(&status);
    assert_eq!(lines[3], "Schema: 4");
    assert_eq!(
        lines.last().unwrap(),
        "Index is empty. Run 'snatch index build' to create it."
    );
    assert_eq!(print_clear(OutputFormat::Json), "{\"status\": \"cleared\"}");
}
