use snatch::commands::doctor::{
    can_be_summed, fmt_sighting, gather_reports, print_human, provider_diagnostics, run,
    unsupported_flags, AttachmentSighting, DoctorArgs, DoctorReport, DoctorRoute, DriftSighting,
};
use snatch::commands::quickstart::{
    self, topic_examples, topic_title, QuickstartArgs, QuickstartOutput, QuickstartTopic,
};
use snatch::commands::OutputFormat;
use snatch::error::SnatchError;
use snatch::host::Host;
use snatch::json::{self, Json};
use snatch::provider::ProviderSelection;

fn host() -> Host {
    Host {
        name: "Helper Code".to_string(),
        brand: "Helper".to_string(),
        provider: "helper-code".to_string(),
        instructions: "HELPER.md".to_string(),
        title: "HELPER-SNATCH".to_string(),
        models: vec![],
    }
}

fn args(provider: &[&str]) -> DoctorArgs {
    DoctorArgs {
        project: None,
        since: None,
        all: false,
        subagents: false,
        provider: provider.iter().map(|s| s.to_string()).collect(),
    }
}

#[test]
fn scans_go_back_thirty_days() {
    let mut a = args(&[]);
    assert_eq!(run(&a), Ok(DoctorRoute::Scan(Some("30d".to_string()))));
    a.all = true;
    assert_eq!(run(&a), Ok(DoctorRoute::Scan(None)));
    a.since = Some("1y".to_string());
    assert_eq!(run(&a), Ok(DoctorRoute::Scan(Some("1y".to_string()))));
    assert_eq!(run(&args(&["all"])), Ok(DoctorRoute::Providers(ProviderSelection::All)));
    assert!(matches!(
        run(&args(&["all", "x"])),
        Err(SnatchError::InvalidArgument { name, .. }) if name == "--provider"
    ));
    assert_eq!(unsupported_flags(&a)[1], ("--since".to_string(), true));
}

#[test]
fn filters_do_not_go_with_providers() {
    let mut a = args(&["x"]);
    assert!(matches!(run(&a), Ok(DoctorRoute::Providers(ProviderSelection::Explicit(_)))));
    a.subagents = true;
    a.project = Some("p".to_string());
    a.provider.push("all".to_string());
    assert_eq!(
        run(&a),
        Err(SnatchError::UnsupportedFlags {
            route: "doctor --provider (full-corpus provider diagnostics)".to_string(),
            flags: vec!["project".to_string(), "--subagents".to_string()],
        })
    );
    a.provider.clear();
    assert!(run(&a).is_ok());
}

fn seen(count: usize) -> DriftSighting {
    DriftSighting { count, session_count: 2, last_seen: Some(1_735_041_600_000_000_000) }
}

#[test]
fn sightings_stand_in_columns() {
    assert_eq!(
        fmt_sighting("kind", &seen(12)),
        format!("  {:<28} {:>7}x  in {:>3} session(s)  last seen 2024-12-24", "kind", 12, 2)
    );
    let never = DriftSighting { count: 0, session_count: 0, last_seen: None };
    assert!(fmt_sighting("k", &never).ends_with("last seen unknown"));
}

#[test]
fn a_scan_is_reported_in_sections() {
    let report = DoctorReport {
        sessions_scanned: 1,
        entries_scanned: 2,
        lines_unparsed: 3,
        sessions_with_unparsed: 4,
        entries_salvaged: 5,
        thinking_blocks: 6,
        thinking_blocks_empty: 6,
        thinking_empty_percent: "100.0".to_string(),
        unknown_entry_types: vec![],
        other_system_subtypes: vec![],
        unknown_content_blocks: vec![],
        attachment_kinds: vec![
            ("a".to_string(), AttachmentSighting { sighting: seen(3), rendered_count: 3 }),
            ("b".to_string(), AttachmentSighting { sighting: seen(3), rendered_count: 1 }),
            ("c".to_string(), AttachmentSighting { sighting: seen(3), rendered_count: 0 }),
        ],
        unpriced_models: vec![],
    };
    let lines = print_human(&report, 1, Some("30d"), &host());
    assert_eq!(lines[0], "Doctor Report (since 30d)");
    assert_eq!(lines[3], "Unreadable sessions: 1");
    assert!(lines.contains(&"  6 blocks, 6 empty (100.0%)".to_string()));
    assert!(lines.contains(
        &"  All thinking text is empty — this Helper Code version does not persist it.".to_string()
    ));
    assert!(lines.iter().any(|l| l.ends_with(" [rendered]")));
    assert!(lines.iter().any(|l| l.ends_with(" [renders 1/3]")));
    assert_eq!(lines.iter().filter(|l| *l == "  (none)").count(), 4);
    assert!(print_human(&report, 0, None, &host())[0].contains("entire corpus"));
}

fn object(fields: Vec<(&str, Json)>) -> Json {
    Json::Object(fields.into_iter().map(|(n, v)| (n.to_string(), v)).collect())
}

fn number(n: u64) -> Json {
    Json::Number(n.to_string())
}

#[test]
fn failed_providers_are_withheld() {
    let reports = gather_reports(
        &vec![
            ("a".to_string(), None),
            ("b".to_string(), Some(object(vec![("records", number(7))]))),
            ("c".to_string(), Some(Json::Null)),
        ],
        &vec!["c".to_string(), "d".to_string()],
    );
    let ids: Vec<_> = reports.iter().map(|r| r.0.as_str()).collect();
    assert_eq!(ids, ["a", "b", "c", "d"]);
    let lines = provider_diagnostics(&reports);
    assert_eq!(
        lines[1],
        "  no dedicated provider diagnostics; the classic `snatch doctor` scan covers this provider"
    );
    assert_eq!(&lines[2..4], ["b", "  records: 7"]);
    assert_eq!(lines[4], "c");
    assert!(lines[5].starts_with("  unavailable: provider unavailable"));
}

#[test]
fn counts_of_a_report_are_summed() {
    let report = object(vec![
        ("sessions", number(2)),
        ("unknown_field_paths", object(vec![("x", number(3)), ("y", Json::Null), ("z", number(4))])),
        (
            "reasoning_by_month",
            object(vec![
                ("2024-01", Json::Array(vec![number(10), number(4)])),
                ("2024-02", Json::Null),
            ]),
        ),
    ]);
    assert!(can_be_summed(&report));
    assert_eq!(
        provider_diagnostics(&vec![("p".to_string(), report)]),
        vec![
            "p",
            "  sessions scanned: 2",
            "  unknown field paths: 3 distinct (7 records)",
            "  reasoning summary availability by month (with/total):",
            "    2024-01: 4/10",
        ]
    );
    let huge = object(vec![(
        "unknown_field_paths",
        object(vec![("x", number(u64::MAX)), ("y", number(1))]),
    )]);
    assert!(!can_be_summed(&huge));
    let failed = object(vec![("error", Json::Text("broken".to_string()))]);
    assert_eq!(provider_diagnostics(&vec![("q".to_string(), failed)]), vec!["q", "  broken"]);
}

#[test]
fn the_guide_has_a_page_for_each_topic() {
    let ask = |topic, verbose| QuickstartArgs { topic, verbose };
    let pages = quickstart::show_text(&ask(QuickstartTopic::All, false), &host());
    assert_eq!(pages.len(), 13);
    assert!(pages[0].starts_with("\nHELPER-SNATCH: Getting Started in 5 Minutes\n"));
    assert!(pages[0].contains("analyzes your Helper Code conversations with"));
    assert_eq!(pages[1], format!("\n{}\n", "=".repeat(60)));
    let tui = quickstart::show_text(&ask(QuickstartTopic::Tui, true), &host());
    assert_eq!(tui.len(), 2);
    assert!(tui[1].contains("EXPORT DIALOG"));
    let flows = quickstart::show_text(&ask(QuickstartTopic::Workflows, true), &host());
    assert!(flows[1].contains("snexport() { snatch export \"$1\" -O \"${2:-conversation.md}\"; }"));
    assert_eq!(topic_title(QuickstartTopic::Stats), "Usage Statistics");
    assert_eq!(topic_examples(QuickstartTopic::Overview, true).len(), 5);
    match quickstart::run(OutputFormat::Json, &ask(QuickstartTopic::Tui, false), &host()) {
        QuickstartOutput::Value(v) => assert_eq!(
            json::render(&v),
            "[{\"topic\":\"tui\",\"title\":\"Interactive TUI Browser\",\
             \"examples\":[\"snatch tui\",\"snatch tui --session <id>\"]}]"
        ),
        other => panic!("{other:?}"),
    }
}
