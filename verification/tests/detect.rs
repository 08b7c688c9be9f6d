use snatch::commands::detect::{
    check_topic, decisions_to_record, effective_limit, output_json, output_text, print_dry_run,
    registered_line, run, shows_progress, title_to_record, CandidateDecision, DetectPlan,
    DetectionMethod,
};
use snatch::error::SnatchError;
use snatch::json;

fn candidate(method: DetectionMethod) -> CandidateDecision {
    CandidateDecision {
        timestamp: 1_735_034_400_000_000_000,
        session_id: "abcdefgh-1".to_string(),
        short_id: "abcdefgh".to_string(),
        entry_uuid: "u".to_string(),
        detection_method: method,
        method_shown: "marker".to_string(),
        confidence: "0.75".to_string(),
        confidence_percent: 75,
        confidence_shown: "75".to_string(),
        question: "Which database?".to_string(),
        response: "We use sqlite.".to_string(),
        confirmation: None,
        decision_sentence: Some(" We use sqlite...... ".to_string()),
        first_prose_line: None,
    }
}

#[test]
fn titles_lose_their_dots() {
    let mut c = candidate(DetectionMethod::ExplicitMarker);
    c.decision_sentence = Some("We use sqlite......".to_string());
    assert_eq!(title_to_record(&c), Some("We use sqlite".to_string()));
    assert_eq!(
        title_to_record(&c).unwrap(),
        "We use sqlite......".trim_end_matches("...").trim()
    );
    c.decision_sentence = Some("......".to_string());
    assert_eq!(title_to_record(&c), None);
    c.decision_sentence = None;
    assert_eq!(title_to_record(&c), Some("Which database?".to_string()));
    c.first_prose_line = Some("First.".to_string());
    assert_eq!(title_to_record(&c), Some("First.".to_string()));
}

#[test]
fn only_decisions_are_recorded() {
    assert_eq!(title_to_record(&candidate(DetectionMethod::Reversal)), None);
    let mut c = candidate(DetectionMethod::Exchange);
    assert_eq!(title_to_record(&c), None);
    c.confirmation = Some("yes".to_string());
    assert!(title_to_record(&c).is_some());
    c.question = "THIS session is being continued from".to_string();
    assert_eq!(title_to_record(&c), None);
    c.question = " ".to_string();
    assert_eq!(title_to_record(&c), None);
    c.question = "q".to_string();
    c.response = "\n".to_string();
    assert_eq!(title_to_record(&c), None);
}

#[test]
fn recorded_decisions_keep_the_order_of_candidates() {
    let mut long = candidate(DetectionMethod::ExplicitMarker);
    long.response = "x".repeat(600);
    let recorded = decisions_to_record(&vec![
        candidate(DetectionMethod::Reversal),
        long,
        candidate(DetectionMethod::ExplicitMarker),
    ]);
    assert_eq!(recorded.len(), 2);
    assert_eq!(recorded[0].description, format!("{}...", "x".repeat(500)));
    assert_eq!(recorded[1].description, "We use sqlite.");
    assert_eq!(recorded[1].confidence, "0.75");
}

#[test]
fn detection_needs_a_project_to_record() {
    assert_eq!(run(0, false, true, false, &None), Ok(DetectPlan::Nothing(true)));
    assert_eq!(run(2, false, false, false, &None), Ok(DetectPlan::Show));
    assert_eq!(
        run(2, false, true, false, &None),
        Err(SnatchError::InvalidArgument {
            name: "project".to_string(),
            reason: "--project is required with --register".to_string(),
        })
    );
    assert_eq!(
        run(2, false, true, true, &Some("p".to_string())),
        Ok(DetectPlan::DryRun("p".to_string()))
    );
    assert_eq!(effective_limit(5, true), usize::MAX);
    assert!(shows_progress(11, true, false) && !shows_progress(10, true, false));
}

#[test]
fn topics_must_compile() {
    assert!(check_topic(&None).is_ok());
    assert!(check_topic(&Some("data.*base".to_string())).is_ok());
    let reason = regex::Regex::new("[").unwrap_err().to_string();
    assert_eq!(
        check_topic(&Some("[".to_string())),
        Err(SnatchError::InvalidArgument {
            name: "topic".to_string(),
            reason: format!("Invalid topic regex: {reason}"),
        })
    );
}

#[test]
fn candidates_are_shown_one_after_another() {
    let mut second = candidate(DetectionMethod::Exchange);
    second.confirmation = Some("ok".to_string());
    let list = vec![candidate(DetectionMethod::ExplicitMarker), second];
    let lines = output_text(&list, false);
    assert_eq!(lines[0], "Detected 2 candidate decisions:\n");
    assert_eq!(lines[1], "  [ 75%] [DEF] 2024-12-24 10:00 | abcdefgh | marker");
    assert_eq!(lines[3], "    Q: Which database?");
    assert_eq!(lines.iter().filter(|l| l.contains("───")).count(), 1);
    assert!(lines.contains(&"    CONFIRMED: ok".to_string()));
    assert_eq!(lines.last().unwrap(), "");
    assert_eq!(output_text(&vec![], true), vec![""]);
    let one = json::render(&output_json(&list[..1].to_vec()));
    assert!(one.starts_with("[{\"timestamp\":\"2024-12-24T10:00:00+00:00\""));
    assert!(one.contains("\"confidence\":0.75") && !one.contains("confirmation"));
}

#[test]
fn dry_runs_name_what_they_would_record() {
    let lines = print_dry_run(&vec![
        candidate(DetectionMethod::ExplicitMarker),
        candidate(DetectionMethod::Reversal),
    ]);
    assert_eq!(lines.len(), 3);
    assert_eq!(lines[1], "            session: abcdefgh | confidence: 75%");
    assert_eq!(registered_line(1, true), "Would register 1 decision(s) (dry run).");
    assert_eq!(registered_line(2, false), "Registered 2 decision(s) to the registry.");
}
