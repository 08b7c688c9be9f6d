use snatch::commands::pick::{
    collect_provider_candidates, format_provider_session_item, format_session_item, ItemTexts,
    PickProject, PickSession, ProviderPickCandidate,
};
use snatch::model::Session;
use snatch::provider::LogicalSessionKey;
use std::collections::BTreeSet;

fn key(namespace: &str, native_id: &str) -> LogicalSessionKey {
    LogicalSessionKey {
        provider: "fake".to_string(),
        namespace: namespace.to_string(),
        native_id: native_id.to_string(),
        qualified: if namespace.is_empty() {
            format!("fake:{native_id}")
        } else {
            format!("fake:{namespace}/{native_id}")
        },
    }
}

fn texts() -> ItemTexts {
    ItemTexts { project: "/work/example".to_string(), scaled: "1.0".to_string() }
}

#[test]
fn test_format_session_item_short() {
    let formatted = "12345678 | 2024-12-24 10:00 | /project (1.0KB)";
    assert!(formatted.contains("12345678"));
    let session = Session {
        session_id: "12345678".to_string(),
        project_path: "/project".to_string(),
        modified: 1_735_034_400_123_456_789,
        file_size: 1024,
        is_subagent: false,
        times: None,
    };
    let shown = ItemTexts {
        project: "/project".to_string(),
        scaled: "1.0".to_string(),
    };
    assert_eq!(format_session_item(&session, &shown, true), formatted);
}

fn pick_session(namespace: &str, native_id: &str) -> PickSession {
    PickSession {
        key: key(namespace, native_id),
        modified_at: None,
        ended_at: None,
        started_at: None,
        cwd: None,
        artifact_bytes: 0,
        artifact_count: 1,
    }
}

#[test]
fn provider_candidates_are_qualified_deterministic_and_globally_limited() {
    let projects = vec![PickProject {
        label: "/work".to_string(),
        is_wanted: true,
        sessions: vec![pick_session("two", "same"), pick_session("one", "same")],
    }];
    let all = collect_provider_candidates(&projects, &vec![], false, 10);
    assert_eq!(all.len(), 2);
    assert!(all.windows(2).all(|pair| pair[0].key.qualified < pair[1].key.qualified));
    assert!(all.iter().all(|candidate| candidate.key.qualified.starts_with("fake:")));
    let labels: BTreeSet<_> = all
        .iter()
        .map(|candidate| format_provider_session_item(candidate, &texts(), false))
        .collect();
    assert_eq!(labels.len(), 2, "namespace collisions must stay visible");
    let limited = collect_provider_candidates(&projects, &vec![], false, 1);
    assert_eq!(limited.len(), 1);
    assert_eq!(limited[0].key, all[0].key);
}

#[test]
fn provider_picker_display_is_unicode_safe() {
    let candidate = ProviderPickCandidate {
        key: key("", "ééééééééééééé"),
        modified_at: None,
        project: "/work/example".to_string(),
        spawned: false,
        artifact_bytes: Some(12),
        artifact_count: 2,
    };
    let rendered = format_provider_session_item(&candidate, &texts(), true);
    assert!(rendered.starts_with(&candidate.key.qualified));
    assert!(rendered.contains("2 artifacts"));
}
