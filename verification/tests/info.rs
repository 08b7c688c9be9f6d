use snatch::commands::info::{
    compact_session, directory_json, project_json, session_json, DirectorySummary, ProjectCounts,
    ProjectSummary, SessionNumbers, SessionSummary,
};
use snatch::commands::list::SessionMeta;
use snatch::json;

fn nanos(time: &str) -> i128 {
    chrono::DateTime::parse_from_rfc3339(time).unwrap().timestamp_nanos_opt().unwrap() as i128
}

fn summary() -> SessionSummary {
    SessionSummary {
        session_id: "abc123".to_string(),
        project_path: "/home/user/project".to_string(),
        is_subagent: false,
        parent_session_id: None,
        file_size: 1024,
        file_size_human: "1 KB".to_string(),
        entry_count: 50,
        message_count: 25,
        compaction_count: 2,
        started: Some(nanos("2025-01-01T00:00:00Z")),
        ended: Some(nanos("2025-01-01T01:00:00Z")),
        duration: Some("1 hour".to_string()),
        state: "Complete".to_string(),
        is_active: false,
        version: Some("2.0.74".to_string()),
        path: "/home/user/.helper/projects/abc123.jsonl".to_string(),
        tool_result_count: 0,
        tool_result_size: String::new(),
        meta: Some(SessionMeta {
            name: Some("My Session".to_string()),
            tags: vec!["feature".to_string(), "urgent".to_string()],
            bookmarked: true,
            outcome: Some("success".to_string()),
        }),
    }
}

#[test]
fn test_session_info_output_serialization() {
    let numbers = SessionNumbers {
        user_messages: Some(12),
        assistant_messages: Some(13),
        primary_model: Some("helper-sonnet-4-20250514".to_string()),
        tools_summary: Some(vec![("Read".to_string(), 5), ("Edit".to_string(), 3)]),
        estimated_cost: Some("0.42".to_string()),
        input_tokens: Some(50000),
        output_tokens: Some(10000),
        files_modified: Some(vec!["src/main.rs".to_string()]),
        files_created: None,
        lines_added: Some(100),
        lines_removed: Some(20),
    };
    let json = json::render(&session_json(&summary(), &numbers));
    assert!(json.contains("\"session_id\":\"abc123\""));
    assert!(json.contains("\"is_subagent\":false"));
    assert!(json.contains("\"entry_count\":50"));
    assert!(json.contains("\"version\":\"2.0.74\""));
    assert!(json.contains("\"name\":\"My Session\""));
    assert!(json.contains("\"tags\":[\"feature\",\"urgent\"]"));
    assert!(json.contains("\"bookmarked\":true"));
    assert!(json.contains("\"outcome\":\"success\""));
    assert!(json.contains("\"user_messages\":12"));
    assert!(json.contains("\"primary_model\":\"helper-sonnet-4-20250514\""));
    assert!(json.contains("\"estimated_cost\":0.42"));
    assert!(json.contains("\"lines_added\":100"));
}

#[test]
fn test_project_info_output_serialization() {
    let project = ProjectSummary {
        path: "/home/user/project".to_string(),
        encoded_name: "encoded_project".to_string(),
        directory: String::new(),
        sessions: vec![],
        size_shown: "1 MB".to_string(),
    };
    let counts = ProjectCounts { sessions: 10, main: 8, subagents: 2, total_size: 1024 * 1024 };
    let json = json::render(&project_json(&project, &counts));
    assert!(json.contains("\"path\":\"/home/user/project\""));
    assert!(json.contains("\"session_count\":10"));
    assert!(json.contains("\"main_sessions\":8"));
    assert!(json.contains("\"subagent_sessions\":2"));
}

#[test]
fn test_directory_info_output_serialization() {
    let directory = DirectorySummary {
        root: "/home/user/.helper".to_string(),
        project_count: 5,
        session_count: 20,
        subagent_count: 10,
        total_size: 10 * 1024 * 1024,
        size_shown: "10 MB".to_string(),
        has_file_history: true,
        backup_file_count: 100,
        projects_dir: String::new(),
        file_history_dir: String::new(),
        settings_path: String::new(),
        claude_md_path: String::new(),
        mcp_config_path: String::new(),
    };
    let json = json::render(&directory_json(&directory));
    assert!(json.contains("\"root_path\":\"/home/user/.helper\""));
    assert!(json.contains("\"project_count\":5"));
    assert!(json.contains("\"has_file_history\":true"));
    assert!(json.contains("\"backup_file_count\":100"));
}

#[test]
fn test_session_info_output_with_nulls() {
    let session = SessionSummary {
        session_id: "test".to_string(),
        project_path: "project".to_string(),
        is_subagent: true,
        parent_session_id: Some("parent-uuid".to_string()),
        file_size: 0,
        file_size_human: "0 B".to_string(),
        entry_count: 0,
        message_count: 0,
        compaction_count: 0,
        started: None,
        ended: None,
        duration: None,
        state: "Unknown".to_string(),
        is_active: false,
        version: None,
        path: "/test".to_string(),
        tool_result_count: 0,
        tool_result_size: String::new(),
        meta: None,
    };
    let numbers = SessionNumbers {
        user_messages: None,
        assistant_messages: None,
        primary_model: None,
        tools_summary: None,
        estimated_cost: None,
        input_tokens: None,
        output_tokens: None,
        files_modified: None,
        files_created: None,
        lines_added: None,
        lines_removed: None,
    };
    let json = json::render(&session_json(&session, &numbers));
    assert!(json.contains("\"is_subagent\":true"));
    assert!(json.contains("\"start_time\":null"));
    assert!(json.contains("\"version\":null"));
    assert!(!json.contains("\"name\""));
    assert!(!json.contains("\"tags\""));
    assert!(!json.contains("\"bookmarked\""));
    assert!(!json.contains("\"outcome\""));
    assert!(!json.contains("\"user_messages\""));
    assert!(!json.contains("\"tools_summary\""));
    assert!(!json.contains("\"estimated_cost\""));
    assert!(!json.contains("\"files_modified\""));
}

#[test]
fn a_session_fits_on_a_short_line() {
    assert_eq!(compact_session(&summary()), "abc123:50:1 KB");
}
