use snatch::commands::diff::{
    compare_conversations, truncate_line, ComparisonEntry, Conversation, ConversationDiff,
    EntryKind,
};
use snatch::json::Json;

fn text(s: &str) -> Json {
    Json::Text(s.to_string())
}

fn object(fields: Vec<(&str, Json)>) -> Json {
    Json::Object(fields.into_iter().map(|(name, value)| (name.to_string(), value)).collect())
}

fn entry(kind: EntryKind, message_type: &str, id: Option<&str>, value: Json) -> ComparisonEntry {
    ComparisonEntry {
        kind,
        message_type: message_type.to_string(),
        message_id: id.map(|s| s.to_string()),
        value,
        semantics: None,
        human_prompt: true,
    }
}

fn user_entry(
    uuid: &str,
    parent: Option<&str>,
    session: &str,
    timestamp: &str,
    content: &str,
) -> ComparisonEntry {
    entry(
        EntryKind::User,
        "user",
        None,
        object(vec![
            ("type", text("user")),
            ("uuid", text(uuid)),
            ("parentUuid", parent.map_or(Json::Null, text)),
            ("timestamp", text(timestamp)),
            ("sessionId", text(session)),
            ("version", text("2.1.0")),
            ("message", object(vec![("role", text("user")), ("content", text(content))])),
        ]),
    )
}

fn conversation(texts: &[&str], identity_prefix: &str) -> Conversation {
    let mut parent: Option<String> = None;
    let mut entries = Vec::new();
    for (index, content) in texts.iter().enumerate() {
        let uuid = format!("{identity_prefix}-{index}");
        entries.push(user_entry(
            &uuid,
            parent.as_deref(),
            identity_prefix,
            &format!("2026-01-01T00:00:{index:02}Z"),
            content,
        ));
        parent = Some(uuid);
    }
    of_entries(entries)
}

fn of_entries(entries: Vec<ComparisonEntry>) -> Conversation {
    Conversation { entries, branch_count: 0 }
}

#[test]
fn test_conversation_diff_identical() {
    let diff = ConversationDiff {
        added_messages: 0,
        removed_messages: 0,
        ..Default::default()
    };
    assert!(diff.is_identical());
}

#[test]
fn test_conversation_diff_different() {
    let diff = ConversationDiff {
        added_messages: 1,
        removed_messages: 0,
        ..Default::default()
    };
    assert!(!diff.is_identical());
}

#[test]
fn test_compare_conversations_dedups_streaming_chunks() {
    let chunk = |uuid: &str, parent: &str, msg_id: &str| {
        entry(
            EntryKind::Assistant,
            "assistant",
            Some(msg_id),
            object(vec![
                ("type", text("assistant")),
                ("uuid", text(uuid)),
                ("parentUuid", text(parent)),
                ("timestamp", text("2026-01-01T00:00:00Z")),
                ("sessionId", text("s")),
                ("version", text("2.1.0")),
                ("isSidechain", Json::Bool(false)),
                (
                    "message",
                    object(vec![
                        ("id", text(msg_id)),
                        ("type", text("message")),
                        ("role", text("assistant")),
                        ("model", text("m")),
                        (
                            "content",
                            Json::Array(vec![object(vec![
                                ("type", text("text")),
                                ("text", text("x")),
                            ])]),
                        ),
                    ]),
                ),
            ]),
        )
    };
    let conv = of_entries(vec![
        chunk("c1", "root", "msg_A"),
        chunk("c2", "c1", "msg_A"),
        chunk("c3", "c2", "msg_B"),
    ]);
    let diff = compare_conversations(&conv, &conv);

    // 3 chunk nodes, 2 distinct turns.
    assert_eq!(diff.first_assistant_count, 2);
    assert_eq!(diff.second_assistant_count, 2);
}

#[test]
fn semantic_diff_ignores_transport_identity() {
    let first = conversation(&["same prompt", "same answer"], "session-a");
    let second = conversation(&["same prompt", "same answer"], "session-b");

    let diff = compare_conversations(&first, &second);
    assert!(diff.is_identical());
    assert_eq!(diff.common_messages, 2);
    assert_eq!(diff.added_messages, 0);
    assert_eq!(diff.removed_messages, 0);
}

#[test]
fn semantic_diff_counts_repeated_emissions_independently() {
    let first = conversation(&["repeat", "repeat", "tail"], "session-a");
    let second = conversation(&["repeat", "tail"], "session-b");

    let diff = compare_conversations(&first, &second);
    assert!(!diff.is_identical());
    assert_eq!(diff.common_messages, 2);
    assert_eq!(diff.removed_messages, 1);
    assert_eq!(diff.added_messages, 0);
}

#[test]
fn semantic_diff_treats_reordering_as_a_change() {
    let first = conversation(&["one", "two"], "session-a");
    let second = conversation(&["two", "one"], "session-b");

    let diff = compare_conversations(&first, &second);
    assert!(!diff.is_identical());
    assert_eq!(diff.common_messages, 1);
    assert_eq!(diff.removed_messages, 1);
    assert_eq!(diff.added_messages, 1);
}

#[test]
fn semantic_diff_includes_uuidless_summary_entries() {
    let summary = |content: &str, leaf: &str| {
        entry(
            EntryKind::Summary,
            "summary",
            None,
            object(vec![
                ("type", text("summary")),
                ("summary", text(content)),
                ("leafUuid", text(leaf)),
            ]),
        )
    };
    let first = of_entries(vec![summary("same summary", "native-a")]);
    let second = of_entries(vec![summary("same summary", "native-b")]);
    assert!(compare_conversations(&first, &second).is_identical());

    let changed = of_entries(vec![summary("changed summary", "native-c")]);
    assert!(!compare_conversations(&first, &changed).is_identical());
}

#[test]
fn semantic_diff_ignores_model_usage_and_native_tool_ids() {
    let assistant = |uuid: &str,
                     session: &str,
                     model: &str,
                     tool_id: &str,
                     tool_name: &str,
                     input_id: &str,
                     tokens: u64| {
        let id = format!("message-{uuid}");
        entry(
            EntryKind::Assistant,
            "assistant",
            Some(&id),
            object(vec![
                ("type", text("assistant")),
                ("uuid", text(uuid)),
                ("parentUuid", Json::Null),
                ("timestamp", text("2026-01-01T00:00:00Z")),
                ("sessionId", text(session)),
                ("version", text("2.1.0")),
                (
                    "message",
                    object(vec![
                        ("id", text(&id)),
                        ("type", text("message")),
                        ("role", text("assistant")),
                        ("model", text(model)),
                        (
                            "usage",
                            object(vec![
                                ("input_tokens", Json::Number(tokens.to_string())),
                                ("output_tokens", Json::Number(tokens.to_string())),
                            ]),
                        ),
                        (
                            "content",
                            Json::Array(vec![object(vec![
                                ("type", text("tool_use")),
                                ("id", text(tool_id)),
                                ("name", text(tool_name)),
                                (
                                    "input",
                                    object(vec![
                                        ("file_path", text("src/lib.rs")),
                                        ("id", text(input_id)),
                                    ]),
                                ),
                            ])]),
                        ),
                    ]),
                ),
            ]),
        )
    };
    let first = of_entries(vec![assistant(
        "a",
        "session-a",
        "model-a",
        "call-a",
        "Read",
        "user-supplied",
        10,
    )]);
    let second = of_entries(vec![assistant(
        "b",
        "session-b",
        "model-b",
        "call-b",
        "read_file",
        "user-supplied",
        999,
    )]);

    let diff = compare_conversations(&first, &second);
    assert!(diff.is_identical());
    assert_eq!(diff.common_messages, 1);

    let changed_input = of_entries(vec![assistant(
        "c",
        "session-c",
        "model-c",
        "call-c",
        "Read",
        "different-user-input",
        10,
    )]);
    assert!(!compare_conversations(&first, &changed_input).is_identical());
}

#[test]
fn test_truncate_line_short() {
    assert_eq!(truncate_line("hello", 10), "hello");
}

#[test]
fn test_truncate_line_long() {
    assert_eq!(truncate_line("hello world this is a long line", 15), "hello world ...");
}
