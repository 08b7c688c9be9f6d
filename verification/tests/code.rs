use snatch::commands::cleanup;
use snatch::commands::code::{
    block_file_name, choose_blocks, code_json, extract_code_from_conversation, find_session,
    language_to_extension, print_code, safe_session_prefix, take_first_line, CodeBlock, CodeEntry,
    CodeQuery, CodeStyle,
};
use snatch::commands::OutputFormat;
use snatch::error::SnatchError;
use snatch::json;

#[test]
fn cleanup_test_short_id() {
    assert_eq!(cleanup::short_id("40afc8a7-3fcb-4d29-b1ee-100b81b8c6c0"), "40afc8a7");
    assert_eq!(cleanup::short_id("short"), "short");
    assert_eq!(cleanup::short_id("12345678"), "12345678");
}

#[test]
fn test_language_to_extension() {
    assert_eq!(language_to_extension(Some("rust")), "rs");
    assert_eq!(language_to_extension(Some("Rust")), "rs");
    assert_eq!(language_to_extension(Some("python")), "py");
    assert_eq!(language_to_extension(Some("javascript")), "js");
    assert_eq!(language_to_extension(Some("typescript")), "ts");
    assert_eq!(language_to_extension(None), "txt");
    assert_eq!(language_to_extension(Some("unknown")), "txt");
}

#[test]
fn provider_native_ids_make_safe_file_prefixes() {
    assert_eq!(safe_session_prefix("aaaaaaaa-bbbb"), "aaaaaaaa");
    assert_eq!(safe_session_prefix("../evil/session"), "evilsess");
    assert_eq!(safe_session_prefix("💥/../"), "session");
}

#[test]
fn safe_prefixes_hold_only_letters_digits_and_signs() {
    for id in ["a b\tc", "x/../../y", "", "日本語abc", "0123456789"] {
        let prefix = safe_session_prefix(id);
        assert!(!prefix.is_empty());
        assert!(prefix.len() <= 8);
        assert!(!prefix.contains('/') && !prefix.contains('.'));
    }
}

#[test]
fn the_first_line_ends_before_the_break() {
    assert_eq!(take_first_line("one\r\ntwo"), "one");
    assert_eq!(take_first_line(""), "");
    assert_eq!(take_first_line("\nrest"), "");
}

fn block(language: &str, code: &str) -> CodeBlock {
    CodeBlock { language: Some(language.to_string()), code: code.to_string() }
}

fn conversation() -> Vec<CodeEntry> {
    vec![
        CodeEntry::User { is_human: true, timestamp: Some(0), blocks: vec![block("Rust", "a\nb")] },
        CodeEntry::User { is_human: false, timestamp: None, blocks: vec![block("x", "no")] },
        CodeEntry::Other,
        CodeEntry::Assistant {
            timestamp: None,
            blocks: vec![block("sh", "ls"), CodeBlock { language: None, code: "z".to_string() }],
        },
    ]
}

fn query() -> CodeQuery {
    CodeQuery {
        assistant_only: false,
        user_only: false,
        provider: None,
        qualified_id: Some("p:q".to_string()),
    }
}

#[test]
fn blocks_are_numbered_over_the_conversation() {
    let all = extract_code_from_conversation(&conversation(), &query());
    let found: Vec<_> = all.iter().map(|c| (c.index, c.source.as_str(), c.code.as_str())).collect();
    assert_eq!(found, [(0, "user", "a\nb"), (1, "assistant", "ls"), (2, "assistant", "z")]);
    let user = extract_code_from_conversation(
        &conversation(),
        &CodeQuery { user_only: true, ..query() },
    );
    assert_eq!(user.len(), 1);
    assert_eq!(choose_blocks(all.clone(), &Some("RUS".to_string()), None).len(), 1);
    assert_eq!(choose_blocks(all, &None, Some(2)).len(), 2);
}

#[test]
fn blocks_are_printed_in_each_form() {
    let all = extract_code_from_conversation(&conversation(), &query());
    let style = CodeStyle { metadata: true, concatenate: false, files: false };
    assert_eq!(
        print_code(&all, style, OutputFormat::Tsv),
        vec![
            "index\tlanguage\tsource\ttimestamp\tcode_preview",
            "0\tRust\tuser\t1970-01-01 00:00\ta",
            "1\tsh\tassistant\t-\tls",
            "2\t-\tassistant\t-\tz",
        ]
    );
    let lines = print_code(&all, style, OutputFormat::Text);
    assert_eq!(lines[3], "Timestamp: 1970-01-01 00:00:00");
    assert_eq!(lines[4], "Lines: 2");
    let plain = CodeStyle { metadata: false, concatenate: true, files: false };
    assert_eq!(print_code(&all, plain, OutputFormat::Text), vec!["a\nb", "", "ls", "", "z"]);
    assert_eq!(
        json::render(&code_json(&all[..1].to_vec())),
        "[{\"language\":\"Rust\",\"code\":\"a\\nb\",\"source\":\"user\",\
         \"timestamp\":\"1970-01-01T00:00:00Z\",\"index\":0,\"qualified_id\":\"p:q\"}]"
    );
    assert_eq!(block_file_name("abcdefghij", &all[0]), "abcdefgh_block_000.rs");
}

#[test]
fn sessions_of_code_are_found_by_their_beginning() {
    let ids = vec!["abc".to_string(), "abd".to_string()];
    assert_eq!(find_session(&ids, "abd"), Ok(1));
    assert!(matches!(
        find_session(&ids, "x"),
        Err(SnatchError::SessionNotFound { session_id }) if session_id == "x"
    ));
}
