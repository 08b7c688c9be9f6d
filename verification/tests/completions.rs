use snatch::commands::completions::{
    complete_formats, complete_models, complete_projects, complete_sessions, complete_tools, run,
    CompletionSource, CompletionType, DynamicCompletionsArgs,
};
use snatch::host::{Host, Model};
use snatch::model::{AssistantEntry, ContentBlock, LogEntry, Project, Session, ToolUse};

fn model(name: &str, what: &str) -> Model {
    Model { name: name.to_string(), what: what.to_string() }
}

fn host() -> Host {
    Host {
        name: "Helper Code".to_string(),
        brand: "Helper".to_string(),
        provider: "helper-code".to_string(),
        instructions: "HELPER.md".to_string(),
        title: "HELPER-SNATCH".to_string(),
        models: vec![
            model("helper-3-opus", "Most capable model"),
            model("helper-3-sonnet", "Balanced model"),
            model("helper-3-haiku", "Fastest model"),
            model("helper-3.5-sonnet", "Latest Sonnet"),
            model("helper-3.5-haiku", "Latest Haiku"),
        ],
    }
}

fn session(id: &str, project: &str) -> Session {
    Session {
        session_id: id.to_string(),
        project_path: project.to_string(),
        modified: 0,
        file_size: 0,
        is_subagent: false,
        times: None,
    }
}

#[test]
fn test_completion_type_from_str() {
    assert_eq!("sessions".parse::<CompletionType>().unwrap(), CompletionType::Sessions);
    assert_eq!("s".parse::<CompletionType>().unwrap(), CompletionType::Sessions);
    assert_eq!("projects".parse::<CompletionType>().unwrap(), CompletionType::Projects);
    assert_eq!("tools".parse::<CompletionType>().unwrap(), CompletionType::Tools);
    assert_eq!("formats".parse::<CompletionType>().unwrap(), CompletionType::Formats);
    assert_eq!("models".parse::<CompletionType>().unwrap(), CompletionType::Models);
}

#[test]
fn test_completion_type_invalid() {
    assert!("invalid".parse::<CompletionType>().is_err());
}

#[test]
fn test_complete_formats() {
    assert_eq!(complete_formats(&None).len(), 4);
    assert_eq!(complete_formats(&Some("j".to_string())), vec!["json\tJSON format"]);
}

#[test]
fn test_complete_models() {
    assert_eq!(complete_models(&host(), &None).len(), 5);
    assert_eq!(
        complete_models(&host(), &Some("sonnet".to_string())),
        vec!["helper-3-sonnet\tBalanced model", "helper-3.5-sonnet\tLatest Sonnet"]
    );
}

#[test]
fn words_for_types_ignore_case() {
    assert_eq!(CompletionType::parse_word("TOOL"), Ok(CompletionType::Tools));
    assert_eq!(
        CompletionType::parse_word("Nope"),
        Err("unknown completion type: Nope".to_string())
    );
    assert_eq!(complete_formats(&Some("TS".to_string())), vec!["tsv\tTab-separated values"]);
}

#[test]
fn sessions_complete_by_the_beginning_of_their_ids() {
    let long = "/a/very/long/path/that/does/not/fit/in/thirty";
    let sessions = vec![session("abc1", "/p"), session("xyz1", "/q"), session("abc2", long)];
    let found = complete_sessions(&sessions, &Some("abc".to_string()), None);
    assert_eq!(found.len(), 2);
    assert_eq!(found[0], "abc1\t/p");
    assert_eq!(found[1], format!("abc2\t...{}", &long[long.len() - 27..]));
}

#[test]
fn a_limit_of_nought_still_gives_one() {
    let sessions = vec![session("a", "/p"), session("b", "/q")];
    assert_eq!(complete_sessions(&sessions, &None, Some(0)), vec!["a\t/p"]);
    assert_eq!(complete_sessions(&sessions, &None, Some(1)), vec!["a\t/p"]);
    assert!(complete_sessions(&vec![], &None, Some(0)).is_empty());
}

#[test]
fn projects_complete_by_any_part_of_their_path() {
    let project = Project {
        decoded_path: "/Home/Work".to_string(),
        encoded_name: "x".to_string(),
        best_path: "/Home/Work".to_string(),
    };
    let found = complete_projects(&vec![(project, 3)], &Some("WORK".to_string()), None);
    assert_eq!(found, vec!["/Home/Work\t3 sessions"]);
}

#[test]
fn no_messages_give_no_tools() {
    assert!(complete_tools(&vec![], &None, None, &host()).is_empty());
    let args = DynamicCompletionsArgs {
        completion_type: CompletionType::Models,
        prefix: Some("opus".to_string()),
        limit: None,
    };
    assert_eq!(
        run(&args, &CompletionSource::Nothing, &host()),
        vec!["helper-3-opus\tMost capable model"]
    );
}

fn calls(names: &[&str]) -> LogEntry {
    LogEntry::Assistant(AssistantEntry {
        is_sidechain: false,
        content: names
            .iter()
            .map(|name| {
                ContentBlock::ToolUse(ToolUse {
                    id: "id".to_string(),
                    name: name.to_string(),
                    input: snatch::json::Json::Null,
                })
            })
            .collect(),
    })
}

#[test]
fn tools_are_listed_in_order_and_once() {
    let entries = vec![calls(&["Read", "Bash"]), calls(&["Read", "Edit"])];
    assert_eq!(
        complete_tools(&entries, &None, None, &host()),
        vec!["Bash\tHelper Code tool", "Edit\tHelper Code tool", "Read\tHelper Code tool"]
    );
    assert_eq!(
        complete_tools(&entries, &Some("RE".to_string()), None, &host()),
        vec!["Read\tHelper Code tool"]
    );
    assert_eq!(complete_tools(&entries, &None, Some(0), &host()).len(), 1);
    assert_eq!(
        complete_tools(&entries, &None, Some(2), &host()),
        vec!["Bash\tHelper Code tool", "Read\tHelper Code tool"]
    );
}
