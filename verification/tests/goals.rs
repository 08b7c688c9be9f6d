use snatch::commands::goals::{
    self, change_json, find_goal, print_goals, resolve_project, updated_line, Goal, GoalChange,
    GoalStatus, GoalStatusWord, GoalsArgs, GoalsPlan,
};
use snatch::commands::notes::{self, print_notes, Note, NoteChange, NotesArgs, NotesPlan};
use snatch::error::SnatchError;
use snatch::json;
use snatch::model::Project;

fn goal(id: u64, status: GoalStatus, progress: Option<&str>) -> Goal {
    Goal {
        id,
        text: format!("goal {id}"),
        status,
        status_shown: "open".to_string(),
        created_at: 0,
        updated_at: 1_500_000_000,
        progress: progress.map(|s| s.to_string()),
    }
}

fn args(operation: Option<&str>) -> GoalsArgs {
    GoalsArgs {
        operation: operation.map(|s| s.to_string()),
        project: None,
        id: None,
        text: None,
        status: None,
        progress: None,
    }
}

fn refused(r: Result<GoalsPlan, SnatchError>) -> (String, String) {
    match r {
        Err(SnatchError::InvalidArgument { name, reason }) => (name, reason),
        other => panic!("{other:?}"),
    }
}

#[test]
fn goals_are_listed_by_default() {
    assert_eq!(goals::run(&args(None)), Ok(GoalsPlan::List));
    assert_eq!(refused(goals::run(&args(Some("add")))).0, "text");
    assert_eq!(refused(goals::run(&args(Some("remove")))).0, "id");
    assert_eq!(
        refused(goals::run(&args(Some("fly")))).1,
        "Unknown operation 'fly'. Use: list, add, update, remove"
    );
}

#[test]
fn goal_updates_need_something_to_change() {
    let mut a = args(Some("update"));
    assert_eq!(refused(goals::run(&a)).1, "--id is required for update operation");
    a.id = Some(3);
    assert_eq!(refused(goals::run(&a)).0, "update");
    a.status = Some(GoalStatusWord { word: "huge".to_string(), status: None });
    assert_eq!(
        refused(goals::run(&a)).1,
        "Invalid status 'huge'. Use: open, in_progress, done, abandoned"
    );
    a.status = Some(GoalStatusWord { word: "done".to_string(), status: Some(GoalStatus::Done) });
    assert_eq!(
        goals::run(&a),
        Ok(GoalsPlan::Update { id: 3, status: Some(GoalStatus::Done), progress: None })
    );
}

#[test]
fn goals_carry_their_marks() {
    let goals = vec![
        goal(1, GoalStatus::Open, None),
        goal(2, GoalStatus::InProgress, Some("half")),
        goal(3, GoalStatus::Done, None),
        goal(4, GoalStatus::Abandoned, None),
    ];
    assert_eq!(
        print_goals("/p", &goals, 2),
        vec![
            "Goals for /p:\n",
            "  [ ] #1: goal 1",
            "  [>] #2: goal 2 (half)",
            "  [x] #3: goal 3",
            "  [-] #4: goal 4",
            "\n4 goal(s), 2 active",
        ]
    );
    assert_eq!(print_goals("/p", &vec![], 0), vec!["No goals for /p."]);
    assert_eq!(find_goal(&goals, 3).unwrap().text, "goal 3");
    assert!(find_goal(&goals, 9).is_none());
    assert_eq!(updated_line(&goals[0]), "Updated goal #1: [open] goal 1");
}

#[test]
fn goal_changes_are_told_as_json() {
    let g = Some(goal(1, GoalStatus::Open, None));
    assert_eq!(
        json::render(&change_json("/p", GoalChange::Add, 1, &g)),
        "{\"operation\":\"add\",\"project_path\":\"/p\",\"message\":\"Added goal #1\",\
         \"goal\":{\"id\":1,\"text\":\"goal 1\",\"status\":\"open\",\"created_at\":\"1970-01-01T00:00:00+00:00\",\
         \"updated_at\":\"1970-01-01T00:00:01.500+00:00\"}}"
    );
    assert_eq!(
        json::render(&change_json("/p", GoalChange::Remove, 7, &None)),
        "{\"operation\":\"remove\",\"project_path\":\"/p\",\"message\":\"Removed goal #7\"}"
    );
}

#[test]
fn a_goal_belongs_to_the_only_matching_project() {
    let project = |path: &str| Project {
        decoded_path: path.to_string(),
        encoded_name: path.replace('/', "-"),
        best_path: path.to_string(),
    };
    let all = vec![project("/a/one"), project("/a/two")];
    let found = resolve_project(all.clone(), &Some("one".to_string())).unwrap();
    assert_eq!(found.decoded_path, "/a/one");
    assert_eq!(
        resolve_project(all.clone(), &None),
        Err(SnatchError::InvalidArgument {
            name: "project".to_string(),
            reason: "Ambiguous filter '' matches 2 projects: /a/one, /a/two".to_string(),
        })
    );
    assert_eq!(
        resolve_project(all, &Some("three".to_string())),
        Err(SnatchError::ProjectNotFound {
            project_path: "No project matching 'three'".to_string(),
        })
    );
}

#[test]
fn notes_are_shown_with_their_sessions() {
    let note = Note {
        id: 5,
        text: "hi".to_string(),
        created_at: 0,
        session_id: Some("0123456789".to_string()),
    };
    assert_eq!(
        print_notes("/p", &vec![note.clone()]),
        vec!["Notes for /p:\n", "  #5: hi [session:01234567]", "\n1 note(s)"]
    );
    assert_eq!(notes::change_line(NoteChange::Clear(4)), "Cleared 4 note(s)");
    assert_eq!(notes::added_line(5, "hi"), "Added note #5: hi");
    assert_eq!(
        json::render(&notes::change_json("/p", NoteChange::Add(5), &Some(note))),
        "{\"operation\":\"add\",\"project_path\":\"/p\",\"message\":\"Added note #5\",\
         \"note\":{\"id\":5,\"text\":\"hi\",\"created_at\":\"1970-01-01T00:00:00+00:00\",\"session_id\":\"0123456789\"}}"
    );
}

#[test]
fn note_requests_are_checked() {
    let mut a = NotesArgs {
        operation: Some("clear".to_string()),
        project: None,
        id: Some(2),
        text: None,
        session_id: None,
    };
    assert_eq!(notes::run(&a), Ok(NotesPlan::Clear));
    a.operation = Some("remove".to_string());
    assert_eq!(notes::run(&a), Ok(NotesPlan::Remove { id: 2 }));
    a.operation = Some("add".to_string());
    assert!(notes::run(&a).is_err());
    a.operation = Some("update".to_string());
    assert_eq!(
        notes::run(&a),
        Err(SnatchError::InvalidArgument {
            name: "operation".to_string(),
            reason: "Unknown operation 'update'. Use: list, add, remove, clear".to_string(),
        })
    );
}
