//! The goals of a project: what is asked for, and what is shown.
use vstd::prelude::*;

use crate::commands::helpers::{is_only_project, mentioning, only_project};
use crate::error::{invalid, invalid_argument, SnatchError};
use crate::json;
use crate::json::{fields_view, given_text, number_json, time_json, Json, JsonView};
use crate::model::Project;
use crate::order;
use crate::provider::copy_text;
use crate::text;
use crate::text::{decimal, views};

verus! {

/// How far a goal is.
#[derive(Debug, Clone, Copy, PartialEq, Eq, Structural)]
pub enum GoalStatus {
    /// Not begun.
    Open,
    /// Begun.
    InProgress,
    /// Reached.
    Done,
    /// Given up.
    Abandoned,
}

/// A goal.
#[derive(Debug, Clone, PartialEq, Eq)]
pub struct Goal {
    /// Its number.
    pub id: u64,
    /// What is aimed at.
    pub text: String,
    /// How far it is.
    pub status: GoalStatus,
    /// How far it is, as shown.
    pub status_shown: String,
    /// When it was set.
    pub created_at: i128,
    /// When it was last changed.
    pub updated_at: i128,
    /// What was done for it.
    pub progress: Option<String>,
}

/// A word for how far a goal is, and what it stands for.
#[derive(Debug, Clone, PartialEq, Eq)]
pub struct GoalStatusWord {
    /// The word.
    pub word: String,
    /// What it stands for; nothing where it is not known.
    pub status: Option<GoalStatus>,
}

/// What is asked for.
#[derive(Debug, Clone, PartialEq, Eq)]
pub struct GoalsArgs {
    /// What is to be done.
    pub operation: Option<String>,
    /// The project whose path or directory name holds this.
    pub project: Option<String>,
    /// The number of a goal.
    pub id: Option<u64>,
    /// What is aimed at.
    pub text: Option<String>,
    /// How far a goal is.
    pub status: Option<GoalStatusWord>,
    /// What was done for it.
    pub progress: Option<String>,
}

/// What is done with the goals of a project.
#[derive(Debug, Clone, PartialEq, Eq)]
pub enum GoalsPlan {
    /// List them.
    List,
    /// Add one.
    Add {
        /// What is aimed at.
        text: String,
        /// What was done for it.
        progress: Option<String>,
    },
    /// Change one.
    Update {
        /// Its number.
        id: u64,
        /// How far it is now.
        status: Option<GoalStatus>,
        /// What was done for it.
        progress: Option<String>,
    },
    /// Remove one.
    Remove {
        /// Its number.
        id: u64,
    },
}

/// The text by which a project is found.
pub open spec fn project_filter(project: Option<String>) -> Seq<char> {
    match project {
        Some(p) => p@,
        None => ""@,
    }
}

/// The project that is asked for: the only one whose path or directory name holds a text.
pub fn resolve_project(projects: Vec<Project>, project: &Option<String>) -> (r: Result<
    Project,
    SnatchError,
>)
    ensures
        is_only_project(
            projects@.filter(mentioning(project_filter(*project))),
            project_filter(*project),
            r,
        ),
{
    let filter: &str = match project {
        Some(p) => p.as_str(),
        None => "",
    };
    let mentions = |p: &Project| -> (o: bool)
        ensures
            o == mentioning(filter@)(*p),
        {
            text::contains(p.decoded_path.as_str(), filter) || text::contains(
                p.encoded_name.as_str(),
                filter,
            )
        };
    let found = order::keep(projects, mentions, Ghost(mentioning(filter@)));
    only_project(found, filter)
}

/// The operation: `list` where none is asked for.
pub open spec fn operation_of(operation: Option<String>) -> Seq<char> {
    match operation {
        Some(o) => o@,
        None => "list"@,
    }
}

/// What is done with the goals, or why it cannot be done.
pub open spec fn plans(args: GoalsArgs, r: Result<GoalsPlan, SnatchError>) -> bool {
    let operation = operation_of(args.operation);
    if operation == "list"@ {
        r == Ok::<GoalsPlan, SnatchError>(GoalsPlan::List)
    } else if operation == "add"@ {
        match args.text {
            None => r matches Err(e) && e@ == invalid(
                "text"@,
                "--text is required for add operation"@,
            ),
            Some(given) => r matches Ok(GoalsPlan::Add { text, progress }) && text@ == given@
                && progress == args.progress,
        }
    } else if operation == "update"@ {
        if args.id is None {
            r matches Err(e) && e@ == invalid("id"@, "--id is required for update operation"@)
        } else if args.status matches Some(w) && w.status is None {
            r matches Err(e) && e@ == invalid(
                "status"@,
                "Invalid status '"@ + args.status->0.word@
                    + "'. Use: open, in_progress, done, abandoned"@,
            )
        } else if args.status is None && args.progress is None {
            r matches Err(e) && e@ == invalid(
                "update"@,
                "At least one of --status or --progress is required"@,
            )
        } else {
            r matches Ok(GoalsPlan::Update { id, status, progress }) && Some(id) == args.id
                && status == (match args.status {
                Some(w) => w.status,
                None => None,
            }) && progress == args.progress
        }
    } else if operation == "remove"@ {
        match args.id {
            None => r matches Err(e) && e@ == invalid(
                "id"@,
                "--id is required for remove operation"@,
            ),
            Some(n) => r == Ok::<GoalsPlan, SnatchError>(GoalsPlan::Remove { id: n }),
        }
    } else {
        r matches Err(e) && e@ == invalid(
            "operation"@,
            "Unknown operation '"@ + operation + "'. Use: list, add, update, remove"@,
        )
    }
}

fn plan_update(args: &GoalsArgs) -> (r: Result<GoalsPlan, SnatchError>)
    requires
        operation_of(args.operation) == "update"@,
    ensures
        plans(*args, r),
{
    proof {
        reveal_strlit("update");
        reveal_strlit("list");
        reveal_strlit("add");
        assert("update"@.len() == 6);
        assert("list"@.len() == 4);
        assert("add"@.len() == 3);
    }
    let id: u64 = match args.id {
        Some(n) => n,
        None => {
            return Err(
                invalid_argument("id", "--id is required for update operation".to_owned()),
            );
        },
    };
    let status: Option<GoalStatus> = match &args.status {
        Some(w) => match w.status {
            Some(s) => Some(s),
            None => {
                return Err(
                    invalid_argument(
                        "status",
                        text::cat3(
                            "Invalid status '",
                            w.word.as_str(),
                            "'. Use: open, in_progress, done, abandoned",
                        ),
                    ),
                );
            },
        },
        None => None,
    };
    if status.is_none() && args.progress.is_none() {
        return Err(
            invalid_argument(
                "update",
                "At least one of --status or --progress is required".to_owned(),
            ),
        );
    }
    Ok(GoalsPlan::Update { id, status, progress: copy_text(&args.progress) })
}

/// What is done with the goals of a project, or why it cannot be done.
pub fn run(args: &GoalsArgs) -> (r: Result<GoalsPlan, SnatchError>)
    ensures
        plans(*args, r),
{
    let operation: &str = match &args.operation {
        Some(o) => o.as_str(),
        None => "list",
    };
    if text::same(operation, "list") {
        return Ok(GoalsPlan::List);
    }
    if text::same(operation, "add") {
        return match &args.text {
            None => Err(
                invalid_argument("text", "--text is required for add operation".to_owned()),
            ),
            Some(given) => Ok(
                GoalsPlan::Add { text: given.clone(), progress: copy_text(&args.progress) },
            ),
        };
    }
    if text::same(operation, "update") {
        return plan_update(args);
    }
    if text::same(operation, "remove") {
        return match args.id {
            None => Err(
                invalid_argument("id", "--id is required for remove operation".to_owned()),
            ),
            Some(n) => Ok(GoalsPlan::Remove { id: n }),
        };
    }
    Err(
        invalid_argument(
            "operation",
            text::cat3(
                "Unknown operation '",
                operation,
                "'. Use: list, add, update, remove",
            ),
        ),
    )
}

/// The error for a number that no goal has.
pub fn goal_not_found(id: u64) -> (r: SnatchError)
    ensures
        r@ == invalid("id"@, "Goal #"@ + decimal(id as nat) + " not found"@),
{
    let digits = text::number(id);
    invalid_argument("id", text::cat3("Goal #", digits.as_str(), " not found"))
}

/// The place of the first goal with a number, or the number of goals where there is none.
pub open spec fn goal_place(goals: Seq<Goal>, id: u64) -> int
    decreases goals.len(),
{
    if goals.len() == 0 || goals[0].id == id {
        0
    } else {
        1 + goal_place(goals.drop_first(), id)
    }
}

proof fn lemma_goal_place(goals: Seq<Goal>, id: u64, k: int)
    requires
        0 <= k <= goals.len(),
        k < goals.len() ==> goals[k].id == id,
        forall|j: int| 0 <= j < k ==> (#[trigger] goals[j]).id != id,
    ensures
        goal_place(goals, id) == k,
    decreases k,
{
    if k > 0 {
        assert(goals[0].id != id);
        assert forall|j: int| 0 <= j < k - 1 implies (#[trigger] goals.drop_first()[j]).id != id by {
            assert(goals.drop_first()[j] == goals[j + 1]);
        }
        lemma_goal_place(goals.drop_first(), id, k - 1);
    }
}

/// The first goal with a number.
pub fn find_goal(goals: &Vec<Goal>, id: u64) -> (r: Option<&Goal>)
    ensures
        match r {
            Some(g) => goal_place(goals@, id) < goals@.len() && *g == goals@[goal_place(
                goals@,
                id,
            )] && g.id == id,
            None => goal_place(goals@, id) == goals@.len(),
        },
{
    let mut i: usize = 0;
    while i < goals.len() && goals[i].id != id
        invariant
            i <= goals@.len(),
            forall|j: int| 0 <= j < i ==> (#[trigger] goals@[j]).id != id,
        decreases goals@.len() - i,
    {
        i = i + 1;
    }
    proof {
        lemma_goal_place(goals@, id, i as int);
    }
    if i < goals.len() {
        Some(&goals[i])
    } else {
        None
    }
}

// ---------------------------------------------------------------------------
// What is shown
// ---------------------------------------------------------------------------

/// The sign for how far a goal is.
pub open spec fn status_mark(status: GoalStatus) -> Seq<char> {
    match status {
        GoalStatus::Open => " "@,
        GoalStatus::InProgress => ">"@,
        GoalStatus::Done => "x"@,
        GoalStatus::Abandoned => "-"@,
    }
}

fn mark_of(status: GoalStatus) -> (r: &'static str)
    ensures
        r@ == status_mark(status),
{
    match status {
        GoalStatus::Open => " ",
        GoalStatus::InProgress => ">",
        GoalStatus::Done => "x",
        GoalStatus::Abandoned => "-",
    }
}

/// The line of a goal.
pub open spec fn goal_line(g: Goal) -> Seq<char> {
    "  ["@ + status_mark(g.status) + "] #"@ + decimal(g.id as nat) + ": "@ + g.text@ + (
    match g.progress {
        Some(p) => " ("@ + p@ + ")"@,
        None => ""@,
    })
}

fn write_goal(g: &Goal) -> (r: String)
    ensures
        r@ == goal_line(*g),
{
    let id = text::number(g.id);
    let a = text::cat5("  [", mark_of(g.status), "] #", id.as_str(), ": ");
    let b = text::cat2(a.as_str(), g.text.as_str());
    let tail: String = match &g.progress {
        Some(p) => text::cat3(" (", p.as_str(), ")"),
        None => "".to_owned(),
    };
    text::cat2(b.as_str(), tail.as_str())
}

/// The goals of a project, for a reader.
pub open spec fn goals_lines(project_path: Seq<char>, goals: Seq<Goal>, active: usize) -> Seq<
    Seq<char>,
> {
    if goals.len() == 0 {
        seq!["No goals for "@ + project_path + "."@]
    } else {
        (seq!["Goals for "@ + project_path + ":\n"@] + goals.map_values(
            |g: Goal| goal_line(g),
        )).push(
            "\n"@ + decimal(goals.len()) + " goal(s), "@ + decimal(active as nat) + " active"@,
        )
    }
}

/// The goals of a project, for a reader. `active` is how many are still aimed at.
pub fn print_goals(project_path: &str, goals: &Vec<Goal>, active: usize) -> (r: Vec<String>)
    ensures
        views(r@) == goals_lines(project_path@, goals@, active),
{
    let mut out: Vec<String> = Vec::new();
    if goals.len() == 0 {
        text::say3(&mut out, "No goals for ", project_path, ".");
    } else {
        text::say3(&mut out, "Goals for ", project_path, ":\n");
        let ghost g = |g: Goal| goal_line(g);
        text::say_each(&mut out, goals, write_goal, Ghost(g));
        let count = text::size(goals.len());
        let live = text::size(active);
        text::say5(&mut out, "\n", count.as_str(), " goal(s), ", live.as_str(), " active");
    }
    proof {
        assert(views(out@) =~= goals_lines(project_path@, goals@, active));
    }
    out
}

/// What is said of a goal that was added.
pub fn added_line(id: u64, what: &str) -> (r: String)
    ensures
        r@ == "Added goal #"@ + decimal(id as nat) + ": "@ + what@,
{
    let digits = text::number(id);
    text::cat4("Added goal #", digits.as_str(), ": ", what)
}

/// What is said of a goal that was changed.
pub fn updated_line(g: &Goal) -> (r: String)
    ensures
        r@ == "Updated goal #"@ + decimal(g.id as nat) + ": ["@ + g.status_shown@ + "] "@ + g.text@,
{
    let digits = text::number(g.id);
    let a = text::cat5("Updated goal #", digits.as_str(), ": [", g.status_shown.as_str(), "] ");
    text::cat2(a.as_str(), g.text.as_str())
}

/// What is said of a goal that was removed.
pub fn removed_line(id: u64) -> (r: String)
    ensures
        r@ == "Removed goal #"@ + decimal(id as nat),
{
    let digits = text::number(id);
    text::cat2("Removed goal #", digits.as_str())
}

/// A goal as a JSON object.
pub open spec fn goal_view(g: Goal) -> JsonView {
    JsonView::Object(
        seq![
            ("id"@, number_json(g.id as nat)),
            ("text"@, JsonView::Text(g.text@)),
            ("status"@, JsonView::Text(g.status_shown@)),
            ("created_at"@, time_json(Some(g.created_at), false)),
            ("updated_at"@, time_json(Some(g.updated_at), false)),
        ] + given_text("progress"@, g.progress),
    )
}

/// A goal as a JSON object.
pub fn goal_json(g: &Goal) -> (r: Json)
    ensures
        r@ == goal_view(*g),
{
    let mut fields: Vec<(String, Json)> = Vec::new();
    json::put(&mut fields, "id", json::of_number(g.id));
    json::put(&mut fields, "text", json::of_text(g.text.as_str()));
    json::put(&mut fields, "status", json::of_text(g.status_shown.as_str()));
    json::put(&mut fields, "created_at", json::of_time(Some(g.created_at), false));
    json::put(&mut fields, "updated_at", json::of_time(Some(g.updated_at), false));
    json::put_given_text(&mut fields, "progress", &g.progress);
    proof {
        assert(fields_view(fields@) =~= seq![
            ("id"@, number_json(g.id as nat)),
            ("text"@, JsonView::Text(g.text@)),
            ("status"@, JsonView::Text(g.status_shown@)),
            ("created_at"@, time_json(Some(g.created_at), false)),
            ("updated_at"@, time_json(Some(g.updated_at), false)),
        ] + given_text("progress"@, g.progress));
    }
    Json::Object(fields)
}

/// The goals of a project as a JSON object.
pub fn goals_json(project_path: &str, goals: &Vec<Goal>) -> (r: Json)
    ensures
        r@ == JsonView::Object(
            seq![
                ("project_path"@, JsonView::Text(project_path@)),
                ("goals"@, JsonView::Array(goals@.map_values(|g: Goal| goal_view(g)))),
            ],
        ),
{
    let mut fields: Vec<(String, Json)> = Vec::new();
    let ghost g = |g: Goal| goal_view(g);
    json::put(&mut fields, "project_path", json::of_text(project_path));
    json::put(&mut fields, "goals", json::of_list(goals, goal_json, Ghost(g)));
    proof {
        assert(fields_view(fields@) =~= seq![
            ("project_path"@, JsonView::Text(project_path@)),
            ("goals"@, JsonView::Array(goals@.map_values(g))),
        ]);
    }
    Json::Object(fields)
}

/// What was done with a goal.
#[derive(Debug, Clone, Copy, PartialEq, Eq, Structural)]
pub enum GoalChange {
    /// It was added.
    Add,
    /// It was changed.
    Update,
    /// It was removed.
    Remove,
}

/// The name of what was done with a goal.
pub open spec fn change_name(change: GoalChange) -> Seq<char> {
    match change {
        GoalChange::Add => "add"@,
        GoalChange::Update => "update"@,
        GoalChange::Remove => "remove"@,
    }
}

/// What is said of what was done with a goal.
pub open spec fn change_message(change: GoalChange, id: u64) -> Seq<char> {
    match change {
        GoalChange::Add => "Added goal #"@ + decimal(id as nat),
        GoalChange::Update => "Updated goal #"@ + decimal(id as nat),
        GoalChange::Remove => "Removed goal #"@ + decimal(id as nat),
    }
}

/// The field of the goal that was added or changed.
pub open spec fn changed_goal(goal: Option<Goal>) -> Seq<(Seq<char>, JsonView)> {
    match goal {
        Some(g) => seq![("goal"@, goal_view(g))],
        None => Seq::empty(),
    }
}

/// What was done with a goal, as a JSON object. `goal` is the goal, where it is still there.
pub fn change_json(project_path: &str, change: GoalChange, id: u64, goal: &Option<Goal>) -> (r: Json)
    ensures
        r@ == JsonView::Object(
            seq![
                ("operation"@, JsonView::Text(change_name(change))),
                ("project_path"@, JsonView::Text(project_path@)),
                ("message"@, JsonView::Text(change_message(change, id))),
            ] + changed_goal(*goal),
        ),
{
    let mut fields: Vec<(String, Json)> = Vec::new();
    let digits = text::number(id);
    let (name, said): (&str, &str) = match change {
        GoalChange::Add => ("add", "Added goal #"),
        GoalChange::Update => ("update", "Updated goal #"),
        GoalChange::Remove => ("remove", "Removed goal #"),
    };
    let message = text::cat2(said, digits.as_str());
    json::put(&mut fields, "operation", json::of_text(name));
    json::put(&mut fields, "project_path", json::of_text(project_path));
    json::put(&mut fields, "message", json::of_text(message.as_str()));
    match goal {
        Some(g) => json::put(&mut fields, "goal", goal_json(g)),
        None => {},
    }
    proof {
        assert(fields_view(fields@) =~= seq![
            ("operation"@, JsonView::Text(change_name(change))),
            ("project_path"@, JsonView::Text(project_path@)),
            ("message"@, JsonView::Text(change_message(change, id))),
        ] + changed_goal(*goal));
    }
    Json::Object(fields)
}

// ---------------------------------------------------------------------------
// What is done with goals
// ---------------------------------------------------------------------------

proof fn lemma_operations_differ()
    ensures
        "list"@ != "add"@ && "list"@ != "update"@ && "list"@ != "remove"@,
        "add"@ != "update"@ && "add"@ != "remove"@,
        "update"@ != "remove"@,
{
    reveal_strlit("list");
    reveal_strlit("add");
    reveal_strlit("update");
    reveal_strlit("remove");
    assert("list"@.len() == 4 && "add"@.len() == 3 && "update"@.len() == 6 && "remove"@.len() == 6);
    assert("update"@[0] == 'u' && "remove"@[0] == 'r');
}

/// Goals are listed where nothing else is asked for. One is added exactly where that is asked for
/// with a text, removed where that is asked for with a number, and changed where that is asked for
/// with a number and a status or some progress, and the status is not an unknown one. Whatever else
/// is asked for is refused.
pub proof fn goals_change_as_asked(args: GoalsArgs, r: Result<GoalsPlan, SnatchError>)
    requires
        plans(args, r),
    ensures
        r matches Ok(p) && p is List <==> args.operation is None || args.operation->0@ == "list"@,
        r matches Ok(p) && p is Add <==> args.operation is Some && args.operation->0@ == "add"@
            && args.text is Some,
        r matches Ok(p) && p is Remove <==> args.operation is Some && args.operation->0@
            == "remove"@ && args.id is Some,
        r matches Ok(p) && p is Update <==> args.operation is Some && args.operation->0@
            == "update"@ && args.id is Some && (args.status is Some || args.progress is Some) && (
        args.status is Some ==> args.status->0.status is Some),
        r matches Ok(GoalsPlan::Update { id, status, progress }) ==> args.id == Some(id)
            && progress == args.progress && (status is Some <==> args.status is Some) && (
        args.status matches Some(w) ==> status == w.status),
        r matches Ok(GoalsPlan::Remove { id }) ==> args.id == Some(id),
{
    lemma_operations_differ();
}

/// The goal of a number is the first that has it, and there is none where no goal has it.
pub proof fn first_goal_of_a_number_is_found(goals: Seq<Goal>, id: u64)
    ensures
        0 <= goal_place(goals, id) <= goals.len(),
        goal_place(goals, id) < goals.len() ==> goals[goal_place(goals, id)].id == id,
        forall|j: int| 0 <= j < goal_place(goals, id) ==> (#[trigger] goals[j]).id != id,
    decreases goals.len(),
{
    if goals.len() > 0 && goals[0].id != id {
        let rest = goals.drop_first();
        first_goal_of_a_number_is_found(rest, id);
        assert forall|j: int| 0 <= j < goal_place(goals, id) implies (#[trigger] goals[j]).id
            != id by {
            if j > 0 {
                assert(rest[j - 1] == goals[j]);
            }
        }
    }
}

// ---------------------------------------------------------------------------
// What calls hand back
// ---------------------------------------------------------------------------

/// A goal is found by its number: the first that has it, and none if and only if no goal has it.
pub proof fn goals_are_found_by_number(goals: Vec<Goal>, id: u64, r: Option<&Goal>, k: int)
    requires
        0 <= k < goals@.len(),
        goals@[k].id == id,
        forall|j: int| 0 <= j < k ==> (#[trigger] goals@[j]).id != id,
    ensures
        call_ensures(find_goal, (&goals, id), r) ==> (r matches Some(g) && *g == goals@[k]),
{
    lemma_goal_place(goals@, id, k);
}

} // verus!
