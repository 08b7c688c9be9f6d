//! The notes of a project: what is asked for, and what is shown.
use vstd::prelude::*;

use crate::commands::goals::operation_of;
use crate::commands::helpers;
use crate::commands::helpers::{has_short_id, id_head};
use crate::error::{invalid, invalid_argument, SnatchError};
use crate::json;
use crate::json::{fields_view, given_text, number_json, time_json, Json, JsonView};
use crate::provider::copy_text;
use crate::text;
use crate::text::{decimal, views};

verus! {

/// A note.
#[derive(Debug, Clone, PartialEq, Eq)]
pub struct Note {
    /// Its number.
    pub id: u64,
    /// What it says.
    pub text: String,
    /// When it was made.
    pub created_at: i128,
    /// The session in which it was made.
    pub session_id: Option<String>,
}

/// What is asked for.
#[derive(Debug, Clone, PartialEq, Eq)]
pub struct NotesArgs {
    /// What is to be done.
    pub operation: Option<String>,
    /// The project.
    pub project: Option<String>,
    /// The number of a note.
    pub id: Option<u64>,
    /// What a note says.
    pub text: Option<String>,
    /// The session in which it is made.
    pub session_id: Option<String>,
}

/// What is done with the notes of a project.
#[derive(Debug, Clone, PartialEq, Eq)]
pub enum NotesPlan {
    /// List them.
    List,
    /// Add one.
    Add {
        /// What it says.
        text: String,
        /// The session in which it is made.
        session_id: Option<String>,
    },
    /// Remove one.
    Remove {
        /// Its number.
        id: u64,
    },
    /// Remove all.
    Clear,
}

/// What is done with the notes, or why it cannot be done.
pub open spec fn plans(args: NotesArgs, r: Result<NotesPlan, SnatchError>) -> bool {
    let operation = operation_of(args.operation);
    if operation == "list"@ {
        r == Ok::<NotesPlan, SnatchError>(NotesPlan::List)
    } else if operation == "add"@ {
        match args.text {
            None => r matches Err(e) && e@ == invalid(
                "text"@,
                "--text is required for add operation"@,
            ),
            Some(given) => r matches Ok(NotesPlan::Add { text, session_id }) && text@ == given@
                && session_id == args.session_id,
        }
    } else if operation == "remove"@ {
        match args.id {
            None => r matches Err(e) && e@ == invalid(
                "id"@,
                "--id is required for remove operation"@,
            ),
            Some(n) => r == Ok::<NotesPlan, SnatchError>(NotesPlan::Remove { id: n }),
        }
    } else if operation == "clear"@ {
        r == Ok::<NotesPlan, SnatchError>(NotesPlan::Clear)
    } else {
        r matches Err(e) && e@ == invalid(
            "operation"@,
            "Unknown operation '"@ + operation + "'. Use: list, add, remove, clear"@,
        )
    }
}

/// What is done with the notes of a project, or why it cannot be done.
pub fn run(args: &NotesArgs) -> (r: Result<NotesPlan, SnatchError>)
    ensures
        plans(*args, r),
{
    let operation: &str = match &args.operation {
        Some(o) => o.as_str(),
        None => "list",
    };
    if text::same(operation, "list") {
        return Ok(NotesPlan::List);
    }
    if text::same(operation, "add") {
        return match &args.text {
            None => Err(
                invalid_argument("text", "--text is required for add operation".to_owned()),
            ),
            Some(given) => Ok(
                NotesPlan::Add { text: given.clone(), session_id: copy_text(&args.session_id) },
            ),
        };
    }
    if text::same(operation, "remove") {
        return match args.id {
            None => Err(
                invalid_argument("id", "--id is required for remove operation".to_owned()),
            ),
            Some(n) => Ok(NotesPlan::Remove { id: n }),
        };
    }
    if text::same(operation, "clear") {
        return Ok(NotesPlan::Clear);
    }
    Err(
        invalid_argument(
            "operation",
            text::cat3("Unknown operation '", operation, "'. Use: list, add, remove, clear"),
        ),
    )
}

/// The error for a number that no note has.
pub fn note_not_found(id: u64) -> (r: SnatchError)
    ensures
        r@ == invalid("id"@, "Note #"@ + decimal(id as nat) + " not found"@),
{
    let digits = text::number(id);
    invalid_argument("id", text::cat3("Note #", digits.as_str(), " not found"))
}

// ---------------------------------------------------------------------------
// What is shown
// ---------------------------------------------------------------------------

/// The line of a note.
pub open spec fn note_line(n: Note) -> Seq<char> {
    "  #"@ + decimal(n.id as nat) + ": "@ + n.text@ + (match n.session_id {
        Some(id) => " [session:"@ + id_head(id@) + "]"@,
        None => ""@,
    })
}

/// The session of a note can be shown.
pub open spec fn can_be_shown(n: Note) -> bool {
    n.session_id matches Some(id) ==> has_short_id(id@)
}

fn write_note(n: &Note) -> (r: String)
    requires
        can_be_shown(*n),
    ensures
        r@ == note_line(*n),
{
    let id = text::number(n.id);
    let head = text::cat4("  #", id.as_str(), ": ", n.text.as_str());
    let tail: String = match &n.session_id {
        Some(session) => {
            let short = helpers::short_id(session.as_str());
            text::cat3(" [session:", short.as_str(), "]")
        },
        None => "".to_owned(),
    };
    text::cat2(head.as_str(), tail.as_str())
}

/// The notes of a project, for a reader.
pub open spec fn notes_lines(project_path: Seq<char>, notes: Seq<Note>) -> Seq<Seq<char>> {
    if notes.len() == 0 {
        seq!["No notes for "@ + project_path + "."@]
    } else {
        (seq!["Notes for "@ + project_path + ":\n"@] + notes.map_values(
            |n: Note| note_line(n),
        )).push("\n"@ + decimal(notes.len()) + " note(s)"@)
    }
}

/// The notes of a project, for a reader.
pub fn print_notes(project_path: &str, notes: &Vec<Note>) -> (r: Vec<String>)
    requires
        forall|i: int| 0 <= i < notes@.len() ==> can_be_shown(#[trigger] notes@[i]),
    ensures
        views(r@) == notes_lines(project_path@, notes@),
{
    let mut out: Vec<String> = Vec::new();
    if notes.len() == 0 {
        text::say3(&mut out, "No notes for ", project_path, ".");
    } else {
        text::say3(&mut out, "Notes for ", project_path, ":\n");
        let ghost g = |n: Note| note_line(n);
        text::say_each(&mut out, notes, write_note, Ghost(g));
        let count = text::size(notes.len());
        text::say3(&mut out, "\n", count.as_str(), " note(s)");
    }
    proof {
        assert(views(out@) =~= notes_lines(project_path@, notes@));
    }
    out
}

/// What is said of a note that was added.
pub fn added_line(id: u64, what: &str) -> (r: String)
    ensures
        r@ == "Added note #"@ + decimal(id as nat) + ": "@ + what@,
{
    let digits = text::number(id);
    text::cat4("Added note #", digits.as_str(), ": ", what)
}

/// What was done with the notes.
#[derive(Debug, Clone, Copy, PartialEq, Eq)]
pub enum NoteChange {
    /// The one with this number was added.
    Add(u64),
    /// The one with this number was removed.
    Remove(u64),
    /// All were removed, so many.
    Clear(usize),
}

/// The name of what was done with the notes.
pub open spec fn change_name(change: NoteChange) -> Seq<char> {
    match change {
        NoteChange::Add(_) => "add"@,
        NoteChange::Remove(_) => "remove"@,
        NoteChange::Clear(_) => "clear"@,
    }
}

/// What is said of what was done with the notes.
pub open spec fn change_message(change: NoteChange) -> Seq<char> {
    match change {
        NoteChange::Add(id) => "Added note #"@ + decimal(id as nat),
        NoteChange::Remove(id) => "Removed note #"@ + decimal(id as nat),
        NoteChange::Clear(n) => "Cleared "@ + decimal(n as nat) + " note(s)"@,
    }
}

/// What is said of what was done with the notes.
pub fn change_line(change: NoteChange) -> (r: String)
    ensures
        r@ == change_message(change),
{
    match change {
        NoteChange::Add(id) => {
            let digits = text::number(id);
            text::cat2("Added note #", digits.as_str())
        },
        NoteChange::Remove(id) => {
            let digits = text::number(id);
            text::cat2("Removed note #", digits.as_str())
        },
        NoteChange::Clear(n) => {
            let digits = text::size(n);
            text::cat3("Cleared ", digits.as_str(), " note(s)")
        },
    }
}

/// A note as a JSON object.
pub open spec fn note_view(n: Note) -> JsonView {
    JsonView::Object(
        seq![
            ("id"@, number_json(n.id as nat)),
            ("text"@, JsonView::Text(n.text@)),
            ("created_at"@, time_json(Some(n.created_at), false)),
        ] + given_text("session_id"@, n.session_id),
    )
}

/// A note as a JSON object.
pub fn note_json(n: &Note) -> (r: Json)
    ensures
        r@ == note_view(*n),
{
    let mut fields: Vec<(String, Json)> = Vec::new();
    json::put(&mut fields, "id", json::of_number(n.id));
    json::put(&mut fields, "text", json::of_text(n.text.as_str()));
    json::put(&mut fields, "created_at", json::of_time(Some(n.created_at), false));
    json::put_given_text(&mut fields, "session_id", &n.session_id);
    proof {
        assert(fields_view(fields@) =~= seq![
            ("id"@, number_json(n.id as nat)),
            ("text"@, JsonView::Text(n.text@)),
            ("created_at"@, time_json(Some(n.created_at), false)),
        ] + given_text("session_id"@, n.session_id));
    }
    Json::Object(fields)
}

/// The notes of a project as a JSON object.
pub fn notes_json(project_path: &str, notes: &Vec<Note>) -> (r: Json)
    ensures
        r@ == JsonView::Object(
            seq![
                ("project_path"@, JsonView::Text(project_path@)),
                ("notes"@, JsonView::Array(notes@.map_values(|n: Note| note_view(n)))),
            ],
        ),
{
    let mut fields: Vec<(String, Json)> = Vec::new();
    let ghost g = |n: Note| note_view(n);
    json::put(&mut fields, "project_path", json::of_text(project_path));
    json::put(&mut fields, "notes", json::of_list(notes, note_json, Ghost(g)));
    proof {
        assert(fields_view(fields@) =~= seq![
            ("project_path"@, JsonView::Text(project_path@)),
            ("notes"@, JsonView::Array(notes@.map_values(g))),
        ]);
    }
    Json::Object(fields)
}

/// The field of the note that was added.
pub open spec fn added_note(note: Option<Note>) -> Seq<(Seq<char>, JsonView)> {
    match note {
        Some(n) => seq![("note"@, note_view(n))],
        None => Seq::empty(),
    }
}

/// What was done with the notes, as a JSON object. `note` is the note that was added.
pub fn change_json(project_path: &str, change: NoteChange, note: &Option<Note>) -> (r: Json)
    ensures
        r@ == JsonView::Object(
            seq![
                ("operation"@, JsonView::Text(change_name(change))),
                ("project_path"@, JsonView::Text(project_path@)),
                ("message"@, JsonView::Text(change_message(change))),
            ] + added_note(*note),
        ),
{
    let mut fields: Vec<(String, Json)> = Vec::new();
    let name: &str = match change {
        NoteChange::Add(_) => "add",
        NoteChange::Remove(_) => "remove",
        NoteChange::Clear(_) => "clear",
    };
    let message = change_line(change);
    json::put(&mut fields, "operation", json::of_text(name));
    json::put(&mut fields, "project_path", json::of_text(project_path));
    json::put(&mut fields, "message", json::of_text(message.as_str()));
    match note {
        Some(n) => json::put(&mut fields, "note", note_json(n)),
        None => {},
    }
    proof {
        assert(fields_view(fields@) =~= seq![
            ("operation"@, JsonView::Text(change_name(change))),
            ("project_path"@, JsonView::Text(project_path@)),
            ("message"@, JsonView::Text(change_message(change))),
        ] + added_note(*note));
    }
    Json::Object(fields)
}

// ---------------------------------------------------------------------------
// What is done with notes
// ---------------------------------------------------------------------------

/// Notes are listed where nothing else is asked for. One is added exactly where that is asked for
/// with a text, removed where that is asked for with a number, and all are cleared where that is
/// asked for. Whatever else is asked for is refused.
pub proof fn notes_change_as_asked(args: NotesArgs, r: Result<NotesPlan, SnatchError>)
    requires
        plans(args, r),
    ensures
        r matches Ok(p) && p is List <==> args.operation is None || args.operation->0@ == "list"@,
        r matches Ok(p) && p is Add <==> args.operation is Some && args.operation->0@ == "add"@
            && args.text is Some,
        r matches Ok(p) && p is Remove <==> args.operation is Some && args.operation->0@
            == "remove"@ && args.id is Some,
        r matches Ok(p) && p is Clear <==> args.operation is Some && args.operation->0@ == "clear"@,
        r matches Ok(NotesPlan::Add { text, session_id }) ==> text@ == args.text->0@ && session_id
            == args.session_id,
        r matches Ok(NotesPlan::Remove { id }) ==> args.id == Some(id),
{
    reveal_strlit("list");
    reveal_strlit("add");
    reveal_strlit("clear");
    reveal_strlit("remove");
    assert("list"@.len() == 4 && "add"@.len() == 3 && "clear"@.len() == 5 && "remove"@.len() == 6);
}

} // verus!
