//! Why a file changed: its changes, each with what was said around it.
use vstd::prelude::*;

use crate::commands::code::{first_line, take_first_line};
use crate::commands::file_history::{
    of_optional_number, optional_number, skipped_words, write_skipped,
};
use crate::commands::helpers;
use crate::commands::helpers::{has_short_id, id_head};
use crate::json;
use crate::json::{fields_view, number_json, optional_text, texts_json, time_json, Json, JsonView};
use crate::text;
use crate::text::{decimal, first_chars, joined, spread, spread_numbered, views};
use crate::time;
use crate::time::shown_or;

verus! {

/// A change of a file, with what was said around it.
#[derive(Debug, Clone, PartialEq, Eq)]
pub struct ChangeEvent {
    /// When.
    pub timestamp: i128,
    /// The session.
    pub session_id: String,
    /// The message.
    pub message_id: String,
    /// The version of the file.
    pub version: u64,
    /// The prompt before it.
    pub user_prompt: Option<String>,
    /// The answer.
    pub assistant_response: Option<String>,
    /// The thoughts.
    pub thinking: Option<String>,
    /// The tools that were called.
    pub tools_used: Vec<String>,
    /// Whether something failed.
    pub had_errors: bool,
}

/// A file and its changes.
#[derive(Debug, Clone, PartialEq, Eq)]
pub struct FileEvolution {
    /// Its path.
    pub file_path: String,
    /// The number of its changes.
    pub total_changes: usize,
    /// The number of sessions with a change.
    pub sessions_involved: usize,
    /// The changes that are shown.
    pub changes: Vec<ChangeEvent>,
}

/// Whether providers are searched.
pub fn uses_provider(provider: &Vec<String>) -> (r: bool)
    ensures
        r == (provider@.len() > 0),
{
    provider.len() > 0
}

// ---------------------------------------------------------------------------
// For a reader
// ---------------------------------------------------------------------------

/// The beginning of a text, where there is one: a hundred characters of its first line.
pub open spec fn preview_line(label: Seq<char>, s: Option<String>) -> Seq<Seq<char>> {
    match s {
        Some(t) => seq![label + first_chars(first_line(t@), 100)],
        None => Seq::empty(),
    }
}

fn say_preview(out: &mut Vec<String>, label: &str, s: &Option<String>)
    ensures
        views(final(out)@) == views(old(out)@) + preview_line(label@, *s),
{
    let ghost start = views(out@);
    match s {
        Some(t) => {
            let line = take_first_line(t.as_str());
            let cut = text::take_chars(line.as_str(), 100);
            text::say2(out, label, cut.as_str());
        },
        None => {},
    }
    proof {
        assert(views(out@) =~= start + preview_line(label@, *s));
    }
}

/// The first line of a change.
pub open spec fn change_head(i: int, c: ChangeEvent) -> Seq<char> {
    "  "@ + decimal((i + 1) as nat) + ". ["@ + id_head(c.session_id@) + "] "@ + shown_or(
        Some(c.timestamp),
        "%Y-%m-%d %H:%M"@,
        ""@,
    ) + " v"@ + decimal(c.version as nat) + (if c.had_errors {
        " [ERROR]"@
    } else {
        ""@
    })
}

/// The line of the tools, where there are some.
pub open spec fn tools_line(tools: Seq<String>) -> Seq<Seq<char>> {
    if tools.len() == 0 {
        Seq::empty()
    } else {
        seq!["     Tools: "@ + joined(views(tools), ", "@)]
    }
}

/// The lines of a change.
pub open spec fn change_lines(i: int, c: ChangeEvent) -> Seq<Seq<char>> {
    (seq![change_head(i, c)] + preview_line("     User: "@, c.user_prompt) + preview_line(
        "     Assistant: "@,
        c.assistant_response,
    ) + preview_line("     Thinking: "@, c.thinking) + tools_line(c.tools_used@)).push(""@)
}

fn write_change(i: usize, c: &ChangeEvent) -> (r: Vec<String>)
    requires
        i < usize::MAX,
        has_short_id(c.session_id@),
    ensures
        views(r@) == change_lines(i as int, *c),
{
    let mut out: Vec<String> = Vec::new();
    let number = text::size(i + 1);
    let short = helpers::short_id(c.session_id.as_str());
    let at = time::show_or(Some(c.timestamp), "%Y-%m-%d %H:%M", "");
    let version = text::number(c.version);
    let mark: &str = if c.had_errors {
        " [ERROR]"
    } else {
        ""
    };
    let a = text::cat5("  ", number.as_str(), ". [", short.as_str(), "] ");
    text::say5(&mut out, a.as_str(), at.as_str(), " v", version.as_str(), mark);
    proof {
        assert(views(out@) =~= seq![change_head(i as int, *c)]);
    }
    say_preview(&mut out, "     User: ", &c.user_prompt);
    say_preview(&mut out, "     Assistant: ", &c.assistant_response);
    say_preview(&mut out, "     Thinking: ", &c.thinking);
    let ghost so_far = views(out@);
    if c.tools_used.len() > 0 {
        let list = text::join(&c.tools_used, ", ");
        text::say2(&mut out, "     Tools: ", list.as_str());
    }
    proof {
        assert(views(out@) =~= so_far + tools_line(c.tools_used@));
    }
    text::say(&mut out, "");
    out
}

/// The sessions of a file can be shown.
pub open spec fn ids_fit(f: FileEvolution) -> bool {
    forall|i: int|
        0 <= i < f.changes@.len() ==> has_short_id((#[trigger] f.changes@[i]).session_id@)
}

/// The lines of a file.
pub open spec fn file_lines(f: FileEvolution) -> Seq<Seq<char>> {
    seq![
        "File: "@ + f.file_path@ + " ("@ + decimal(f.total_changes as nat) + " changes across "@
            + decimal(f.sessions_involved as nat) + " sessions)\n"@,
    ] + spread_numbered(f.changes@, |i: int, c: ChangeEvent| change_lines(i, c))
}

fn write_file(f: &FileEvolution) -> (r: Vec<String>)
    requires
        ids_fit(*f),
    ensures
        views(r@) == file_lines(*f),
{
    let mut out: Vec<String> = Vec::new();
    let changes = text::size(f.total_changes);
    let sessions = text::size(f.sessions_involved);
    let a = text::cat5("File: ", f.file_path.as_str(), " (", changes.as_str(), " changes across ");
    text::say3(&mut out, a.as_str(), sessions.as_str(), " sessions)\n");
    proof {
        assert(views(out@) =~= seq![
            "File: "@ + f.file_path@ + " ("@ + decimal(f.total_changes as nat) + " changes across "@
                + decimal(f.sessions_involved as nat) + " sessions)\n"@,
        ]);
    }
    let total: usize = f.changes.len();
    let write = |i: usize, c: &ChangeEvent| -> (o: Vec<String>)
        requires
            i < total,
            has_short_id(c.session_id@),
        ensures
            views(o@) == change_lines(i as int, *c),
        { write_change(i, c) };
    let ghost g = |i: int, c: ChangeEvent| change_lines(i, c);
    text::say_numbered(&mut out, &f.changes, write, Ghost(g));
    out
}

/// The files and their changes, for a reader.
pub open spec fn evolution_lines(pattern: Seq<char>, files: Seq<FileEvolution>) -> Seq<Seq<char>> {
    if files.len() == 0 {
        seq!["No modifications found for files matching '"@ + pattern + "'"@]
    } else {
        spread(files, |f: FileEvolution| file_lines(f))
    }
}

/// The files and their changes, for a reader.
pub fn print_evolution(pattern: &str, files: &Vec<FileEvolution>) -> (r: Vec<String>)
    requires
        forall|i: int| 0 <= i < files@.len() ==> ids_fit(#[trigger] files@[i]),
    ensures
        views(r@) == evolution_lines(pattern@, files@),
{
    let mut out: Vec<String> = Vec::new();
    proof {
        assert(views(out@) =~= Seq::empty());
    }
    if files.len() == 0 {
        text::say3(&mut out, "No modifications found for files matching '", pattern, "'");
        proof {
            assert(views(out@) =~= evolution_lines(pattern@, files@));
        }
    } else {
        let ghost g = |f: FileEvolution| file_lines(f);
        text::say_all(&mut out, files, write_file, Ghost(g));
        proof {
            assert(views(out@) =~= evolution_lines(pattern@, files@));
        }
    }
    out
}

// ---------------------------------------------------------------------------
// As JSON
// ---------------------------------------------------------------------------

/// The fields of a change.
pub open spec fn change_fields(c: ChangeEvent) -> Seq<(Seq<char>, JsonView)> {
    seq![
        ("timestamp"@, time_json(Some(c.timestamp), false)),
        ("session_id"@, JsonView::Text(c.session_id@)),
        ("message_id"@, JsonView::Text(c.message_id@)),
        ("version"@, number_json(c.version as nat)),
        ("user_prompt"@, optional_text(c.user_prompt)),
        ("assistant_response"@, optional_text(c.assistant_response)),
        ("thinking"@, optional_text(c.thinking)),
        ("tools_used"@, texts_json(views(c.tools_used@))),
        ("had_errors"@, JsonView::Bool(c.had_errors)),
    ]
}

fn change_json(c: &ChangeEvent) -> (r: Json)
    ensures
        r@ == JsonView::Object(change_fields(*c)),
{
    let mut fields: Vec<(String, Json)> = Vec::new();
    json::put(&mut fields, "timestamp", json::of_time(Some(c.timestamp), false));
    json::put(&mut fields, "session_id", json::of_text(c.session_id.as_str()));
    json::put(&mut fields, "message_id", json::of_text(c.message_id.as_str()));
    json::put(&mut fields, "version", json::of_number(c.version));
    json::put(&mut fields, "user_prompt", json::of_option(&c.user_prompt));
    json::put(&mut fields, "assistant_response", json::of_option(&c.assistant_response));
    json::put(&mut fields, "thinking", json::of_option(&c.thinking));
    json::put(&mut fields, "tools_used", json::of_texts(&c.tools_used));
    json::put(&mut fields, "had_errors", Json::Bool(c.had_errors));
    proof {
        assert(fields_view(fields@) =~= change_fields(*c));
    }
    Json::Object(fields)
}

/// The fields of a file.
pub open spec fn file_fields(f: FileEvolution) -> Seq<(Seq<char>, JsonView)> {
    seq![
        ("file_path"@, JsonView::Text(f.file_path@)),
        ("total_changes"@, number_json(f.total_changes as nat)),
        ("sessions_involved"@, number_json(f.sessions_involved as nat)),
        (
            "changes"@,
            JsonView::Array(
                f.changes@.map_values(|c: ChangeEvent| JsonView::Object(change_fields(c))),
            ),
        ),
    ]
}

fn file_json(f: &FileEvolution) -> (r: Json)
    ensures
        r@ == JsonView::Object(file_fields(*f)),
{
    let mut fields: Vec<(String, Json)> = Vec::new();
    let ghost g = |c: ChangeEvent| JsonView::Object(change_fields(c));
    json::put(&mut fields, "file_path", json::of_text(f.file_path.as_str()));
    json::put(&mut fields, "total_changes", json::of_size(f.total_changes));
    json::put(&mut fields, "sessions_involved", json::of_size(f.sessions_involved));
    json::put(&mut fields, "changes", json::of_list(&f.changes, change_json, Ghost(g)));
    proof {
        assert(fields_view(fields@) =~= file_fields(*f));
    }
    Json::Object(fields)
}

/// The files and their changes as JSON.
pub fn evolution_json(files: &Vec<FileEvolution>) -> (r: Json)
    ensures
        r@ == JsonView::Array(
            files@.map_values(|f: FileEvolution| JsonView::Object(file_fields(f))),
        ),
{
    let ghost g = |f: FileEvolution| JsonView::Object(file_fields(f));
    json::of_list(files, file_json, Ghost(g))
}

// ---------------------------------------------------------------------------
// Changes that providers know of
// ---------------------------------------------------------------------------

/// A session lies in a span of time. One whose times are not known lies only where no bound is
/// set.
pub open spec fn in_range(
    times: Option<(i128, i128)>,
    since: Option<i128>,
    until: Option<i128>,
) -> bool {
    match times {
        None => since is None && until is None,
        Some((start, end)) => (since matches Some(b) ==> end >= b) && (until matches Some(b)
            ==> start <= b),
    }
}

/// Whether a session lies in a span of time. `times` are when it begins and ends.
pub fn lies_in_range(
    times: Option<(i128, i128)>,
    since: Option<i128>,
    until: Option<i128>,
) -> (r: bool)
    ensures
        r == in_range(times, since, until),
{
    match times {
        None => since.is_none() && until.is_none(),
        Some((start, end)) => {
            let late_enough: bool = match since {
                Some(bound) => end >= bound,
                None => true,
            };
            let early_enough: bool = match until {
                Some(bound) => start <= bound,
                None => true,
            };
            late_enough && early_enough
        },
    }
}

/// A wider span of time leaves no session out.
pub proof fn wider_spans_hold_more(
    times: Option<(i128, i128)>,
    since: i128,
    until: i128,
    earlier: i128,
    later: i128,
)
    requires
        earlier <= since,
        until <= later,
        in_range(times, Some(since), Some(until)),
    ensures
        in_range(times, Some(earlier), Some(later)),
        in_range(times, None, Some(until)),
        in_range(times, Some(since), None),
        in_range(times, None, None),
{
}

/// A change that a provider knows of, with what was said around it.
#[derive(Debug, Clone, PartialEq, Eq)]
pub struct ProviderChangeEvent {
    /// When.
    pub timestamp: Option<i128>,
    /// The provider.
    pub provider: String,
    /// The session with its provider.
    pub qualified_id: String,
    /// The session.
    pub session_id: String,
    /// The project.
    pub project_path: String,
    /// The entry.
    pub entry_id: String,
    /// The operation.
    pub operation_id: Option<String>,
    /// The version of the file.
    pub version: Option<u64>,
    /// What was done.
    pub kind: String,
    /// Where the file was moved to.
    pub move_path: Option<String>,
    /// What it is known from.
    pub evidence: String,
    /// What came of it.
    pub outcome: String,
    /// How much of the file it covers.
    pub coverage: String,
    /// The record.
    pub record_ordinal: u64,
    /// The record of what came of it.
    pub outcome_record_ordinal: Option<u64>,
    /// The prompt before it.
    pub user_prompt: Option<String>,
    /// The answer.
    pub assistant_response: Option<String>,
    /// The thoughts.
    pub thinking: Option<String>,
    /// The tools that were called.
    pub tools_used: Vec<String>,
    /// Whether something failed.
    pub had_errors: bool,
}

/// A file and the changes of it that providers know of.
#[derive(Debug, Clone, PartialEq, Eq)]
pub struct ProviderFileEvolution {
    /// Its path.
    pub file_path: String,
    /// The number of changes.
    pub total_changes: usize,
    /// The number of changes that were not made.
    pub total_attempts: usize,
    /// The number of sessions with a change.
    pub sessions_involved: usize,
    /// The changes that are shown.
    pub changes: Vec<ProviderChangeEvent>,
    /// The changes that were not made.
    pub attempts: Vec<ProviderChangeEvent>,
}

/// What providers know of the changes of some files.
#[derive(Debug, Clone, PartialEq, Eq)]
pub struct ProviderEvolution {
    /// The project.
    pub project: String,
    /// What the paths of the files match.
    pub file_pattern: String,
    /// The files.
    pub files: Vec<ProviderFileEvolution>,
    /// The providers that could not be asked.
    pub skipped: Vec<String>,
    /// Warnings.
    pub warnings: Vec<String>,
}

/// The first line of a text, where there is one.
pub open spec fn said_line(label: Seq<char>, s: Option<String>) -> Seq<Seq<char>> {
    match s {
        Some(t) => seq![label + first_line(t@)],
        None => Seq::empty(),
    }
}

fn say_said(out: &mut Vec<String>, label: &str, s: &Option<String>)
    ensures
        views(final(out)@) == views(old(out)@) + said_line(label@, *s),
{
    let ghost start = views(out@);
    match s {
        Some(t) => {
            let line = take_first_line(t.as_str());
            text::say2(out, label, line.as_str());
        },
        None => {},
    }
    proof {
        assert(views(out@) =~= start + said_line(label@, *s));
    }
}

/// The first line of a change that a provider knows of.
pub open spec fn event_head(i: int, c: ProviderChangeEvent) -> Seq<char> {
    "  "@ + decimal((i + 1) as nat) + ". ["@ + id_head(c.session_id@) + "] "@ + shown_or(
        c.timestamp,
        "%Y-%m-%d %H:%M"@,
        "time unavailable"@,
    ) + " "@ + c.kind@ + (match c.move_path {
        Some(p) => " -> "@ + p@,
        None => ""@,
    }) + " ["@ + c.evidence@ + "; "@ + c.coverage@ + "]"@
}

/// The lines of a change that a provider knows of.
pub open spec fn event_lines(i: int, c: ProviderChangeEvent) -> Seq<Seq<char>> {
    seq![event_head(i, c)] + said_line("     User: "@, c.user_prompt) + said_line(
        "     Assistant: "@,
        c.assistant_response,
    )
}

fn write_event(i: usize, c: &ProviderChangeEvent) -> (r: Vec<String>)
    requires
        i < usize::MAX,
        has_short_id(c.session_id@),
    ensures
        views(r@) == event_lines(i as int, *c),
{
    let mut out: Vec<String> = Vec::new();
    let number = text::size(i + 1);
    let short = helpers::short_id(c.session_id.as_str());
    let at = time::show_or(c.timestamp, "%Y-%m-%d %H:%M", "time unavailable");
    let moved: String = match &c.move_path {
        Some(p) => text::cat2(" -> ", p.as_str()),
        None => "".to_owned(),
    };
    let a = text::cat5("  ", number.as_str(), ". [", short.as_str(), "] ");
    let b = text::cat5(a.as_str(), at.as_str(), " ", c.kind.as_str(), moved.as_str());
    let d = text::cat4(b.as_str(), " [", c.evidence.as_str(), "; ");
    text::say3(&mut out, d.as_str(), c.coverage.as_str(), "]");
    proof {
        assert(views(out@) =~= seq![event_head(i as int, *c)]);
    }
    say_said(&mut out, "     User: ", &c.user_prompt);
    say_said(&mut out, "     Assistant: ", &c.assistant_response);
    out
}

/// The line of a change that was not made.
pub open spec fn attempt_line(c: ProviderChangeEvent) -> Seq<char> {
    "  attempt ["@ + id_head(c.session_id@) + "] "@ + c.kind@ + " ["@ + c.outcome@ + "; "@
        + c.evidence@ + "]"@
}

fn write_attempt(c: &ProviderChangeEvent) -> (r: String)
    requires
        has_short_id(c.session_id@),
    ensures
        r@ == attempt_line(*c),
{
    let short = helpers::short_id(c.session_id.as_str());
    let a = text::cat5("  attempt [", short.as_str(), "] ", c.kind.as_str(), " [");
    text::cat5(a.as_str(), c.outcome.as_str(), "; ", c.evidence.as_str(), "]")
}

/// The sessions of a file can be shown.
pub open spec fn provider_ids_fit(f: ProviderFileEvolution) -> bool {
    (forall|i: int|
        0 <= i < f.changes@.len() ==> has_short_id((#[trigger] f.changes@[i]).session_id@)) && (
    forall|i: int|
        0 <= i < f.attempts@.len() ==> has_short_id((#[trigger] f.attempts@[i]).session_id@))
}

/// The first line of a file.
pub open spec fn provider_file_head(f: ProviderFileEvolution) -> Seq<char> {
    "File: "@ + f.file_path@ + " ("@ + decimal(f.total_changes as nat) + " applied changes, "@
        + decimal(f.total_attempts as nat) + " non-applied attempts across "@ + decimal(
        f.sessions_involved as nat,
    ) + " sessions)\n"@
}

/// The lines of a file.
pub open spec fn provider_file_lines(f: ProviderFileEvolution) -> Seq<Seq<char>> {
    seq![provider_file_head(f)] + spread_numbered(
        f.changes@,
        |i: int, c: ProviderChangeEvent| event_lines(i, c),
    ) + f.attempts@.map_values(|c: ProviderChangeEvent| attempt_line(c))
}

fn write_provider_file(f: &ProviderFileEvolution) -> (r: Vec<String>)
    requires
        provider_ids_fit(*f),
    ensures
        views(r@) == provider_file_lines(*f),
{
    let mut out: Vec<String> = Vec::new();
    let changes = text::size(f.total_changes);
    let attempts = text::size(f.total_attempts);
    let sessions = text::size(f.sessions_involved);
    let a = text::cat5("File: ", f.file_path.as_str(), " (", changes.as_str(), " applied changes, ");
    text::say5(
        &mut out,
        a.as_str(),
        attempts.as_str(),
        " non-applied attempts across ",
        sessions.as_str(),
        " sessions)\n",
    );
    proof {
        assert(views(out@) =~= seq![provider_file_head(*f)]);
    }
    let total: usize = f.changes.len();
    let write = |i: usize, c: &ProviderChangeEvent| -> (o: Vec<String>)
        requires
            i < total,
            has_short_id(c.session_id@),
        ensures
            views(o@) == event_lines(i as int, *c),
        { write_event(i, c) };
    let ghost g = |i: int, c: ProviderChangeEvent| event_lines(i, c);
    text::say_numbered(&mut out, &f.changes, write, Ghost(g));
    let ghost g2 = |c: ProviderChangeEvent| attempt_line(c);
    text::say_each(&mut out, &f.attempts, write_attempt, Ghost(g2));
    out
}

/// What providers know of the changes of some files, for a reader.
pub open spec fn provider_lines(e: ProviderEvolution) -> Seq<Seq<char>> {
    if e.files@.len() == 0 {
        seq![
            "No source-backed file-change evidence found for files matching '"@ + e.file_pattern@
                + "'"@,
        ]
    } else {
        spread(e.files@, |f: ProviderFileEvolution| provider_file_lines(f)).push(
            "Evidence is bounded to structured patches/snapshots; shell writes are not inferred."@,
        ) + e.skipped@.map_values(|p: String| "warning: "@ + p@ + " unavailable"@)
            + e.warnings@.map_values(|w: String| "warning: "@ + w@)
    }
}

/// What providers know of the changes of some files, for a reader.
pub fn print_provider_evolution(e: &ProviderEvolution) -> (r: Vec<String>)
    requires
        forall|i: int| 0 <= i < e.files@.len() ==> provider_ids_fit(#[trigger] e.files@[i]),
    ensures
        views(r@) == provider_lines(*e),
{
    let mut out: Vec<String> = Vec::new();
    proof {
        assert(views(out@) =~= Seq::empty());
    }
    if e.files.len() == 0 {
        text::say3(
            &mut out,
            "No source-backed file-change evidence found for files matching '",
            e.file_pattern.as_str(),
            "'",
        );
        proof {
            assert(views(out@) =~= provider_lines(*e));
        }
        return out;
    }
    let ghost g = |f: ProviderFileEvolution| provider_file_lines(f);
    text::say_all(&mut out, &e.files, write_provider_file, Ghost(g));
    proof {
        assert(views(out@) =~= spread(e.files@, g));
    }
    text::say(
        &mut out,
        "Evidence is bounded to structured patches/snapshots; shell writes are not inferred.",
    );
    let unavailable = |p: &String| -> (o: String)
        ensures
            o@ == "warning: "@ + p@ + " unavailable"@,
        { text::cat3("warning: ", p.as_str(), " unavailable") };
    let ghost g2 = |p: String| "warning: "@ + p@ + " unavailable"@;
    text::say_each(&mut out, &e.skipped, unavailable, Ghost(g2));
    let warn = |w: &String| -> (o: String)
        ensures
            o@ == "warning: "@ + w@,
        { text::cat2("warning: ", w.as_str()) };
    let ghost g3 = |w: String| "warning: "@ + w@;
    text::say_each(&mut out, &e.warnings, warn, Ghost(g3));
    out
}

/// The fields of a change that a provider knows of.
pub open spec fn event_fields(c: ProviderChangeEvent) -> Seq<(Seq<char>, JsonView)> {
    seq![
        ("timestamp"@, time_json(c.timestamp, false)),
        ("provider"@, JsonView::Text(c.provider@)),
        ("qualified_id"@, JsonView::Text(c.qualified_id@)),
        ("session_id"@, JsonView::Text(c.session_id@)),
        ("project_path"@, JsonView::Text(c.project_path@)),
        ("entry_id"@, JsonView::Text(c.entry_id@)),
        ("operation_id"@, optional_text(c.operation_id)),
        ("version"@, optional_number(c.version)),
        ("kind"@, JsonView::Text(c.kind@)),
        ("move_path"@, optional_text(c.move_path)),
        ("evidence"@, JsonView::Text(c.evidence@)),
        ("outcome"@, JsonView::Text(c.outcome@)),
        ("coverage"@, JsonView::Text(c.coverage@)),
        ("record_ordinal"@, number_json(c.record_ordinal as nat)),
        ("outcome_record_ordinal"@, optional_number(c.outcome_record_ordinal)),
        ("user_prompt"@, optional_text(c.user_prompt)),
        ("assistant_response"@, optional_text(c.assistant_response)),
        ("thinking"@, optional_text(c.thinking)),
        ("tools_used"@, texts_json(views(c.tools_used@))),
        ("had_errors"@, JsonView::Bool(c.had_errors)),
    ]
}

/// A change that a provider knows of, as a JSON object.
#[verifier::rlimit(30)]
pub fn event_json(c: &ProviderChangeEvent) -> (r: Json)
    ensures
        r@ == JsonView::Object(event_fields(*c)),
{
    let mut fields: Vec<(String, Json)> = Vec::new();
    json::put(&mut fields, "timestamp", json::of_time(c.timestamp, false));
    json::put(&mut fields, "provider", json::of_text(c.provider.as_str()));
    json::put(&mut fields, "qualified_id", json::of_text(c.qualified_id.as_str()));
    json::put(&mut fields, "session_id", json::of_text(c.session_id.as_str()));
    json::put(&mut fields, "project_path", json::of_text(c.project_path.as_str()));
    json::put(&mut fields, "entry_id", json::of_text(c.entry_id.as_str()));
    json::put(&mut fields, "operation_id", json::of_option(&c.operation_id));
    json::put(&mut fields, "version", of_optional_number(c.version));
    json::put(&mut fields, "kind", json::of_text(c.kind.as_str()));
    json::put(&mut fields, "move_path", json::of_option(&c.move_path));
    json::put(&mut fields, "evidence", json::of_text(c.evidence.as_str()));
    json::put(&mut fields, "outcome", json::of_text(c.outcome.as_str()));
    json::put(&mut fields, "coverage", json::of_text(c.coverage.as_str()));
    json::put(&mut fields, "record_ordinal", json::of_number(c.record_ordinal));
    json::put(
        &mut fields,
        "outcome_record_ordinal",
        of_optional_number(c.outcome_record_ordinal),
    );
    json::put(&mut fields, "user_prompt", json::of_option(&c.user_prompt));
    json::put(&mut fields, "assistant_response", json::of_option(&c.assistant_response));
    json::put(&mut fields, "thinking", json::of_option(&c.thinking));
    json::put(&mut fields, "tools_used", json::of_texts(&c.tools_used));
    json::put(&mut fields, "had_errors", Json::Bool(c.had_errors));
    proof {
        assert(fields_view(fields@) =~= event_fields(*c));
    }
    Json::Object(fields)
}

/// A list of changes as JSON.
pub open spec fn events_view(events: Seq<ProviderChangeEvent>) -> JsonView {
    JsonView::Array(
        events.map_values(|c: ProviderChangeEvent| JsonView::Object(event_fields(c))),
    )
}

/// The fields of a file.
pub open spec fn provider_file_fields(f: ProviderFileEvolution) -> Seq<(Seq<char>, JsonView)> {
    seq![
        ("file_path"@, JsonView::Text(f.file_path@)),
        ("total_changes"@, number_json(f.total_changes as nat)),
        ("total_attempts"@, number_json(f.total_attempts as nat)),
        ("sessions_involved"@, number_json(f.sessions_involved as nat)),
        ("changes"@, events_view(f.changes@)),
        ("attempts"@, events_view(f.attempts@)),
    ]
}

fn provider_file_json(f: &ProviderFileEvolution) -> (r: Json)
    ensures
        r@ == JsonView::Object(provider_file_fields(*f)),
{
    let mut fields: Vec<(String, Json)> = Vec::new();
    let ghost g = |c: ProviderChangeEvent| JsonView::Object(event_fields(c));
    json::put(&mut fields, "file_path", json::of_text(f.file_path.as_str()));
    json::put(&mut fields, "total_changes", json::of_size(f.total_changes));
    json::put(&mut fields, "total_attempts", json::of_size(f.total_attempts));
    json::put(&mut fields, "sessions_involved", json::of_size(f.sessions_involved));
    json::put(&mut fields, "changes", json::of_list(&f.changes, event_json, Ghost(g)));
    json::put(&mut fields, "attempts", json::of_list(&f.attempts, event_json, Ghost(g)));
    proof {
        assert(fields_view(fields@) =~= provider_file_fields(*f));
    }
    Json::Object(fields)
}

/// The fields of what providers know of the changes of some files.
pub open spec fn provider_fields(e: ProviderEvolution) -> Seq<(Seq<char>, JsonView)> {
    seq![
        ("project_path"@, JsonView::Text(e.project@)),
        ("file_pattern"@, JsonView::Text(e.file_pattern@)),
        (
            "files"@,
            JsonView::Array(
                e.files@.map_values(
                    |f: ProviderFileEvolution| JsonView::Object(provider_file_fields(f)),
                ),
            ),
        ),
        ("skipped_providers"@, texts_json(skipped_words(e.skipped@))),
        ("warnings"@, texts_json(views(e.warnings@))),
        (
            "coverage_note"@,
            JsonView::Text(
                "Structured patch/snapshot evidence only; arbitrary shell writes are not inferred."@,
            ),
        ),
    ]
}

/// What providers know of the changes of some files, as a JSON object.
pub fn provider_evolution_json(e: &ProviderEvolution) -> (r: Json)
    ensures
        r@ == JsonView::Object(provider_fields(*e)),
{
    let mut fields: Vec<(String, Json)> = Vec::new();
    let ghost g = |f: ProviderFileEvolution| JsonView::Object(provider_file_fields(f));
    let skipped = write_skipped(&e.skipped);
    json::put(&mut fields, "project_path", json::of_text(e.project.as_str()));
    json::put(&mut fields, "file_pattern", json::of_text(e.file_pattern.as_str()));
    json::put(&mut fields, "files", json::of_list(&e.files, provider_file_json, Ghost(g)));
    json::put(&mut fields, "skipped_providers", json::of_texts(&skipped));
    json::put(&mut fields, "warnings", json::of_texts(&e.warnings));
    json::put(
        &mut fields,
        "coverage_note",
        json::of_text(
            "Structured patch/snapshot evidence only; arbitrary shell writes are not inferred.",
        ),
    );
    proof {
        assert(fields_view(fields@) =~= provider_fields(*e));
    }
    Json::Object(fields)
}

// ---------------------------------------------------------------------------
// Spans of time
// ---------------------------------------------------------------------------

/// A session lies in a span of time if and only if it does not end before the span and does not
/// begin after it; one of which no time is known lies only in a span without bounds.
pub proof fn sessions_reach_into_spans(start: i128, end: i128, since: i128, until: i128)
    ensures
        in_range(Some((start, end)), Some(since), Some(until)) <==> since <= end && start <= until,
        in_range(Some((start, end)), Some(since), None) <==> since <= end,
        in_range(Some((start, end)), None, Some(until)) <==> start <= until,
        in_range(Some((start, end)), None, None),
        in_range(None, None, None),
        !in_range(None, Some(since), None),
        !in_range(None, None, Some(until)),
        !in_range(None, Some(since), Some(until)),
{
}

} // verus!
