//! What goes wrong again and again in a project.
use vstd::prelude::*;

use crate::commands::chain::{text_or, write_or};
use crate::commands::helpers;
use crate::commands::helpers::{has_short_id, id_head};
use crate::json;
use crate::json::{fields_view, number_json, optional_text, texts_json, Json, JsonView};
use crate::order::first_of_list;
use crate::text;
use crate::text::{decimal, joined, repeated, spread_numbered, views};

verus! {

/// An error that comes again.
#[derive(Debug, Clone, PartialEq, Eq)]
pub struct RecurringError {
    /// The tool.
    pub tool_name: String,
    /// What the error is like.
    pub error_pattern: String,
    /// How often it came.
    pub count: usize,
    /// The sessions.
    pub sessions: Vec<String>,
    /// When it last came.
    pub last_seen: Option<String>,
    /// How it was mended once.
    pub example_resolution: Option<String>,
}

/// A correction that comes again.
#[derive(Debug, Clone, PartialEq, Eq)]
pub struct RecurringCorrection {
    /// What the correction is like.
    pub pattern: String,
    /// How often it came.
    pub count: usize,
    /// The sessions.
    pub sessions: Vec<String>,
    /// Examples.
    pub examples: Vec<String>,
}

/// What goes wrong again and again.
#[derive(Debug, Clone, PartialEq, Eq)]
pub struct ProjectLessons {
    /// The project.
    pub project: String,
    /// The number of sessions.
    pub sessions_analyzed: usize,
    /// The number of errors.
    pub total_errors: usize,
    /// The number of corrections.
    pub total_corrections: usize,
    /// The tools that failed most, and how often.
    pub top_failure_modes: Vec<(String, usize)>,
    /// The errors.
    pub recurring_errors: Vec<RecurringError>,
    /// The corrections.
    pub recurring_corrections: Vec<RecurringCorrection>,
}

/// The kind of lessons that is looked for: all where none is named.
pub fn category_of(category: &Option<String>) -> (r: String)
    ensures
        r@ == text_or(*category, "all"@),
{
    write_or(category, "all")
}

// ---------------------------------------------------------------------------
// For a reader
// ---------------------------------------------------------------------------

/// The sessions of an error that are shown have short ids.
pub open spec fn ids_fit(e: RecurringError) -> bool {
    forall|i: int|
        0 <= i < e.sessions@.len() && i < 3 ==> has_short_id((#[trigger] e.sessions@[i])@)
}

/// The first sessions of an error, in short.
pub open spec fn session_heads(sessions: Seq<String>) -> Seq<Seq<char>> {
    first_of_list(sessions, 3).map_values(|s: String| id_head(s@))
}

fn write_heads(sessions: &Vec<String>) -> (r: Vec<String>)
    requires
        forall|i: int|
            0 <= i < sessions@.len() && i < 3 ==> has_short_id((#[trigger] sessions@[i])@),
    ensures
        views(r@) == session_heads(sessions@),
{
    let mut out: Vec<String> = Vec::new();
    let head: usize = if sessions.len() <= 3 {
        sessions.len()
    } else {
        3
    };
    let ghost all = session_heads(sessions@);
    let mut i: usize = 0;
    proof {
        assert(views(out@) =~= all.take(0));
    }
    while i < head
        invariant
            i <= head <= sessions@.len(),
            head <= 3,
            all.len() == head,
            forall|k: int| 0 <= k < head ==> #[trigger] all[k] == id_head(sessions@[k]@),
            forall|i: int|
                0 <= i < sessions@.len() && i < 3 ==> has_short_id((#[trigger] sessions@[i])@),
            views(out@) == all.take(i as int),
        decreases head - i,
    {
        let short = helpers::short_id(sessions[i].as_str());
        text::say(&mut out, short.as_str());
        proof {
            assert(all.take(i + 1) =~= all.take(i as int).push(all[i as int]));
        }
        i = i + 1;
    }
    proof {
        assert(all.take(i as int) =~= all);
    }
    out
}

/// The first line of an error.
pub open spec fn error_head(i: int, e: RecurringError) -> Seq<char> {
    "  "@ + decimal((i + 1) as nat) + ". ["@ + e.tool_name@ + "] "@ + e.error_pattern@ + " ("@
        + decimal(e.count as nat) + "x, sessions: "@ + joined(session_heads(e.sessions@), ", "@)
        + ")"@
}

/// The lines of an error.
pub open spec fn error_lines(i: int, e: RecurringError) -> Seq<Seq<char>> {
    (seq![error_head(i, e)] + (match e.example_resolution {
        Some(fix) => seq!["     Fix: "@ + fix@],
        None => Seq::empty(),
    })).push(""@)
}

fn write_error(i: usize, e: &RecurringError) -> (r: Vec<String>)
    requires
        i < usize::MAX,
        ids_fit(*e),
    ensures
        views(r@) == error_lines(i as int, *e),
{
    let mut out: Vec<String> = Vec::new();
    let number = text::size(i + 1);
    let count = text::size(e.count);
    let heads = write_heads(&e.sessions);
    let list = text::join(&heads, ", ");
    let a = text::cat5("  ", number.as_str(), ". [", e.tool_name.as_str(), "] ");
    let b = text::cat4(a.as_str(), e.error_pattern.as_str(), " (", count.as_str());
    text::say4(&mut out, b.as_str(), "x, sessions: ", list.as_str(), ")");
    match &e.example_resolution {
        Some(fix) => text::say2(&mut out, "     Fix: ", fix.as_str()),
        None => {},
    }
    text::say(&mut out, "");
    proof {
        assert(views(out@) =~= error_lines(i as int, *e));
    }
    out
}

/// The lines of a correction.
pub open spec fn correction_lines(i: int, c: RecurringCorrection) -> Seq<Seq<char>> {
    seq![
        "  "@ + decimal((i + 1) as nat) + ". "@ + c.pattern@ + " ("@ + decimal(c.count as nat)
            + "x)"@,
        ""@,
    ]
}

fn write_correction(i: usize, c: &RecurringCorrection) -> (r: Vec<String>)
    requires
        i < usize::MAX,
    ensures
        views(r@) == correction_lines(i as int, *c),
{
    let mut out: Vec<String> = Vec::new();
    let number = text::size(i + 1);
    let count = text::size(c.count);
    let a = text::cat5("  ", number.as_str(), ". ", c.pattern.as_str(), " (");
    text::say3(&mut out, a.as_str(), count.as_str(), "x)");
    text::say(&mut out, "");
    proof {
        assert(views(out@) =~= correction_lines(i as int, *c));
    }
    out
}

/// The errors, where there are some.
pub open spec fn errors_part(errors: Seq<RecurringError>) -> Seq<Seq<char>> {
    if errors.len() == 0 {
        Seq::empty()
    } else {
        seq!["Recurring Errors:"@, repeated('-', 60)] + spread_numbered(
            errors,
            |i: int, e: RecurringError| error_lines(i, e),
        )
    }
}

fn write_errors(errors: &Vec<RecurringError>) -> (r: Vec<String>)
    requires
        forall|i: int| 0 <= i < errors@.len() ==> ids_fit(#[trigger] errors@[i]),
    ensures
        views(r@) == errors_part(errors@),
{
    let mut out: Vec<String> = Vec::new();
    proof {
        assert(views(out@) =~= Seq::empty());
    }
    if errors.len() > 0 {
        let total: usize = errors.len();
        let rule = text::repeat('-', 60);
        text::say(&mut out, "Recurring Errors:");
        text::say(&mut out, rule.as_str());
        proof {
            assert(views(out@) =~= seq!["Recurring Errors:"@, repeated('-', 60)]);
        }
        let write = |i: usize, e: &RecurringError| -> (o: Vec<String>)
            requires
                i < total,
                ids_fit(*e),
            ensures
                views(o@) == error_lines(i as int, *e),
            { write_error(i, e) };
        let ghost g = |i: int, e: RecurringError| error_lines(i, e);
        text::say_numbered(&mut out, errors, write, Ghost(g));
    }
    out
}

/// The corrections, where there are some.
pub open spec fn corrections_part(corrections: Seq<RecurringCorrection>) -> Seq<Seq<char>> {
    if corrections.len() == 0 {
        Seq::empty()
    } else {
        seq!["Recurring Corrections:"@, repeated('-', 60)] + spread_numbered(
            corrections,
            |i: int, c: RecurringCorrection| correction_lines(i, c),
        )
    }
}

fn write_corrections(corrections: &Vec<RecurringCorrection>) -> (r: Vec<String>)
    ensures
        views(r@) == corrections_part(corrections@),
{
    let mut out: Vec<String> = Vec::new();
    proof {
        assert(views(out@) =~= Seq::empty());
    }
    if corrections.len() > 0 {
        let total: usize = corrections.len();
        let rule = text::repeat('-', 60);
        text::say(&mut out, "Recurring Corrections:");
        text::say(&mut out, rule.as_str());
        proof {
            assert(views(out@) =~= seq!["Recurring Corrections:"@, repeated('-', 60)]);
        }
        let write = |i: usize, c: &RecurringCorrection| -> (o: Vec<String>)
            requires
                i < total,
            ensures
                views(o@) == correction_lines(i as int, *c),
            { write_correction(i, c) };
        let ghost g = |i: int, c: RecurringCorrection| correction_lines(i, c);
        text::say_numbered(&mut out, corrections, write, Ghost(g));
    }
    out
}

/// The tools that failed most, where there are some.
pub open spec fn modes_part(modes: Seq<(String, usize)>) -> Seq<Seq<char>> {
    if modes.len() == 0 {
        Seq::empty()
    } else {
        seq!["Top Failure Modes:"@] + modes.map_values(
            |m: (String, usize)| "  "@ + m.0@ + ": "@ + decimal(m.1 as nat) + " error(s)"@,
        )
    }
}

fn write_modes(modes: &Vec<(String, usize)>) -> (r: Vec<String>)
    ensures
        views(r@) == modes_part(modes@),
{
    let mut out: Vec<String> = Vec::new();
    if modes.len() > 0 {
        text::say(&mut out, "Top Failure Modes:");
        let write = |m: &(String, usize)| -> (o: String)
            ensures
                o@ == "  "@ + m.0@ + ": "@ + decimal(m.1 as nat) + " error(s)"@,
            {
                let count = text::size(m.1);
                text::cat5("  ", m.0.as_str(), ": ", count.as_str(), " error(s)")
            };
        let ghost g = |m: (String, usize)| "  "@ + m.0@ + ": "@ + decimal(m.1 as nat)
            + " error(s)"@;
        text::say_each(&mut out, modes, write, Ghost(g));
    }
    proof {
        assert(views(out@) =~= modes_part(modes@));
    }
    out
}

/// The first line of the lessons.
pub open spec fn lessons_head(l: ProjectLessons) -> Seq<char> {
    "Project lessons across "@ + decimal(l.sessions_analyzed as nat) + " sessions ("@ + decimal(
        l.total_errors as nat,
    ) + " errors, "@ + decimal(l.total_corrections as nat) + " corrections)\n"@
}

/// The lessons, for a reader.
pub open spec fn lessons_lines(l: ProjectLessons) -> Seq<Seq<char>> {
    if l.recurring_errors@.len() == 0 && l.recurring_corrections@.len() == 0 {
        seq![
            "No recurring lessons found across "@ + decimal(l.sessions_analyzed as nat)
                + " sessions."@,
        ]
    } else {
        seq![lessons_head(l)] + errors_part(l.recurring_errors@) + corrections_part(
            l.recurring_corrections@,
        ) + modes_part(l.top_failure_modes@)
    }
}

/// The lessons, for a reader.
pub fn print_lessons(l: &ProjectLessons) -> (r: Vec<String>)
    requires
        forall|i: int|
            0 <= i < l.recurring_errors@.len() ==> ids_fit(#[trigger] l.recurring_errors@[i]),
    ensures
        views(r@) == lessons_lines(*l),
{
    let mut out: Vec<String> = Vec::new();
    let sessions = text::size(l.sessions_analyzed);
    if l.recurring_errors.len() == 0 && l.recurring_corrections.len() == 0 {
        text::say3(
            &mut out,
            "No recurring lessons found across ",
            sessions.as_str(),
            " sessions.",
        );
        proof {
            assert(views(out@) =~= lessons_lines(*l));
        }
        return out;
    }
    let errors = text::size(l.total_errors);
    let corrections = text::size(l.total_corrections);
    let a = text::cat5(
        "Project lessons across ",
        sessions.as_str(),
        " sessions (",
        errors.as_str(),
        " errors, ",
    );
    text::say3(&mut out, a.as_str(), corrections.as_str(), " corrections)\n");
    proof {
        assert(views(out@) =~= seq![lessons_head(*l)]);
    }
    let error_lines = write_errors(&l.recurring_errors);
    text::say_more(&mut out, error_lines);
    let correction_lines = write_corrections(&l.recurring_corrections);
    text::say_more(&mut out, correction_lines);
    let mode_lines = write_modes(&l.top_failure_modes);
    text::say_more(&mut out, mode_lines);
    out
}

// ---------------------------------------------------------------------------
// As JSON
// ---------------------------------------------------------------------------

/// The fields of an error.
pub open spec fn error_fields(e: RecurringError) -> Seq<(Seq<char>, JsonView)> {
    seq![
        ("tool_name"@, JsonView::Text(e.tool_name@)),
        ("error_pattern"@, JsonView::Text(e.error_pattern@)),
        ("count"@, number_json(e.count as nat)),
        ("sessions"@, texts_json(views(e.sessions@))),
        ("last_seen"@, optional_text(e.last_seen)),
        ("example_resolution"@, optional_text(e.example_resolution)),
    ]
}

fn error_json(e: &RecurringError) -> (r: Json)
    ensures
        r@ == JsonView::Object(error_fields(*e)),
{
    let mut fields: Vec<(String, Json)> = Vec::new();
    json::put(&mut fields, "tool_name", json::of_text(e.tool_name.as_str()));
    json::put(&mut fields, "error_pattern", json::of_text(e.error_pattern.as_str()));
    json::put(&mut fields, "count", json::of_size(e.count));
    json::put(&mut fields, "sessions", json::of_texts(&e.sessions));
    json::put(&mut fields, "last_seen", json::of_option(&e.last_seen));
    json::put(&mut fields, "example_resolution", json::of_option(&e.example_resolution));
    proof {
        assert(fields_view(fields@) =~= error_fields(*e));
    }
    Json::Object(fields)
}

/// The fields of a correction.
pub open spec fn correction_fields(c: RecurringCorrection) -> Seq<(Seq<char>, JsonView)> {
    seq![
        ("pattern"@, JsonView::Text(c.pattern@)),
        ("count"@, number_json(c.count as nat)),
        ("sessions"@, texts_json(views(c.sessions@))),
        ("examples"@, texts_json(views(c.examples@))),
    ]
}

fn correction_json(c: &RecurringCorrection) -> (r: Json)
    ensures
        r@ == JsonView::Object(correction_fields(*c)),
{
    let mut fields: Vec<(String, Json)> = Vec::new();
    json::put(&mut fields, "pattern", json::of_text(c.pattern.as_str()));
    json::put(&mut fields, "count", json::of_size(c.count));
    json::put(&mut fields, "sessions", json::of_texts(&c.sessions));
    json::put(&mut fields, "examples", json::of_texts(&c.examples));
    proof {
        assert(fields_view(fields@) =~= correction_fields(*c));
    }
    Json::Object(fields)
}

/// A tool and how often it failed, as a JSON list.
pub open spec fn mode_view(m: (String, usize)) -> JsonView {
    JsonView::Array(seq![JsonView::Text(m.0@), number_json(m.1 as nat)])
}

/// A tool and how often it failed, as a JSON list.
pub fn mode_json(m: &(String, usize)) -> (r: Json)
    ensures
        r@ == mode_view(*m),
{
    let mut items: Vec<Json> = Vec::new();
    let name = json::of_text(m.0.as_str());
    let count = json::of_size(m.1);
    proof {
        json::lemma_items_push(items@, name);
        json::lemma_items_push(items@.push(name), count);
        json::lemma_items_view(items@);
        assert(json::items_view(items@.push(name).push(count)) =~= seq![
            JsonView::Text(m.0@),
            number_json(m.1 as nat),
        ]);
    }
    items.push(name);
    items.push(count);
    Json::Array(items)
}

/// The fields of the lessons.
pub open spec fn lessons_fields(l: ProjectLessons) -> Seq<(Seq<char>, JsonView)> {
    seq![
        ("project"@, JsonView::Text(l.project@)),
        ("sessions_analyzed"@, number_json(l.sessions_analyzed as nat)),
        ("total_errors"@, number_json(l.total_errors as nat)),
        ("total_corrections"@, number_json(l.total_corrections as nat)),
        (
            "top_failure_modes"@,
            JsonView::Array(l.top_failure_modes@.map_values(|m: (String, usize)| mode_view(m))),
        ),
        (
            "recurring_errors"@,
            JsonView::Array(
                l.recurring_errors@.map_values(
                    |e: RecurringError| JsonView::Object(error_fields(e)),
                ),
            ),
        ),
        (
            "recurring_corrections"@,
            JsonView::Array(
                l.recurring_corrections@.map_values(
                    |c: RecurringCorrection| JsonView::Object(correction_fields(c)),
                ),
            ),
        ),
    ]
}

/// The lessons as a JSON object.
pub fn lessons_json(l: &ProjectLessons) -> (r: Json)
    ensures
        r@ == JsonView::Object(lessons_fields(*l)),
{
    let mut fields: Vec<(String, Json)> = Vec::new();
    let ghost g1 = |m: (String, usize)| mode_view(m);
    let ghost g2 = |e: RecurringError| JsonView::Object(error_fields(e));
    let ghost g3 = |c: RecurringCorrection| JsonView::Object(correction_fields(c));
    json::put(&mut fields, "project", json::of_text(l.project.as_str()));
    json::put(&mut fields, "sessions_analyzed", json::of_size(l.sessions_analyzed));
    json::put(&mut fields, "total_errors", json::of_size(l.total_errors));
    json::put(&mut fields, "total_corrections", json::of_size(l.total_corrections));
    let modes = json::of_list(&l.top_failure_modes, mode_json, Ghost(g1));
    json::put(&mut fields, "top_failure_modes", modes);
    let errors = json::of_list(&l.recurring_errors, error_json, Ghost(g2));
    json::put(&mut fields, "recurring_errors", errors);
    let corrections = json::of_list(&l.recurring_corrections, correction_json, Ghost(g3));
    json::put(&mut fields, "recurring_corrections", corrections);
    proof {
        assert(fields_view(fields@) =~= lessons_fields(*l));
    }
    Json::Object(fields)
}

} // verus!
