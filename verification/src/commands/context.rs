//! What stands around an event of a session.
use vstd::prelude::*;

use crate::commands::parse_date_filter;
use crate::commands::{date_filter, states_filter};
use crate::error::{invalid, invalid_argument, SnatchError};
use crate::json;
use crate::json::{
    fields_view, given_number, number_json, optional_text, texts_json, time_json, Json, JsonView,
};
use crate::order::first_of_list;
use crate::text;
use crate::text::{decimal, joined, lines_of, spread, views};
use crate::time;
use crate::time::{named_instant, shown_or};

verus! {

/// What is asked for.
#[derive(Debug, Clone, PartialEq, Eq)]
pub struct ContextArgs {
    /// The session.
    pub session_id: String,
    /// The providers.
    pub provider: Vec<String>,
    /// The message.
    pub message_id: Option<String>,
    /// The time.
    pub timestamp: Option<String>,
    /// How much around it.
    pub context_window: usize,
}

/// How a session is looked up.
#[derive(Debug, Clone, Copy, PartialEq, Eq, Structural)]
pub enum ContextRoute {
    /// By its provider.
    Provider,
    /// In the directory.
    Directory,
}

/// Whether the providers have to be known: some are named, or the id may name one.
pub fn needs_registry(args: &ContextArgs) -> (r: bool)
    ensures
        r == (args.provider@.len() > 0 || args.session_id@.contains(':')),
{
    args.provider.len() > 0 || text::contains_char(args.session_id.as_str(), ':')
}

/// How the session is looked up, or why nothing can be shown. `looks_qualified` is whether the
/// providers take the id for one of theirs; it counts only for an id with a colon.
pub fn run(args: &ContextArgs, looks_qualified: bool) -> (r: Result<ContextRoute, SnatchError>)
    ensures
        if args.message_id is None && args.timestamp is None {
            r matches Err(e) && e@ == invalid(
                "message_id or timestamp"@,
                "either --message-id or --timestamp is required"@,
            )
        } else if args.provider@.len() > 0 || (args.session_id@.contains(':') && looks_qualified) {
            r == Ok::<ContextRoute, SnatchError>(ContextRoute::Provider)
        } else {
            r == Ok::<ContextRoute, SnatchError>(ContextRoute::Directory)
        },
{
    if args.message_id.is_none() && args.timestamp.is_none() {
        return Err(
            invalid_argument(
                "message_id or timestamp",
                "either --message-id or --timestamp is required".to_owned(),
            ),
        );
    }
    if args.provider.len() > 0 || (needs_registry(args) && looks_qualified) {
        Ok(ContextRoute::Provider)
    } else {
        Ok(ContextRoute::Directory)
    }
}

/// The point in time that a text stands for: one that it names, else a day or a span of time
/// before `now`. None where the calendar does not hold it.
pub fn parse_timestamp(s: &str, now: i128) -> (r: Option<Result<i128, SnatchError>>)
    ensures
        match named_instant(s@) {
            Some((seconds, nanos)) => r matches Some(Ok(t)) && t == seconds * 1_000_000_000 + nanos,
            None => states_filter(r, date_filter(s@, now)),
        },
{
    match time::parse_instant(s) {
        Some((seconds, nanos)) => {
            let whole: i128 = seconds as i128 * 1_000_000_000;
            Some(Ok(whole + nanos as i128))
        },
        None => parse_date_filter(s, now),
    }
}

// ---------------------------------------------------------------------------
// For a reader
// ---------------------------------------------------------------------------

/// A message near the event, or the event itself.
#[derive(Debug, Clone, PartialEq, Eq)]
pub struct ContextTurn {
    /// Its number.
    pub index: usize,
    /// Its kind.
    pub message_type: String,
    /// Its id.
    pub uuid: Option<String>,
    /// When it was sent.
    pub timestamp: Option<i128>,
    /// What it says.
    pub text: Option<String>,
    /// The tools that it calls.
    pub tools: Vec<String>,
    /// Whether something failed.
    pub had_errors: bool,
}

/// A prompt with its answer near the event.
#[derive(Debug, Clone, PartialEq, Eq)]
pub struct SemanticTurn {
    /// Its number.
    pub index: usize,
    /// The id that its provider gave.
    pub turn_id: Option<String>,
    /// Its first entry.
    pub start_entry_index: usize,
    /// Its last entry.
    pub end_entry_index: usize,
    /// The number of its events.
    pub event_count: usize,
    /// The prompt.
    pub user_prompt: Option<String>,
    /// What was said during the answer.
    pub steering_prompts: Vec<String>,
    /// The answer.
    pub assistant_response: Option<String>,
    /// The tools that it calls.
    pub tools: Vec<String>,
    /// What failed.
    pub confirmed_failure_count: usize,
    /// What seems to have failed.
    pub inferred_failure_count: usize,
}

/// The prompts around the event.
#[derive(Debug, Clone, PartialEq, Eq)]
pub struct SemanticWindow {
    /// Those before.
    pub before: Vec<SemanticTurn>,
    /// The one with the event.
    pub focus: SemanticTurn,
    /// Those after.
    pub after: Vec<SemanticTurn>,
}

/// What stands around an event.
#[derive(Debug, Clone, PartialEq, Eq)]
pub struct EventContext {
    /// The number of the event.
    pub target_index: usize,
    /// The event.
    pub target: ContextTurn,
    /// What comes before.
    pub before: Vec<ContextTurn>,
    /// What comes after.
    pub after: Vec<ContextTurn>,
    /// The prompts around it.
    pub semantic_window: Option<SemanticWindow>,
    /// The files that it has to do with.
    pub related_files: Vec<String>,
    /// How much failed.
    pub error_count: usize,
    /// What failed.
    pub confirmed_failure_count: Option<u64>,
    /// What seems to have failed.
    pub inferred_failure_count: Option<u64>,
}

/// A line behind a prefix, where there is something to say.
pub open spec fn given_behind(
    prefix: Seq<char>,
    label: Seq<char>,
    what: Option<String>,
) -> Seq<Seq<char>> {
    match what {
        Some(s) => seq![prefix + label + s@],
        None => Seq::empty(),
    }
}

/// The line of the tools, where there are some.
pub open spec fn tools_line(prefix: Seq<char>, tools: Seq<String>) -> Seq<Seq<char>> {
    if tools.len() == 0 {
        Seq::empty()
    } else {
        seq![prefix + "    tools: "@ + joined(views(tools), ", "@)]
    }
}

fn say_given_behind(out: &mut Vec<String>, prefix: &str, label: &str, what: &Option<String>)
    ensures
        views(final(out)@) == views(old(out)@) + given_behind(prefix@, label@, *what),
{
    let ghost start = views(out@);
    match what {
        Some(s) => text::say3(out, prefix, label, s.as_str()),
        None => {},
    }
    proof {
        assert(views(out@) =~= start + given_behind(prefix@, label@, *what));
    }
}

fn say_tools(out: &mut Vec<String>, prefix: &str, tools: &Vec<String>)
    ensures
        views(final(out)@) == views(old(out)@) + tools_line(prefix@, tools@),
{
    let ghost start = views(out@);
    if tools.len() > 0 {
        let list = text::join(tools, ", ");
        text::say3(out, prefix, "    tools: ", list.as_str());
    }
    proof {
        assert(views(out@) =~= start + tools_line(prefix@, tools@));
    }
}

/// The first line of a prompt.
pub open spec fn semantic_head(turn: SemanticTurn, prefix: Seq<char>) -> Seq<char> {
    prefix + "Turn "@ + decimal(turn.index as nat) + " ("@ + (match turn.turn_id {
        Some(id) => id@,
        None => "derived"@,
    }) + ", entries "@ + decimal(turn.start_entry_index as nat) + "-"@ + decimal(
        turn.end_entry_index as nat,
    ) + ", "@ + decimal(turn.event_count as nat) + " events):"@
}

/// The line of what failed, where something did.
pub open spec fn failures_line(turn: SemanticTurn, prefix: Seq<char>) -> Seq<Seq<char>> {
    if turn.confirmed_failure_count > 0 || turn.inferred_failure_count > 0 {
        seq![
            prefix + "    failures: "@ + decimal(turn.confirmed_failure_count as nat)
                + " confirmed, "@ + decimal(turn.inferred_failure_count as nat) + " inferred"@,
        ]
    } else {
        Seq::empty()
    }
}

/// The lines of a prompt with its answer.
pub open spec fn semantic_lines(turn: SemanticTurn, prefix: Seq<char>) -> Seq<Seq<char>> {
    (seq![semantic_head(turn, prefix)] + given_behind(prefix, "    user: "@, turn.user_prompt)
        + turn.steering_prompts@.map_values(|s: String| prefix + "    steering: "@ + s@)
        + given_behind(prefix, "    assistant: "@, turn.assistant_response) + tools_line(
        prefix,
        turn.tools@,
    ) + failures_line(turn, prefix)).push(""@)
}

fn write_semantic_head(turn: &SemanticTurn, prefix: &str) -> (r: String)
    ensures
        r@ == semantic_head(*turn, prefix@),
{
    let index = text::size(turn.index);
    let first = text::size(turn.start_entry_index);
    let last = text::size(turn.end_entry_index);
    let events = text::size(turn.event_count);
    let native: &str = match &turn.turn_id {
        Some(id) => id.as_str(),
        None => "derived",
    };
    let a = text::cat5(prefix, "Turn ", index.as_str(), " (", native);
    let b = text::cat5(a.as_str(), ", entries ", first.as_str(), "-", last.as_str());
    text::cat4(b.as_str(), ", ", events.as_str(), " events):")
}

/// The lines of a prompt with its answer.
pub fn print_semantic_turn(turn: &SemanticTurn, prefix: &str) -> (r: Vec<String>)
    ensures
        views(r@) == semantic_lines(*turn, prefix@),
{
    let mut out: Vec<String> = Vec::new();
    let head = write_semantic_head(turn, prefix);
    text::say(&mut out, head.as_str());
    proof {
        assert(views(out@) =~= seq![semantic_head(*turn, prefix@)]);
    }
    say_given_behind(&mut out, prefix, "    user: ", &turn.user_prompt);
    let write = |s: &String| -> (o: String)
        ensures
            o@ == prefix@ + "    steering: "@ + s@,
        { text::cat3(prefix, "    steering: ", s.as_str()) };
    let ghost g = |s: String| prefix@ + "    steering: "@ + s@;
    text::say_each(&mut out, &turn.steering_prompts, write, Ghost(g));
    say_given_behind(&mut out, prefix, "    assistant: ", &turn.assistant_response);
    say_tools(&mut out, prefix, &turn.tools);
    let ghost so_far = views(out@);
    if turn.confirmed_failure_count > 0 || turn.inferred_failure_count > 0 {
        let confirmed = text::size(turn.confirmed_failure_count);
        let inferred = text::size(turn.inferred_failure_count);
        let a = text::cat4(prefix, "    failures: ", confirmed.as_str(), " confirmed, ");
        text::say3(&mut out, a.as_str(), inferred.as_str(), " inferred");
    }
    proof {
        assert(views(out@) =~= so_far + failures_line(*turn, prefix@));
    }
    text::say(&mut out, "");
    out
}

/// The first lines of a message, behind a prefix.
pub open spec fn text_behind(prefix: Seq<char>, what: Option<String>) -> Seq<Seq<char>> {
    match what {
        Some(s) => first_of_list(lines_of(s@), 5).map_values(|l: Seq<char>| prefix + "    "@ + l),
        None => Seq::empty(),
    }
}

/// The first line of a message.
pub open spec fn turn_head(turn: ContextTurn, prefix: Seq<char>) -> Seq<char> {
    prefix + "["@ + decimal(turn.index as nat) + "] "@ + shown_or(
        turn.timestamp,
        "%H:%M:%S"@,
        ""@,
    ) + " "@ + turn.message_type@ + (if turn.had_errors {
        " ✗"@
    } else {
        ""@
    }) + ":"@
}

/// The lines of a message.
pub open spec fn turn_lines(turn: ContextTurn, prefix: Seq<char>) -> Seq<Seq<char>> {
    (seq![turn_head(turn, prefix)] + text_behind(prefix, turn.text) + tools_line(
        prefix,
        turn.tools@,
    )).push(""@)
}

fn write_text(prefix: &str, what: &Option<String>) -> (r: Vec<String>)
    ensures
        views(r@) == text_behind(prefix@, *what),
{
    let mut out: Vec<String> = Vec::new();
    proof {
        assert(views(out@) =~= Seq::empty());
    }
    match what {
        Some(s) => {
            let mut lines = text::lines(s.as_str());
            let ghost all = views(lines@);
            if lines.len() > 5 {
                lines.truncate(5);
            }
            proof {
                assert(views(lines@) =~= first_of_list(all, 5));
            }
            let write = |l: &String| -> (o: String)
                ensures
                    o@ == prefix@ + "    "@ + l@,
                { text::cat3(prefix, "    ", l.as_str()) };
            let ghost g = |l: String| prefix@ + "    "@ + l@;
            text::say_each(&mut out, &lines, write, Ghost(g));
            proof {
                assert(views(out@) =~= text_behind(prefix@, *what));
            }
        },
        None => {},
    }
    out
}

/// The lines of a message.
pub fn print_turn(turn: &ContextTurn, prefix: &str) -> (r: Vec<String>)
    ensures
        views(r@) == turn_lines(*turn, prefix@),
{
    let mut out: Vec<String> = Vec::new();
    let index = text::size(turn.index);
    let at = time::show_or(turn.timestamp, "%H:%M:%S", "");
    let mark: &str = if turn.had_errors {
        " ✗"
    } else {
        ""
    };
    let a = text::cat5(prefix, "[", index.as_str(), "] ", at.as_str());
    text::say5(&mut out, a.as_str(), " ", turn.message_type.as_str(), mark, ":");
    proof {
        assert(views(out@) =~= seq![turn_head(*turn, prefix@)]);
    }
    let lines = write_text(prefix, &turn.text);
    text::say_more(&mut out, lines);
    say_tools(&mut out, prefix, &turn.tools);
    text::say(&mut out, "");
    out
}

/// The messages or prompts around the event.
pub open spec fn window_lines(c: EventContext) -> Seq<Seq<char>> {
    match c.semantic_window {
        Some(w) => spread(w.before@, |t: SemanticTurn| semantic_lines(t, "  "@)) + semantic_lines(
            w.focus,
            "◆ "@,
        ) + seq!["Target event:"@] + turn_lines(c.target, "▸ "@) + spread(
            w.after@,
            |t: SemanticTurn| semantic_lines(t, "  "@),
        ),
        None => spread(c.before@, |t: ContextTurn| turn_lines(t, "  "@)) + turn_lines(
            c.target,
            "▸ "@,
        ) + spread(c.after@, |t: ContextTurn| turn_lines(t, "  "@)),
    }
}

fn write_window(c: &EventContext) -> (r: Vec<String>)
    ensures
        views(r@) == window_lines(*c),
{
    let mut out: Vec<String> = Vec::new();
    proof {
        assert(views(out@) =~= Seq::empty());
    }
    let target = print_turn(&c.target, "▸ ");
    match &c.semantic_window {
        Some(w) => {
            let write = |t: &SemanticTurn| -> (o: Vec<String>)
                ensures
                    views(o@) == semantic_lines(*t, "  "@),
                { print_semantic_turn(t, "  ") };
            let ghost g = |t: SemanticTurn| semantic_lines(t, "  "@);
            text::say_all(&mut out, &w.before, write, Ghost(g));
            let focus = print_semantic_turn(&w.focus, "◆ ");
            text::say_more(&mut out, focus);
            let ghost so_far = views(out@);
            text::say(&mut out, "Target event:");
            proof {
                assert(so_far =~= spread(w.before@, g) + semantic_lines(w.focus, "◆ "@));
                assert(views(out@) =~= so_far + seq!["Target event:"@]);
            }
            text::say_more(&mut out, target);
            text::say_all(&mut out, &w.after, write, Ghost(g));
        },
        None => {
            let write = |t: &ContextTurn| -> (o: Vec<String>)
                ensures
                    views(o@) == turn_lines(*t, "  "@),
                { print_turn(t, "  ") };
            let ghost g = |t: ContextTurn| turn_lines(t, "  "@);
            text::say_all(&mut out, &c.before, write, Ghost(g));
            proof {
                assert(views(out@) =~= spread(c.before@, g));
            }
            text::say_more(&mut out, target);
            text::say_all(&mut out, &c.after, write, Ghost(g));
        },
    }
    out
}

/// The files and what failed, where there is something.
pub open spec fn closing_lines(c: EventContext) -> Seq<Seq<char>> {
    (if c.related_files@.len() == 0 {
        Seq::empty()
    } else {
        seq!["\nRelated files:"@] + c.related_files@.map_values(|f: String| "  "@ + f@)
    }) + (if c.error_count > 0 {
        seq!["\nErrors in window: "@ + decimal(c.error_count as nat)]
    } else {
        Seq::empty()
    })
}

fn write_closing(c: &EventContext) -> (r: Vec<String>)
    ensures
        views(r@) == closing_lines(*c),
{
    let mut out: Vec<String> = Vec::new();
    if c.related_files.len() > 0 {
        text::say(&mut out, "\nRelated files:");
        let write = |f: &String| -> (o: String)
            ensures
                o@ == "  "@ + f@,
            { text::cat2("  ", f.as_str()) };
        let ghost g = |f: String| "  "@ + f@;
        text::say_each(&mut out, &c.related_files, write, Ghost(g));
    }
    if c.error_count > 0 {
        let count = text::size(c.error_count);
        text::say2(&mut out, "\nErrors in window: ", count.as_str());
    }
    proof {
        assert(views(out@) =~= closing_lines(*c));
    }
    out
}

/// What stands around an event, for a reader.
pub fn print_context(c: &EventContext) -> (r: Vec<String>)
    ensures
        views(r@) == seq![
            "Context around message ["@ + decimal(c.target_index as nat) + "]:\n"@,
        ] + window_lines(*c) + closing_lines(*c),
{
    let mut out: Vec<String> = Vec::new();
    let index = text::size(c.target_index);
    text::say3(&mut out, "Context around message [", index.as_str(), "]:\n");
    proof {
        assert(views(out@) =~= seq![
            "Context around message ["@ + decimal(c.target_index as nat) + "]:\n"@,
        ]);
    }
    let window = write_window(c);
    text::say_more(&mut out, window);
    let closing = write_closing(c);
    text::say_more(&mut out, closing);
    out
}

// ---------------------------------------------------------------------------
// As JSON
// ---------------------------------------------------------------------------

/// A message as a JSON object.
pub open spec fn turn_view(t: ContextTurn) -> JsonView {
    JsonView::Object(
        seq![
            ("index"@, number_json(t.index as nat)),
            ("type"@, JsonView::Text(t.message_type@)),
            ("uuid"@, optional_text(t.uuid)),
            ("timestamp"@, time_json(t.timestamp, false)),
            ("text"@, optional_text(t.text)),
            ("tools"@, texts_json(views(t.tools@))),
            ("had_errors"@, JsonView::Bool(t.had_errors)),
        ],
    )
}

fn turn_json(t: &ContextTurn) -> (r: Json)
    ensures
        r@ == turn_view(*t),
{
    let mut fields: Vec<(String, Json)> = Vec::new();
    json::put(&mut fields, "index", json::of_size(t.index));
    json::put(&mut fields, "type", json::of_text(t.message_type.as_str()));
    json::put(&mut fields, "uuid", json::of_option(&t.uuid));
    json::put(&mut fields, "timestamp", json::of_time(t.timestamp, false));
    json::put(&mut fields, "text", json::of_option(&t.text));
    json::put(&mut fields, "tools", json::of_texts(&t.tools));
    json::put(&mut fields, "had_errors", Json::Bool(t.had_errors));
    proof {
        assert(fields_view(fields@) =~= seq![
            ("index"@, number_json(t.index as nat)),
            ("type"@, JsonView::Text(t.message_type@)),
            ("uuid"@, optional_text(t.uuid)),
            ("timestamp"@, time_json(t.timestamp, false)),
            ("text"@, optional_text(t.text)),
            ("tools"@, texts_json(views(t.tools@))),
            ("had_errors"@, JsonView::Bool(t.had_errors)),
        ]);
    }
    Json::Object(fields)
}

/// Where a session of a provider comes from.
#[derive(Debug, Clone, PartialEq, Eq)]
pub struct ContextSource {
    /// The provider.
    pub provider: String,
    /// The id with the provider.
    pub qualified_id: String,
    /// The id that the provider gave.
    pub native_id: String,
}

/// The id under which a session is written.
pub open spec fn written_id(session_id: Seq<char>, source: Option<ContextSource>) -> Seq<char> {
    match source {
        Some(s) => s.native_id@,
        None => session_id,
    }
}

/// The fields of where a session comes from, where a provider has it.
pub open spec fn source_fields(source: Option<ContextSource>) -> Seq<(Seq<char>, JsonView)> {
    match source {
        Some(s) => seq![
            ("provider"@, JsonView::Text(s.provider@)),
            ("qualified_id"@, JsonView::Text(s.qualified_id@)),
        ],
        None => Seq::empty(),
    }
}

/// The field of the prompts around the event, where they are known.
pub open spec fn window_field(window: Option<Json>) -> Seq<(Seq<char>, JsonView)> {
    match window {
        Some(w) => seq![("semantic_window"@, w@)],
        None => Seq::empty(),
    }
}

/// The fields of what stands around an event.
pub open spec fn context_fields(
    session_id: Seq<char>,
    source: Option<ContextSource>,
    c: EventContext,
    window: Option<Json>,
) -> Seq<(Seq<char>, JsonView)> {
    seq![
        ("session_id"@, JsonView::Text(written_id(session_id, source))),
        ("target_index"@, number_json(c.target_index as nat)),
        ("target"@, turn_view(c.target)),
        ("before"@, JsonView::Array(c.before@.map_values(|t: ContextTurn| turn_view(t)))),
        ("after"@, JsonView::Array(c.after@.map_values(|t: ContextTurn| turn_view(t)))),
        ("related_files"@, texts_json(views(c.related_files@))),
        ("error_count"@, number_json(c.error_count as nat)),
    ] + source_fields(source) + given_number("confirmed_failure_count"@, c.confirmed_failure_count)
        + given_number("inferred_failure_count"@, c.inferred_failure_count) + window_field(window)
}

/// What stands around an event, as a JSON object. `window` are the prompts around it.
pub fn context_json(
    session_id: &str,
    source: &Option<ContextSource>,
    c: &EventContext,
    window: &Option<Json>,
) -> (r: Json)
    ensures
        r@ == JsonView::Object(context_fields(session_id@, *source, *c, *window)),
{
    let mut fields: Vec<(String, Json)> = Vec::new();
    let ghost g = |t: ContextTurn| turn_view(t);
    let id: &str = match source {
        Some(s) => s.native_id.as_str(),
        None => session_id,
    };
    json::put(&mut fields, "session_id", json::of_text(id));
    json::put(&mut fields, "target_index", json::of_size(c.target_index));
    json::put(&mut fields, "target", turn_json(&c.target));
    json::put(&mut fields, "before", json::of_list(&c.before, turn_json, Ghost(g)));
    json::put(&mut fields, "after", json::of_list(&c.after, turn_json, Ghost(g)));
    json::put(&mut fields, "related_files", json::of_texts(&c.related_files));
    json::put(&mut fields, "error_count", json::of_size(c.error_count));
    match source {
        Some(s) => {
            json::put(&mut fields, "provider", json::of_text(s.provider.as_str()));
            json::put(&mut fields, "qualified_id", json::of_text(s.qualified_id.as_str()));
        },
        None => {},
    }
    json::put_given_number(&mut fields, "confirmed_failure_count", c.confirmed_failure_count);
    json::put_given_number(&mut fields, "inferred_failure_count", c.inferred_failure_count);
    match window {
        Some(w) => json::put(&mut fields, "semantic_window", w.copy()),
        None => {},
    }
    proof {
        assert(fields_view(fields@) =~= context_fields(session_id@, *source, *c, *window));
    }
    Json::Object(fields)
}

/// What is printed of an event that was looked for.
pub fn print_found(found: &Option<EventContext>) -> (r: Vec<String>)
    ensures
        views(r@) == (match *found {
            Some(c) => seq![
                "Context around message ["@ + decimal(c.target_index as nat) + "]:\n"@,
            ] + window_lines(c) + closing_lines(c),
            None => seq!["Event not found in session."@],
        }),
{
    match found {
        Some(c) => print_context(c),
        None => {
            let mut out: Vec<String> = Vec::new();
            text::say(&mut out, "Event not found in session.");
            proof {
                assert(views(out@) =~= seq!["Event not found in session."@]);
            }
            out
        },
    }
}

// ---------------------------------------------------------------------------
// What calls hand back
// ---------------------------------------------------------------------------

/// A message or a time must be given. Providers answer where one was named, and where a
/// reference with a colon is qualified; the list of providers is needed wherever they may.
pub proof fn events_are_named(
    args: ContextArgs,
    looks_qualified: bool,
    r: Result<ContextRoute, SnatchError>,
    needed: bool,
)
    ensures
        call_ensures(run, (&args, looks_qualified), r) ==> {
            &&& r is Err <==> args.message_id is None && args.timestamp is None
            &&& args.provider@.len() > 0 ==> !(r matches Ok(route) && route is Directory)
            &&& args.provider@.len() == 0 && !(args.session_id@.contains(':')) ==> !(r matches Ok(
                route,
            ) && route is Provider)
            &&& args.provider@.len() == 0 && args.session_id@.contains(':') && r is Ok ==> (r->Ok_0
                is Provider <==> looks_qualified)
        },
        call_ensures(run, (&args, looks_qualified), r) && call_ensures(
            needs_registry,
            (&args,),
            needed,
        ) && (r matches Ok(route) && route is Provider) ==> needed,
        call_ensures(needs_registry, (&args,), needed) && !needed ==> args.provider@.len() == 0
            && forall|i: int|
            0 <= i < args.session_id@.len() ==> #[trigger] args.session_id@[i] != ':',
{
    if forall|i: int| 0 <= i < args.session_id@.len() ==> #[trigger] args.session_id@[i] != ':' {
    } else {
        let i = choose|i: int|
            0 <= i < args.session_id@.len() && !(#[trigger] args.session_id@[i] != ':');
        assert(args.session_id@.contains(args.session_id@[i]));
    }
}

} // verus!
