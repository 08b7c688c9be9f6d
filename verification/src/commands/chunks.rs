//! The parts of a session, from one prompt to the next.
use vstd::prelude::*;

use crate::commands::helpers;
use crate::commands::helpers::{flag_views, given_flags, has_short_id, id_head};
use crate::error::{ErrorView, SnatchError};
use crate::json;
use crate::json::{fields_view, given_text, given_time, number_json, Json, JsonView};
use crate::text;
use crate::text::{decimal, padded_left, spread, views};
use crate::time;
use crate::time::shown_or;

verus! {

/// Where a prompt came from.
#[derive(Debug, Clone, Copy, PartialEq, Eq, Structural)]
pub enum PromptSource {
    /// It was typed between two answers.
    User,
    /// It was typed during an answer.
    Queued,
}

/// A branch that was given up.
#[derive(Debug, Clone, PartialEq, Eq)]
pub struct Branch {
    /// Its first entry.
    pub root_uuid: String,
    /// Its prompt, cut to a hundred characters.
    pub prompt: Option<String>,
    /// Its prompt on one line, cut to sixty characters.
    pub label: Option<String>,
    /// The number of its entries.
    pub entries: usize,
}

/// A part of a session.
#[derive(Debug, Clone, PartialEq, Eq)]
pub struct Chunk {
    /// Its number.
    pub index: usize,
    /// Its prompt, cut to two hundred characters.
    pub prompt: String,
    /// Its prompt on one line, cut to eighty characters.
    pub headline: String,
    /// Where its prompt came from.
    pub prompt_source: PromptSource,
    /// Where its prompt came from, as shown.
    pub source_shown: String,
    /// The entry of its prompt.
    pub prompt_uuid: String,
    /// When it begins.
    pub start_ts: Option<i128>,
    /// When it ends.
    pub end_ts: Option<i128>,
    /// The number of its entries.
    pub entries: usize,
    /// The number of its entries beside the main thread.
    pub attached: usize,
    /// The number of calls of tools.
    pub tool_calls: usize,
    /// The number of calls that failed.
    pub errors: usize,
    /// The branches that were given up.
    pub branches: Vec<Branch>,
}

/// A session in parts.
#[derive(Debug, Clone, PartialEq, Eq)]
pub struct ChunkedSession {
    /// The id under which it is shown.
    pub display_id: String,
    /// Its id.
    pub session_id: String,
    /// Its provider.
    pub provider: Option<String>,
    /// Its id with the provider.
    pub qualified_id: Option<String>,
    /// Its project.
    pub project_path: String,
    /// The first file, where several are taken together.
    pub chain_id: Option<String>,
    /// The number of entries before the first prompt.
    pub preamble_entries: usize,
    /// The number of lines that could not be read.
    pub unparsed: usize,
    /// The parts.
    pub chunks: Vec<Chunk>,
}

/// Whether a session is asked for by its provider.
pub fn uses_provider(provider: &Vec<String>, looks_qualified: bool) -> (r: bool)
    ensures
        r == (provider@.len() > 0 || looks_qualified),
{
    provider.len() > 0 || looks_qualified
}

/// The flags that do not go with a session of a provider.
pub open spec fn refused_flags(no_chain: bool) -> Seq<(Seq<char>, bool)> {
    seq![("--no-chain"@, no_chain)]
}

/// The flags that do not go with a session of a provider, and whether they were given.
pub fn unsupported_flags(no_chain: bool) -> (r: Vec<(String, bool)>)
    ensures
        flag_views(r@) == refused_flags(no_chain),
{
    let mut out: Vec<(String, bool)> = Vec::new();
    out.push(("--no-chain".to_owned(), no_chain));
    proof {
        assert(flag_views(out@) =~= refused_flags(no_chain));
    }
    out
}

/// Whether a session is taken from its provider. There it is never one of several files, so it is
/// refused to leave the others out.
pub fn run(provider: &Vec<String>, no_chain: bool, looks_qualified: bool) -> (r: Result<
    bool,
    SnatchError,
>)
    ensures
        if !(provider@.len() > 0 || looks_qualified) {
            r == Ok::<bool, SnatchError>(false)
        } else if no_chain {
            r matches Err(e) && e@ == (ErrorView::UnsupportedFlags {
                route: "provider-routed chunks"@,
                flags: seq!["--no-chain"@],
            })
        } else {
            r == Ok::<bool, SnatchError>(true)
        },
{
    if !uses_provider(provider, looks_qualified) {
        return Ok(false);
    }
    let flags = unsupported_flags(no_chain);
    proof {
        let all = refused_flags(no_chain);
        reveal_with_fuel(given_flags, 2);
        assert(all.drop_last() =~= Seq::empty());
        assert(Seq::<Seq<char>>::empty().push("--no-chain"@) =~= seq!["--no-chain"@]);
    }
    match helpers::refuse_unsupported_flags("provider-routed chunks", &flags) {
        Ok(()) => Ok(true),
        Err(e) => Err(e),
    }
}

/// What is said where several files are taken together.
pub fn chain_notice(files: usize, root: &str) -> (r: String)
    ensures
        r@ == "ℹ Showing full resume chain: "@ + decimal(files as nat) + " files (root "@ + root@
            + "). Use --no-chain to restrict."@,
{
    let count = text::size(files);
    text::cat5(
        "ℹ Showing full resume chain: ",
        count.as_str(),
        " files (root ",
        root,
        "). Use --no-chain to restrict.",
    )
}

// ---------------------------------------------------------------------------
// Spans of time
// ---------------------------------------------------------------------------

/// The whole seconds from one point in time to another; nought where it lies before.
pub open spec fn seconds_between(start: i128, end: i128) -> int {
    if end <= start {
        0
    } else {
        (end - start) / 1_000_000_000
    }
}

/// The seconds from one point in time to another can be counted.
pub open spec fn span_fits(start: Option<i128>, end: Option<i128>) -> bool {
    match (start, end) {
        (Some(s), Some(e)) => e - s <= i128::MAX && seconds_between(s, e) <= u64::MAX,
        _ => true,
    }
}

/// A number of seconds, in short.
pub open spec fn short_span(seconds: int) -> Seq<char> {
    if seconds <= 59 {
        decimal(seconds as nat) + "s"@
    } else if seconds <= 3599 {
        decimal((seconds / 60) as nat) + "m"@
    } else {
        decimal((seconds / 3600) as nat) + "h "@ + decimal(((seconds % 3600) / 60) as nat) + "m"@
    }
}

/// How long a part took, in short.
pub open spec fn span_shown(start: Option<i128>, end: Option<i128>) -> Seq<char> {
    match (start, end) {
        (Some(s), Some(e)) => short_span(seconds_between(s, e)),
        _ => "?"@,
    }
}

/// How long a part took, in short: seconds, minutes, or hours and minutes.
pub fn fmt_span(start: Option<i128>, end: Option<i128>) -> (r: String)
    requires
        span_fits(start, end),
    ensures
        r@ == span_shown(start, end),
{
    match (start, end) {
        (Some(s), Some(e)) => {
            let seconds: u64 = if e <= s {
                0
            } else {
                ((e - s) / time::NANOS) as u64
            };
            if seconds <= 59 {
                let digits = text::number(seconds);
                text::cat2(digits.as_str(), "s")
            } else if seconds <= 3599 {
                let digits = text::number(seconds / 60);
                text::cat2(digits.as_str(), "m")
            } else {
                let hours = text::number(seconds / 3600);
                let minutes = text::number((seconds % 3600) / 60);
                text::cat4(hours.as_str(), "h ", minutes.as_str(), "m")
            }
        },
        _ => "?".to_owned(),
    }
}

/// Whether the seconds from one point in time to another can be counted.
pub fn can_span(start: Option<i128>, end: Option<i128>) -> (r: bool)
    ensures
        r == span_fits(start, end),
{
    match (start, end) {
        (Some(s), Some(e)) => {
            if e <= s {
                return true;
            }
            if s < 0 && e > i128::MAX + s {
                return false;
            }
            (e - s) / time::NANOS <= u64::MAX as i128
        },
        _ => true,
    }
}

// ---------------------------------------------------------------------------
// For a reader
// ---------------------------------------------------------------------------

/// The count of errors, where there are some.
pub open spec fn errors_part(errors: usize) -> Seq<char> {
    if errors == 0 {
        ""@
    } else {
        " ⚠"@ + decimal(errors as nat) + " errors"@
    }
}

/// The count of entries beside the main thread, where there are some.
pub open spec fn attached_part(attached: usize) -> Seq<char> {
    if attached == 0 {
        ""@
    } else {
        " (+"@ + decimal(attached as nat) + " attached)"@
    }
}

/// The sign of a prompt that was typed during an answer.
pub open spec fn queued_part(source: PromptSource) -> Seq<char> {
    match source {
        PromptSource::Queued => "(queued) "@,
        PromptSource::User => ""@,
    }
}

/// The line of a part.
pub open spec fn chunk_line(c: Chunk) -> Seq<char> {
    "["@ + padded_left(decimal(c.index as nat), 3) + "] "@ + shown_or(
        c.start_ts,
        "%m-%d %H:%M"@,
        "?"@,
    ) + " "@ + padded_left(span_shown(c.start_ts, c.end_ts), 7) + "  "@ + padded_left(
        decimal(c.entries as nat),
        4,
    ) + " entries  "@ + padded_left(decimal(c.tool_calls as nat), 3) + " tools"@ + errors_part(
        c.errors,
    ) + attached_part(c.attached) + "  "@ + queued_part(c.prompt_source) + c.headline@
}

fn write_chunk(c: &Chunk) -> (r: String)
    requires
        span_fits(c.start_ts, c.end_ts),
    ensures
        r@ == chunk_line(*c),
{
    let index_digits = text::size(c.index);
    let index = text::pad_left(index_digits.as_str(), 3);
    let start = time::show_or(c.start_ts, "%m-%d %H:%M", "?");
    let took = fmt_span(c.start_ts, c.end_ts);
    let span = text::pad_left(took.as_str(), 7);
    let entry_digits = text::size(c.entries);
    let entries = text::pad_left(entry_digits.as_str(), 4);
    let tool_digits = text::size(c.tool_calls);
    let tools = text::pad_left(tool_digits.as_str(), 3);
    let errors: String = if c.errors == 0 {
        "".to_owned()
    } else {
        let digits = text::size(c.errors);
        text::cat3(" ⚠", digits.as_str(), " errors")
    };
    let attached: String = if c.attached == 0 {
        "".to_owned()
    } else {
        let digits = text::size(c.attached);
        text::cat3(" (+", digits.as_str(), " attached)")
    };
    let queued: &str = match c.prompt_source {
        PromptSource::Queued => "(queued) ",
        PromptSource::User => "",
    };
    let a = text::cat5("[", index.as_str(), "] ", start.as_str(), " ");
    let b = text::cat5(a.as_str(), span.as_str(), "  ", entries.as_str(), " entries  ");
    let d = text::cat5(b.as_str(), tools.as_str(), " tools", errors.as_str(), attached.as_str());
    text::cat4(d.as_str(), "  ", queued, c.headline.as_str())
}

/// The line of a branch.
pub open spec fn branch_line(b: Branch) -> Seq<char> {
    "      └ abandoned branch, "@ + decimal(b.entries as nat) + " entries: "@ + (match b.label {
        Some(p) => "\""@ + p@ + "\""@,
        None => "(no prompt)"@,
    })
}

fn write_branch(b: &Branch) -> (r: String)
    ensures
        r@ == branch_line(*b),
{
    let entries = text::size(b.entries);
    let label: String = match &b.label {
        Some(p) => text::cat3("\"", p.as_str(), "\""),
        None => "(no prompt)".to_owned(),
    };
    text::cat4("      └ abandoned branch, ", entries.as_str(), " entries: ", label.as_str())
}

/// The lines of a part.
pub open spec fn chunk_lines(c: Chunk) -> Seq<Seq<char>> {
    seq![chunk_line(c)] + c.branches@.map_values(|b: Branch| branch_line(b))
}

fn write_chunk_lines(c: &Chunk) -> (r: Vec<String>)
    requires
        span_fits(c.start_ts, c.end_ts),
    ensures
        views(r@) == chunk_lines(*c),
{
    let mut out: Vec<String> = Vec::new();
    let line = write_chunk(c);
    text::say(&mut out, line.as_str());
    proof {
        assert(views(out@) =~= seq![chunk_line(*c)]);
    }
    let ghost g = |b: Branch| branch_line(b);
    text::say_each(&mut out, &c.branches, write_branch, Ghost(g));
    out
}

/// The first lines of a session in parts.
pub open spec fn heading_lines(s: ChunkedSession) -> Seq<Seq<char>> {
    let head = seq![
        "Session "@ + id_head(s.display_id@) + " — "@ + decimal(s.chunks@.len()) + " chunks, "@
            + decimal(s.preamble_entries as nat) + " preamble entries\n"@,
    ];
    if s.unparsed > 0 {
        head.push(
            "⚠ "@ + decimal(s.unparsed as nat) + " line"@ + (if s.unparsed == 1 {
                ""@
            } else {
                "s"@
            }) + " could not be parsed (dropped from this view)\n"@,
        )
    } else {
        head
    }
}

/// A session in parts, for a reader.
pub open spec fn session_lines(s: ChunkedSession) -> Seq<Seq<char>> {
    if s.chunks@.len() == 0 {
        seq![
            "No chunks: session has no human prompts ("@ + decimal(s.preamble_entries as nat)
                + " preamble entries)."@,
        ]
    } else {
        (heading_lines(s) + spread(s.chunks@, |c: Chunk| chunk_lines(c))).push(
            "\nRetrieve a chunk with: snatch messages "@ + s.display_id@
                + " --chunk <N> (or a range like 2-5)"@,
        )
    }
}

/// A session in parts, for a reader.
pub fn print_chunks(s: &ChunkedSession) -> (r: Vec<String>)
    requires
        s.chunks@.len() > 0 ==> has_short_id(s.display_id@),
        forall|i: int|
            0 <= i < s.chunks@.len() ==> span_fits(
                (#[trigger] s.chunks@[i]).start_ts,
                s.chunks@[i].end_ts,
            ),
    ensures
        views(r@) == session_lines(*s),
{
    let mut out: Vec<String> = Vec::new();
    let preamble = text::size(s.preamble_entries);
    if s.chunks.len() == 0 {
        text::say3(
            &mut out,
            "No chunks: session has no human prompts (",
            preamble.as_str(),
            " preamble entries).",
        );
        proof {
            assert(views(out@) =~= session_lines(*s));
        }
        return out;
    }
    let short = helpers::short_id(s.display_id.as_str());
    let count = text::size(s.chunks.len());
    let a = text::cat5("Session ", short.as_str(), " — ", count.as_str(), " chunks, ");
    text::say3(&mut out, a.as_str(), preamble.as_str(), " preamble entries\n");
    if s.unparsed > 0 {
        let lost = text::size(s.unparsed);
        let plural: &str = if s.unparsed == 1 {
            ""
        } else {
            "s"
        };
        text::say5(
            &mut out,
            "⚠ ",
            lost.as_str(),
            " line",
            plural,
            " could not be parsed (dropped from this view)\n",
        );
    }
    proof {
        assert(views(out@) =~= heading_lines(*s));
    }
    let ghost g = |c: Chunk| chunk_lines(c);
    text::say_all(&mut out, &s.chunks, write_chunk_lines, Ghost(g));
    text::say3(
        &mut out,
        "\nRetrieve a chunk with: snatch messages ",
        s.display_id.as_str(),
        " --chunk <N> (or a range like 2-5)",
    );
    out
}

// ---------------------------------------------------------------------------
// As JSON
// ---------------------------------------------------------------------------

/// A branch as a JSON object.
pub open spec fn branch_view(b: Branch) -> JsonView {
    JsonView::Object(
        seq![("root_uuid"@, JsonView::Text(b.root_uuid@))] + given_text("prompt"@, b.prompt) + seq![
            ("entries"@, number_json(b.entries as nat)),
        ],
    )
}

fn branch_json(b: &Branch) -> (r: Json)
    ensures
        r@ == branch_view(*b),
{
    let mut fields: Vec<(String, Json)> = Vec::new();
    json::put(&mut fields, "root_uuid", json::of_text(b.root_uuid.as_str()));
    json::put_given_text(&mut fields, "prompt", &b.prompt);
    json::put(&mut fields, "entries", json::of_size(b.entries));
    proof {
        assert(fields_view(fields@) =~= seq![("root_uuid"@, JsonView::Text(b.root_uuid@))]
            + given_text("prompt"@, b.prompt) + seq![("entries"@, number_json(b.entries as nat))]);
    }
    Json::Object(fields)
}

/// The field of the branches, where there are some.
pub open spec fn branches_field(branches: Seq<Branch>) -> Seq<(Seq<char>, JsonView)> {
    if branches.len() == 0 {
        Seq::empty()
    } else {
        seq![("branches"@, JsonView::Array(branches.map_values(|b: Branch| branch_view(b))))]
    }
}

/// The fields of a part.
pub open spec fn chunk_fields(c: Chunk) -> Seq<(Seq<char>, JsonView)> {
    seq![
        ("index"@, number_json(c.index as nat)),
        ("prompt"@, JsonView::Text(c.prompt@)),
        ("prompt_source"@, JsonView::Text(c.source_shown@)),
        ("prompt_uuid"@, JsonView::Text(c.prompt_uuid@)),
    ] + given_time("start_ts"@, c.start_ts) + given_time("end_ts"@, c.end_ts) + seq![
        ("entries"@, number_json(c.entries as nat)),
        ("attached"@, number_json(c.attached as nat)),
        ("tool_calls"@, number_json(c.tool_calls as nat)),
        ("errors"@, number_json(c.errors as nat)),
    ] + branches_field(c.branches@)
}

fn chunk_json(c: &Chunk) -> (r: Json)
    ensures
        r@ == JsonView::Object(chunk_fields(*c)),
{
    let mut fields: Vec<(String, Json)> = Vec::new();
    json::put(&mut fields, "index", json::of_size(c.index));
    json::put(&mut fields, "prompt", json::of_text(c.prompt.as_str()));
    json::put(&mut fields, "prompt_source", json::of_text(c.source_shown.as_str()));
    json::put(&mut fields, "prompt_uuid", json::of_text(c.prompt_uuid.as_str()));
    json::put_given_time(&mut fields, "start_ts", c.start_ts);
    json::put_given_time(&mut fields, "end_ts", c.end_ts);
    json::put(&mut fields, "entries", json::of_size(c.entries));
    json::put(&mut fields, "attached", json::of_size(c.attached));
    json::put(&mut fields, "tool_calls", json::of_size(c.tool_calls));
    json::put(&mut fields, "errors", json::of_size(c.errors));
    let ghost g = |b: Branch| branch_view(b);
    if c.branches.len() > 0 {
        json::put(&mut fields, "branches", json::of_list(&c.branches, branch_json, Ghost(g)));
    }
    proof {
        assert(fields_view(fields@) =~= chunk_fields(*c));
    }
    Json::Object(fields)
}

/// The fields of a session in parts.
pub open spec fn session_fields(s: ChunkedSession) -> Seq<(Seq<char>, JsonView)> {
    seq![("session_id"@, JsonView::Text(s.session_id@))] + given_text("provider"@, s.provider)
        + given_text("qualified_id"@, s.qualified_id) + seq![
        ("project_path"@, JsonView::Text(s.project_path@)),
    ] + given_text("chain_id"@, s.chain_id) + seq![
        ("total_chunks"@, number_json(s.chunks@.len())),
        ("preamble_entries"@, number_json(s.preamble_entries as nat)),
        (
            "chunks"@,
            JsonView::Array(s.chunks@.map_values(|c: Chunk| JsonView::Object(chunk_fields(c)))),
        ),
    ]
}

/// A session in parts, as a JSON object.
pub fn chunks_json(s: &ChunkedSession) -> (r: Json)
    ensures
        r@ == JsonView::Object(session_fields(*s)),
{
    let mut fields: Vec<(String, Json)> = Vec::new();
    let ghost g = |c: Chunk| JsonView::Object(chunk_fields(c));
    json::put(&mut fields, "session_id", json::of_text(s.session_id.as_str()));
    json::put_given_text(&mut fields, "provider", &s.provider);
    json::put_given_text(&mut fields, "qualified_id", &s.qualified_id);
    json::put(&mut fields, "project_path", json::of_text(s.project_path.as_str()));
    json::put_given_text(&mut fields, "chain_id", &s.chain_id);
    json::put(&mut fields, "total_chunks", json::of_size(s.chunks.len()));
    json::put(&mut fields, "preamble_entries", json::of_size(s.preamble_entries));
    json::put(&mut fields, "chunks", json::of_list(&s.chunks, chunk_json, Ghost(g)));
    proof {
        assert(fields_view(fields@) =~= session_fields(*s));
    }
    Json::Object(fields)
}

// ---------------------------------------------------------------------------
// Spans
// ---------------------------------------------------------------------------

/// A span is counted in whole seconds of a thousand million parts, and one that does not go forward
/// is none.
pub proof fn spans_are_whole_seconds(start: i128, end: i128)
    ensures
        end <= start ==> seconds_between(start, end) == 0,
        start <= end ==> 1_000_000_000 * seconds_between(start, end) <= end - start
            < 1_000_000_000 * (seconds_between(start, end) + 1),
{
}

/// A span is shown in seconds below a minute, in minutes below an hour, and from then on in hours
/// and the minutes that are left, fewer than sixty.
pub proof fn spans_are_shown_in_units(seconds: int, h: nat, m: nat, s: nat)
    requires
        m < 60,
        s < 60,
        seconds == 3600 * h + 60 * m + s,
    ensures
        h == 0 && m == 0 ==> short_span(seconds) == decimal(s) + "s"@,
        h == 0 && m > 0 ==> short_span(seconds) == decimal(m) + "m"@,
        h > 0 ==> short_span(seconds) == decimal(h) + "h "@ + decimal(m) + "m"@,
{
    assert(seconds / 3600 == h && seconds % 3600 == 60 * m + s) by (nonlinear_arith)
        requires
            seconds == 3600 * h + 60 * m + s,
            m < 60,
            s < 60,
    ;
    assert((60 * m + s) / 60 == m) by (nonlinear_arith)
        requires
            s < 60,
    ;
    assert(seconds % 60 == s && seconds / 60 == 60 * h + m) by (nonlinear_arith)
        requires
            seconds == 3600 * h + 60 * m + s,
            s < 60,
    ;
}

// ---------------------------------------------------------------------------
// What calls hand back
// ---------------------------------------------------------------------------

/// Providers answer where one was named or the reference is qualified, and then refuse to leave
/// conversations apart; the directory of sessions never refuses.
pub proof fn providers_keep_conversations(
    provider: Vec<String>,
    no_chain: bool,
    looks_qualified: bool,
    r: Result<bool, SnatchError>,
)
    ensures
        call_ensures(run, (&provider, no_chain, looks_qualified), r) ==> {
            let there = provider@.len() > 0 || looks_qualified;
            &&& r is Err <==> there && no_chain
            &&& r matches Ok(from_provider) ==> from_provider == there
        },
{
}

} // verus!
