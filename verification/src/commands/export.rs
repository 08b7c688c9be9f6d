//! Export of sessions: what is asked for, what goes together, and where it is written.
use vstd::prelude::*;

use crate::commands;
use crate::commands::helpers;
use crate::commands::helpers::{has_short_id, id_head, text_view};
use crate::commands::{bound_filter, BoundFilter};
use crate::error::{ErrorView, SnatchError};
use crate::host::Host;
use crate::json::Json;
use crate::model::{ContentBlock, Session};
use crate::names;
use crate::order;
use crate::order::sorted_by;
use crate::provider::copy_text;
use crate::text;
use crate::text::{decimal, has, replaced, trimmed, views};

verus! {

// ---------------------------------------------------------------------------
// Formats and contents
// ---------------------------------------------------------------------------

/// The format of an export.
#[derive(Debug, Clone, Copy, PartialEq, Eq, Structural)]
pub enum ExportFormatArg {
    /// Markdown.
    Markdown,
    /// Markdown, by its short name.
    Md,
    /// JSON.
    Json,
    /// JSON for people.
    JsonPretty,
    /// Plain text.
    Text,
    /// One JSON value on each line.
    Jsonl,
    /// Values with commas between them.
    Csv,
    /// XML.
    Xml,
    /// A page.
    Html,
    /// A database.
    Sqlite,
    /// Traces.
    Otel,
}

/// A part of a conversation that is asked for.
#[derive(Debug, Clone, Copy, PartialEq, Eq, Structural)]
pub enum ContentFilter {
    /// Messages of the user.
    User,
    /// What the user wrote.
    Prompts,
    /// Messages of the assistant.
    Assistant,
    /// Thoughts.
    Thinking,
    /// Calls of tools.
    ToolUse,
    /// Results of tools.
    ToolResults,
    /// Messages of the system.
    System,
    /// Summaries.
    Summary,
}

/// A part of a conversation that is written.
#[derive(Debug, Clone, Copy, PartialEq, Eq, Structural)]
pub enum ContentType {
    /// Messages of the user.
    User,
    /// What the user wrote.
    Prompts,
    /// Messages of the assistant.
    Assistant,
    /// Thoughts.
    Thinking,
    /// Calls of tools.
    ToolUse,
    /// Results of tools.
    ToolResults,
    /// Messages of the system.
    System,
    /// Summaries.
    Summary,
}

/// The part that is written for one that is asked for.
pub open spec fn type_of(filter: ContentFilter) -> ContentType {
    match filter {
        ContentFilter::User => ContentType::User,
        ContentFilter::Prompts => ContentType::Prompts,
        ContentFilter::Assistant => ContentType::Assistant,
        ContentFilter::Thinking => ContentType::Thinking,
        ContentFilter::ToolUse => ContentType::ToolUse,
        ContentFilter::ToolResults => ContentType::ToolResults,
        ContentFilter::System => ContentType::System,
        ContentFilter::Summary => ContentType::Summary,
    }
}

/// The part that is written for one that is asked for.
pub fn content_filter_to_type(filter: ContentFilter) -> (r: ContentType)
    ensures
        r == type_of(filter),
{
    match filter {
        ContentFilter::User => ContentType::User,
        ContentFilter::Prompts => ContentType::Prompts,
        ContentFilter::Assistant => ContentType::Assistant,
        ContentFilter::Thinking => ContentType::Thinking,
        ContentFilter::ToolUse => ContentType::ToolUse,
        ContentFilter::ToolResults => ContentType::ToolResults,
        ContentFilter::System => ContentType::System,
        ContentFilter::Summary => ContentType::Summary,
    }
}

/// The parts that are written: one for each that is asked for, each once, in the order in which
/// they are asked for first.
pub fn build_only_filter(filters: &Vec<ContentFilter>) -> (r: Vec<ContentType>)
    ensures
        forall|t: ContentType|
            r@.contains(t) <==> exists|i: int|
                0 <= i < filters@.len() && type_of(#[trigger] filters@[i]) == t,
        r@.no_duplicates(),
{
    let mut out: Vec<ContentType> = Vec::new();
    let mut i: usize = 0;
    while i < filters.len()
        invariant
            i <= filters@.len(),
            forall|t: ContentType|
                out@.contains(t) <==> exists|k: int|
                    0 <= k < i && type_of(#[trigger] filters@[k]) == t,
            out@.no_duplicates(),
        decreases filters@.len() - i,
    {
        let t = content_filter_to_type(filters[i]);
        let mut known: bool = false;
        let mut j: usize = 0;
        while j < out.len()
            invariant
                j <= out@.len(),
                known == exists|k: int| 0 <= k < j && #[trigger] out@[k] == t,
            decreases out@.len() - j,
        {
            if out[j] == t {
                known = true;
            }
            j = j + 1;
        }
        let ghost before = out@;
        if !known {
            out.push(t);
        }
        proof {
            assert forall|x: ContentType| #[trigger] out@.contains(x) <==> exists|k: int|
                0 <= k < i + 1 && type_of(#[trigger] filters@[k]) == x by {
                assert(before.contains(x) <==> exists|k: int|
                    0 <= k < i && type_of(#[trigger] filters@[k]) == x);
                assert(type_of(filters@[i as int]) == t);
                if !known {
                    assert(out@ =~= before.push(t));
                    if before.contains(x) {
                        let k = choose|k: int| 0 <= k < before.len() && before[k] == x;
                        assert(out@[k] == x);
                    }
                    assert(out@[before.len() as int] == t);
                    if out@.contains(x) && x != t {
                        let k = choose|k: int| 0 <= k < out@.len() && out@[k] == x;
                        assert(before[k] == x);
                    }
                } else {
                    let k = choose|k: int| 0 <= k < before.len() && before[k] == t;
                    assert(before.contains(t));
                }
            }
        }
        i = i + 1;
    }
    out
}

/// The ending of the name of a file.
pub open spec fn extension_of(format: ExportFormatArg) -> Seq<char> {
    match format {
        ExportFormatArg::Markdown => "md"@,
        ExportFormatArg::Md => "md"@,
        ExportFormatArg::Json => "json"@,
        ExportFormatArg::JsonPretty => "json"@,
        ExportFormatArg::Text => "txt"@,
        ExportFormatArg::Jsonl => "jsonl"@,
        ExportFormatArg::Csv => "csv"@,
        ExportFormatArg::Xml => "xml"@,
        ExportFormatArg::Html => "html"@,
        ExportFormatArg::Sqlite => "db"@,
        ExportFormatArg::Otel => "otlp.json"@,
    }
}

/// The ending of the name of a file.
pub fn get_format_extension(format: ExportFormatArg) -> (r: String)
    ensures
        r@ == extension_of(format),
{
    match format {
        ExportFormatArg::Markdown => "md".to_owned(),
        ExportFormatArg::Md => "md".to_owned(),
        ExportFormatArg::Json => "json".to_owned(),
        ExportFormatArg::JsonPretty => "json".to_owned(),
        ExportFormatArg::Text => "txt".to_owned(),
        ExportFormatArg::Jsonl => "jsonl".to_owned(),
        ExportFormatArg::Csv => "csv".to_owned(),
        ExportFormatArg::Xml => "xml".to_owned(),
        ExportFormatArg::Html => "html".to_owned(),
        ExportFormatArg::Sqlite => "db".to_owned(),
        ExportFormatArg::Otel => "otlp.json".to_owned(),
    }
}

// ---------------------------------------------------------------------------
// What a run does
// ---------------------------------------------------------------------------

/// The arguments of the command.
#[derive(Debug, Clone, PartialEq, Eq)]
pub struct ExportArgs {
    /// The session.
    pub session: Option<String>,
    /// All sessions.
    pub all: bool,
    /// The project.
    pub project: Option<String>,
    /// Modified no earlier.
    pub since: Option<String>,
    /// Modified no later.
    pub until: Option<String>,
    /// The format.
    pub format: ExportFormatArg,
    /// To a gist.
    pub gist: bool,
    /// A gist that everyone can see.
    pub gist_public: bool,
    /// To the clipboard.
    pub clipboard: bool,
    /// With the sessions that it spawned.
    pub combine_agents: bool,
    /// Everything.
    pub lossless: bool,
    /// Thoughts.
    pub thinking: bool,
    /// Calls of tools.
    pub tool_use: bool,
    /// Results of tools.
    pub tool_results: bool,
    /// Messages of the system.
    pub system: bool,
    /// Times.
    pub timestamps: bool,
    /// Numbers of tokens.
    pub usage: bool,
    /// What else is known of messages.
    pub metadata: bool,
    /// Only the main thread.
    pub main_thread: bool,
    /// How much is blacked out.
    pub redact: Option<String>,
    /// What would be blacked out is shown.
    pub redact_preview: bool,
    /// Only these parts.
    pub only: Vec<ContentFilter>,
    /// JSON for people.
    pub pretty: bool,
    /// A table of contents.
    pub toc: bool,
    /// Light on dark.
    pub dark: bool,
}

/// What is exported.
#[derive(Debug, Clone, PartialEq, Eq)]
pub enum ExportRoute {
    /// All sessions.
    All,
    /// One session.
    Single {
        /// Its id.
        session_id: String,
        /// Whether dates were given that do not count here.
        ignores_dates: bool,
    },
}

/// Why an export cannot be made, with the words that say so.
pub open spec fn conflict(args: ExportArgs, gh_available: bool) -> Option<Seq<char>> {
    if args.gist && !gh_available {
        Some(
            "GitHub CLI (gh) is not installed or not in PATH. Install from https://cli.github.com/ and run 'gh auth login'"@,
        )
    } else if args.gist && args.format is Sqlite {
        Some("--gist is not compatible with SQLite format"@)
    } else if args.gist && args.all {
        Some("--gist is not compatible with --all. Export a single session."@)
    } else if args.gist && args.clipboard {
        Some("--gist and --clipboard are mutually exclusive"@)
    } else if args.clipboard && args.all {
        Some("--clipboard is not compatible with --all. Export a single session."@)
    } else if args.clipboard && args.format is Sqlite {
        Some("--clipboard is not compatible with SQLite format"@)
    } else if !args.all && args.session is None {
        Some("Either specify a session ID or use --all to export all sessions"@)
    } else {
        None
    }
}

fn find_conflict(args: &ExportArgs, gh_available: bool) -> (r: Option<String>)
    ensures
        text_view(r) == conflict(*args, gh_available),
{
    let sqlite: bool = matches!(args.format, ExportFormatArg::Sqlite);
    if args.gist && !gh_available {
        Some(
            "GitHub CLI (gh) is not installed or not in PATH. Install from https://cli.github.com/ and run 'gh auth login'".to_owned(),
        )
    } else if args.gist && sqlite {
        Some("--gist is not compatible with SQLite format".to_owned())
    } else if args.gist && args.all {
        Some("--gist is not compatible with --all. Export a single session.".to_owned())
    } else if args.gist && args.clipboard {
        Some("--gist and --clipboard are mutually exclusive".to_owned())
    } else if args.clipboard && args.all {
        Some("--clipboard is not compatible with --all. Export a single session.".to_owned())
    } else if args.clipboard && sqlite {
        Some("--clipboard is not compatible with SQLite format".to_owned())
    } else if !args.all && args.session.is_none() {
        Some("Either specify a session ID or use --all to export all sessions".to_owned())
    } else {
        None
    }
}

/// What is exported, or why nothing is. Dates are looked at first, also where they do not count.
/// Nothing is returned where the calendar does not hold a date.
pub fn run(args: &ExportArgs, now: i128, gh_available: bool) -> (r: Option<
    Result<ExportRoute, SnatchError>,
>)
    ensures
        match (
            bound_filter(text_view(args.since), now),
            bound_filter(text_view(args.until), now),
        ) {
            (BoundFilter::OutOfRange, _) => r is None,
            (BoundFilter::Invalid(error), _) => r matches Some(Err(e)) && e@ == error,
            (BoundFilter::Bound(_), BoundFilter::OutOfRange) => r is None,
            (BoundFilter::Bound(_), BoundFilter::Invalid(error)) => r matches Some(Err(e)) && e@
                == error,
            (BoundFilter::Bound(_), BoundFilter::Bound(_)) => match conflict(
                *args,
                gh_available,
            ) {
                Some(m) => r matches Some(Err(e)) && e@ == (ErrorView::ConfigError { message: m }),
                None => if args.all {
                    r == Some(Ok::<ExportRoute, SnatchError>(ExportRoute::All))
                } else {
                    r matches Some(Ok(ExportRoute::Single { session_id, ignores_dates }))
                        && session_id@ == args.session->0@ && ignores_dates == (
                    args.since is Some || args.until is Some)
                },
            },
        },
{
    match commands::parse_bound(helpers::text_ref(&args.since), now) {
        None => {
            return None;
        },
        Some(Err(e)) => {
            return Some(Err(e));
        },
        Some(Ok(_)) => {},
    }
    match commands::parse_bound(helpers::text_ref(&args.until), now) {
        None => {
            return None;
        },
        Some(Err(e)) => {
            return Some(Err(e));
        },
        Some(Ok(_)) => {},
    }
    match find_conflict(args, gh_available) {
        Some(message) => {
            return Some(Err(SnatchError::ConfigError { message }));
        },
        None => {},
    }
    if args.all {
        return Some(Ok(ExportRoute::All));
    }
    match &args.session {
        Some(id) => Some(
            Ok(
                ExportRoute::Single {
                    session_id: id.clone(),
                    ignores_dates: args.since.is_some() || args.until.is_some(),
                },
            ),
        ),
        None => None,
    }
}

/// What is said where dates were given that do not count.
pub fn date_note(ignores_dates: bool, quiet: bool) -> (r: Option<String>)
    ensures
        match r {
            Some(line) => ignores_dates && !quiet && line@
                == "Note: --since/--until filters are only applied with --all; single session export ignores them"@,
            None => !ignores_dates || quiet,
        },
{
    if ignores_dates && !quiet {
        Some(
            "Note: --since/--until filters are only applied with --all; single session export ignores them".to_owned(),
        )
    } else {
        None
    }
}

/// How one session is exported.
#[derive(Debug, Clone, Copy, PartialEq, Eq)]
pub enum SingleExport {
    /// With the sessions that it spawned.
    Combined,
    /// To a gist.
    Gist,
    /// To a file, the clipboard or the terminal.
    Plain,
}

/// How one session is exported: with the sessions that it spawned where that is asked for, else
/// to a gist where that is asked for.
pub fn export_single_session(args: &ExportArgs) -> (r: SingleExport)
    ensures
        r == (if args.combine_agents {
            SingleExport::Combined
        } else if args.gist {
            SingleExport::Gist
        } else {
            SingleExport::Plain
        }),
{
    if args.combine_agents {
        SingleExport::Combined
    } else if args.gist {
        SingleExport::Gist
    } else {
        SingleExport::Plain
    }
}

// ---------------------------------------------------------------------------
// What is written
// ---------------------------------------------------------------------------

/// What is written of a conversation.
#[derive(Debug, Clone, PartialEq, Eq)]
pub struct ExportOptions {
    /// Thoughts.
    pub include_thinking: bool,
    /// Calls of tools.
    pub include_tool_use: bool,
    /// Results of tools.
    pub include_tool_results: bool,
    /// Messages of the system.
    pub include_system: bool,
    /// Times.
    pub include_timestamps: bool,
    /// Times from the beginning of the session.
    pub relative_timestamps: bool,
    /// Numbers of tokens.
    pub include_usage: bool,
    /// What else is known of messages.
    pub include_metadata: bool,
    /// Pictures.
    pub include_images: bool,
    /// How deep the tree goes.
    pub max_depth: Option<usize>,
    /// Where texts are cut.
    pub truncate_at: Option<usize>,
    /// Branches.
    pub include_branches: bool,
    /// Only the main thread.
    pub main_thread_only: bool,
    /// How much is blacked out.
    pub redaction: Option<String>,
    /// What would be blacked out is shown.
    pub redaction_preview: bool,
    /// Only these parts.
    pub only: Vec<ContentType>,
}

/// What is written of a conversation: everything, but for what is blacked out or left out; or
/// what was chosen.
#[derive(Debug, Clone, PartialEq, Eq)]
pub enum ExportContents {
    /// Everything.
    Lossless {
        /// How much is blacked out.
        redaction: Option<String>,
        /// What would be blacked out is shown.
        redaction_preview: bool,
        /// Only these parts.
        only: Vec<ContentType>,
    },
    /// What was chosen.
    Chosen(ExportOptions),
}

/// The parts that are written are those that are asked for.
pub open spec fn only_matches(only: Seq<ContentType>, filters: Seq<ContentFilter>) -> bool {
    forall|t: ContentType|
        only.contains(t) <==> exists|i: int|
            0 <= i < filters.len() && type_of(#[trigger] filters[i]) == t
}

/// What is written of a conversation.
pub fn build_options(args: &ExportArgs) -> (r: ExportContents)
    ensures
        match r {
            ExportContents::Lossless { redaction, redaction_preview, only } => args.lossless
                && text_view(redaction) == text_view(args.redact) && redaction_preview
                == args.redact_preview && only_matches(only@, args.only@),
            ExportContents::Chosen(o) => {
                &&& !args.lossless
                &&& o.include_thinking == args.thinking
                &&& o.include_tool_use == args.tool_use
                &&& o.include_tool_results == args.tool_results
                &&& o.include_system == args.system
                &&& o.include_timestamps == args.timestamps
                &&& !o.relative_timestamps
                &&& o.include_usage == args.usage
                &&& o.include_metadata == args.metadata
                &&& o.include_images
                &&& o.max_depth is None
                &&& o.truncate_at is None
                &&& o.include_branches == !args.main_thread
                &&& o.main_thread_only == args.main_thread
                &&& text_view(o.redaction) == text_view(args.redact)
                &&& o.redaction_preview == args.redact_preview
                &&& only_matches(o.only@, args.only@)
            },
        },
{
    let only = build_only_filter(&args.only);
    let redaction = copy_text(&args.redact);
    if args.lossless {
        ExportContents::Lossless { redaction, redaction_preview: args.redact_preview, only }
    } else {
        ExportContents::Chosen(
            ExportOptions {
                include_thinking: args.thinking,
                include_tool_use: args.tool_use,
                include_tool_results: args.tool_results,
                include_system: args.system,
                include_timestamps: args.timestamps,
                relative_timestamps: false,
                include_usage: args.usage,
                include_metadata: args.metadata,
                include_images: true,
                max_depth: None,
                truncate_at: None,
                include_branches: !args.main_thread,
                main_thread_only: args.main_thread,
                redaction,
                redaction_preview: args.redact_preview,
                only,
            },
        )
    }
}

/// What is written of each session into a database of all sessions: everything, thoughts only
/// where they are asked for.
pub fn database_options(thinking: bool) -> (r: ExportOptions)
    ensures
        r.include_thinking == thinking,
        r.include_tool_use,
        r.include_tool_results,
        r.include_system,
        r.include_timestamps,
        !r.relative_timestamps,
        r.include_usage,
        r.include_metadata,
        r.include_images,
        r.max_depth is None,
        r.truncate_at is None,
        r.include_branches,
        !r.main_thread_only,
        r.redaction is None,
        !r.redaction_preview,
        r.only@.len() == 0,
{
    ExportOptions {
        include_thinking: thinking,
        include_tool_use: true,
        include_tool_results: true,
        include_system: true,
        include_timestamps: true,
        relative_timestamps: false,
        include_usage: true,
        include_metadata: true,
        include_images: true,
        max_depth: None,
        truncate_at: None,
        include_branches: true,
        main_thread_only: false,
        redaction: None,
        redaction_preview: false,
        only: Vec::new(),
    }
}

/// Only the main thread is written. Of everything nothing is left out.
pub open spec fn keeps_to_main_thread(contents: ExportContents) -> bool {
    match contents {
        ExportContents::Lossless { .. } => false,
        ExportContents::Chosen(o) => o.main_thread_only,
    }
}

/// Whether only the main thread is written.
pub fn is_main_thread_only(contents: &ExportContents) -> (r: bool)
    ensures
        r == keeps_to_main_thread(*contents),
{
    match contents {
        ExportContents::Lossless { .. } => false,
        ExportContents::Chosen(o) => o.main_thread_only,
    }
}

/// What writes a conversation.
#[derive(Debug, Clone, Copy, PartialEq, Eq)]
pub enum ExportWriter {
    /// Markdown.
    Markdown,
    /// JSON.
    Json {
        /// For people.
        pretty: bool,
    },
    /// Plain text.
    Text,
    /// One JSON value on each line.
    Jsonl {
        /// Only the main thread.
        main_thread_only: bool,
    },
    /// Values with commas between them.
    Csv,
    /// XML.
    Xml,
    /// A page.
    Html {
        /// With a table of contents.
        toc: bool,
        /// Light on dark.
        dark: bool,
    },
    /// Traces.
    Otel,
}

/// What writes a conversation in a format; a database writes itself.
pub open spec fn writer_of(
    format: ExportFormatArg,
    pretty: bool,
    main_thread_only: bool,
    toc: bool,
    dark: bool,
) -> Option<ExportWriter> {
    match format {
        ExportFormatArg::Markdown => Some(ExportWriter::Markdown),
        ExportFormatArg::Md => Some(ExportWriter::Markdown),
        ExportFormatArg::Json => Some(ExportWriter::Json { pretty }),
        ExportFormatArg::JsonPretty => Some(ExportWriter::Json { pretty: true }),
        ExportFormatArg::Text => Some(ExportWriter::Text),
        ExportFormatArg::Jsonl => Some(ExportWriter::Jsonl { main_thread_only }),
        ExportFormatArg::Csv => Some(ExportWriter::Csv),
        ExportFormatArg::Xml => Some(ExportWriter::Xml),
        ExportFormatArg::Html => Some(ExportWriter::Html { toc, dark }),
        ExportFormatArg::Sqlite => None,
        ExportFormatArg::Otel => Some(ExportWriter::Otel),
    }
}

/// What writes a conversation in a format.
pub fn choose_writer(
    format: ExportFormatArg,
    pretty: bool,
    main_thread_only: bool,
    toc: bool,
    dark: bool,
) -> (r: Option<ExportWriter>)
    ensures
        r == writer_of(format, pretty, main_thread_only, toc, dark),
{
    match format {
        ExportFormatArg::Markdown => Some(ExportWriter::Markdown),
        ExportFormatArg::Md => Some(ExportWriter::Markdown),
        ExportFormatArg::Json => Some(ExportWriter::Json { pretty }),
        ExportFormatArg::JsonPretty => Some(ExportWriter::Json { pretty: true }),
        ExportFormatArg::Text => Some(ExportWriter::Text),
        ExportFormatArg::Jsonl => Some(ExportWriter::Jsonl { main_thread_only }),
        ExportFormatArg::Csv => Some(ExportWriter::Csv),
        ExportFormatArg::Xml => Some(ExportWriter::Xml),
        ExportFormatArg::Html => Some(ExportWriter::Html { toc, dark }),
        ExportFormatArg::Sqlite => None,
        ExportFormatArg::Otel => Some(ExportWriter::Otel),
    }
}

/// A request that passes the checks of a run never asks the clipboard or a gist for a database,
/// so what goes there always has a writer.
pub proof fn accepted_requests_have_writers(args: ExportArgs, gh_available: bool)
    requires
        conflict(args, gh_available) is None,
        args.gist || args.clipboard,
    ensures
        writer_of(args.format, args.pretty, args.main_thread, args.toc, args.dark) is Some,
        !args.all,
{
}

// ---------------------------------------------------------------------------
// Where it is written
// ---------------------------------------------------------------------------

/// Where a conversation is written.
#[derive(Debug, Clone, Copy, PartialEq, Eq)]
pub enum Destination {
    /// Nowhere: there is nothing to write.
    Nowhere,
    /// To a database.
    Database,
    /// To the clipboard.
    Clipboard(ExportWriter),
    /// To a file.
    File(ExportWriter),
    /// To the terminal.
    Terminal(ExportWriter),
}

/// Where the conversation of a session is written. A database needs a file, and does not go with
/// the clipboard; the clipboard comes before a file. To the clipboard only the main thread goes
/// where that is asked for; to a file or the terminal only where the contents keep to it, as
/// `main_thread_only` says.
pub fn export_session(
    args: &ExportArgs,
    entry_count: usize,
    has_path: bool,
    main_thread_only: bool,
) -> (r: Result<Destination, SnatchError>)
    ensures
        ({
            let writer = writer_of(
                args.format,
                args.pretty,
                if args.clipboard {
                    args.main_thread
                } else {
                    main_thread_only
                },
                args.toc,
                args.dark,
            );
            if entry_count == 0 {
                r == Ok::<Destination, SnatchError>(Destination::Nowhere)
            } else {
                match writer {
                    None => if args.clipboard {
                        r matches Err(e) && e@ == (ErrorView::ConfigError {
                            message: "--clipboard is not compatible with SQLite format"@,
                        })
                    } else if has_path {
                        r == Ok::<Destination, SnatchError>(Destination::Database)
                    } else {
                        r matches Err(e) && e@ == (ErrorView::ExportError {
                            message: "SQLite export requires an output file (--output <path.db>)"@,
                        })
                    },
                    Some(w) => if args.clipboard {
                        r == Ok::<Destination, SnatchError>(Destination::Clipboard(w))
                    } else if has_path {
                        r == Ok::<Destination, SnatchError>(Destination::File(w))
                    } else {
                        r == Ok::<Destination, SnatchError>(Destination::Terminal(w))
                    },
                }
            }
        }),
{
    if entry_count == 0 {
        return Ok(Destination::Nowhere);
    }
    let only_main: bool = if args.clipboard {
        args.main_thread
    } else {
        main_thread_only
    };
    match choose_writer(args.format, args.pretty, only_main, args.toc, args.dark) {
        None => if args.clipboard {
            Err(
                SnatchError::ConfigError {
                    message: "--clipboard is not compatible with SQLite format".to_owned(),
                },
            )
        } else if has_path {
            Ok(Destination::Database)
        } else {
            Err(
                SnatchError::ExportError {
                    message: "SQLite export requires an output file (--output <path.db>)".to_owned(),
                },
            )
        },
        Some(w) => if args.clipboard {
            Ok(Destination::Clipboard(w))
        } else if has_path {
            Ok(Destination::File(w))
        } else {
            Ok(Destination::Terminal(w))
        },
    }
}

/// Where a session and those that it spawned are written. JSON is never for people here unless
/// the format says so.
pub fn export_combined_agents(args: &ExportArgs, entry_count: usize, has_path: bool) -> (r: Result<
    Destination,
    SnatchError,
>)
    ensures
        if entry_count == 0 {
            r == Ok::<Destination, SnatchError>(Destination::Nowhere)
        } else {
            match writer_of(args.format, false, args.main_thread, args.toc, args.dark) {
                None => if has_path {
                    r == Ok::<Destination, SnatchError>(Destination::Database)
                } else {
                    r matches Err(e) && e@ == (ErrorView::ConfigError {
                        message: "SQLite export requires an output file path"@,
                    })
                },
                Some(w) => if has_path {
                    r == Ok::<Destination, SnatchError>(Destination::File(w))
                } else {
                    r == Ok::<Destination, SnatchError>(Destination::Terminal(w))
                },
            }
        },
{
    if entry_count == 0 {
        return Ok(Destination::Nowhere);
    }
    match choose_writer(args.format, false, args.main_thread, args.toc, args.dark) {
        None => if has_path {
            Ok(Destination::Database)
        } else {
            Err(
                SnatchError::ConfigError {
                    message: "SQLite export requires an output file path".to_owned(),
                },
            )
        },
        Some(w) => if has_path {
            Ok(Destination::File(w))
        } else {
            Ok(Destination::Terminal(w))
        },
    }
}

/// What is said of a session that was written to a file.
pub fn exported_notice(exported: bool, quiet: bool, session_id: &str, path: &Option<String>) -> (r:
    Option<String>)
    ensures
        match r {
            Some(line) => exported && !quiet && path is Some && line@ == "Exported session "@
                + session_id@ + " to "@ + path->0@,
            None => !exported || quiet || path is None,
        },
{
    match path {
        Some(p) => if exported && !quiet {
            Some(text::cat4("Exported session ", session_id, " to ", p.as_str()))
        } else {
            None
        },
        None => None,
    }
}

/// What is said of the entries of a session that were written to a file.
pub fn entries_notice(single: bool, quiet: bool, entry_count: usize, path: &str) -> (r: Option<
    String,
>)
    ensures
        match r {
            Some(line) => single && !quiet && line@ == "Exported "@ + decimal(entry_count as nat)
                + " entries to "@ + path@,
            None => !single || quiet,
        },
{
    if single && !quiet {
        let digits = text::size(entry_count);
        Some(text::cat4("Exported ", digits.as_str(), " entries to ", path))
    } else {
        None
    }
}

/// What is said of a conversation that was copied to the clipboard.
pub fn copied_notice(entry_count: usize) -> (r: String)
    ensures
        r@ == "Copied "@ + decimal(entry_count as nat) + " entries to clipboard."@,
{
    let digits = text::size(entry_count);
    text::cat3("Copied ", digits.as_str(), " entries to clipboard.")
}

/// What is said where a session and those that it spawned hold nothing; none where they do.
pub fn empty_hierarchy(entry_count: usize, quiet: bool) -> (r: Option<Vec<String>>)
    ensures
        match r {
            Some(lines) => entry_count == 0 && views(lines@) == (if quiet {
                Seq::empty()
            } else {
                seq!["No entries found in session hierarchy"@]
            }),
            None => entry_count > 0,
        },
{
    helpers::say_if_empty(entry_count, quiet, "No entries found in session hierarchy")
}

/// The notice that a session and those that it spawned were written.
pub fn combined_notice(session_id: &str, total_sessions: usize, path: &str) -> (r: String)
    ensures
        r@ == "Exported combined session "@ + session_id@ + " ("@ + decimal(total_sessions as nat)
            + " sessions) to "@ + path@,
{
    let digits = text::size(total_sessions);
    let head = text::cat5(
        "Exported combined session ",
        session_id,
        " (",
        digits.as_str(),
        " sessions) to ",
    );
    text::cat2(head.as_str(), path)
}

// ---------------------------------------------------------------------------
// The tree of sessions
// ---------------------------------------------------------------------------

/// A session and those that it spawned.
#[derive(Debug)]
pub struct AgentNode {
    /// Its id.
    pub session_id: String,
    /// Those that it spawned.
    pub children: Vec<AgentNode>,
}

/// A session and all below it: itself, then each child with all below it.
pub open spec fn node_ids(node: AgentNode) -> Seq<Seq<char>>
    decreases node,
{
    seq![node.session_id@] + forest_ids(node.children@)
}

/// All sessions of some trees.
pub open spec fn forest_ids(nodes: Seq<AgentNode>) -> Seq<Seq<char>>
    decreases nodes,
{
    if nodes.len() == 0 {
        Seq::empty()
    } else {
        node_ids(nodes[0]) + forest_ids(nodes.drop_first())
    }
}

/// The first session with this id in some trees, a parent before its children.
pub open spec fn first_node(nodes: Seq<AgentNode>, id: Seq<char>) -> Option<AgentNode>
    decreases nodes,
{
    if nodes.len() == 0 {
        None
    } else if nodes[0].session_id@ == id {
        Some(nodes[0])
    } else {
        match first_node(nodes[0].children@, id) {
            Some(n) => Some(n),
            None => first_node(nodes.drop_first(), id),
        }
    }
}

/// A session is found exactly where one of the trees holds its id.
pub proof fn nodes_are_found(nodes: Seq<AgentNode>, id: Seq<char>)
    ensures
        first_node(nodes, id) is Some <==> forest_ids(nodes).contains(id),
        first_node(nodes, id) matches Some(n) ==> n.session_id@ == id,
    decreases nodes,
{
    if nodes.len() > 0 {
        let head = nodes[0];
        nodes_are_found(head.children@, id);
        nodes_are_found(nodes.drop_first(), id);
        let own = node_ids(head);
        let rest = forest_ids(nodes.drop_first());
        assert(own[0] == head.session_id@);
        if own.contains(id) {
            let k = choose|k: int| 0 <= k < own.len() && own[k] == id;
            assert(forest_ids(nodes)[k] == id);
            if k > 0 {
                assert(forest_ids(head.children@)[k - 1] == id);
            }
        }
        if forest_ids(head.children@).contains(id) {
            let k = choose|k: int|
                0 <= k < forest_ids(head.children@).len() && forest_ids(head.children@)[k] == id;
            assert(own[k + 1] == id);
        }
        if rest.contains(id) {
            let k = choose|k: int| 0 <= k < rest.len() && rest[k] == id;
            assert(forest_ids(nodes)[own.len() + k] == id);
        }
        if forest_ids(nodes).contains(id) {
            let k = choose|k: int| 0 <= k < forest_ids(nodes).len() && forest_ids(nodes)[k] == id;
            if k < own.len() {
                assert(own[k] == id);
            } else {
                assert(rest[k - own.len()] == id);
            }
        }
    }
}

/// The first session with this id in some trees, a parent before its children.
pub fn find_node_by_session_id<'a>(nodes: &'a Vec<AgentNode>, session_id: &str) -> (r: Option<
    &'a AgentNode,
>)
    ensures
        match r {
            Some(n) => first_node(nodes@, session_id@) == Some(*n),
            None => first_node(nodes@, session_id@) is None,
        },
    decreases nodes,
{
    let mut i: usize = 0;
    proof {
        assert(nodes@.skip(0) =~= nodes@);
    }
    while i < nodes.len()
        invariant
            i <= nodes@.len(),
            first_node(nodes@.skip(i as int), session_id@) == first_node(nodes@, session_id@),
        decreases nodes@.len() - i,
    {
        let node = &nodes[i];
        proof {
            let rest = nodes@.skip(i as int);
            assert(rest[0] == *node);
            assert(rest.drop_first() =~= nodes@.skip(i + 1));
            assert(decreases_to!(nodes => nodes@));
            assert(decreases_to!(nodes@ => nodes@[i as int]));
            assert(decreases_to!(nodes@[i as int] => nodes@[i as int].children));
        }
        if text::same(node.session_id.as_str(), session_id) {
            return Some(node);
        }
        match find_node_by_session_id(&node.children, session_id) {
            Some(found) => {
                return Some(found);
            },
            None => {},
        }
        i = i + 1;
    }
    None
}

// ---------------------------------------------------------------------------
// All sessions
// ---------------------------------------------------------------------------

/// Of this project, where one is asked for.
pub open spec fn of_project(project: Option<Seq<char>>) -> spec_fn(Session) -> bool {
    |s: Session| project matches Some(p) ==> has(s.project_path@, p)
}

/// The latest first.
pub open spec fn latest_first() -> spec_fn(Session, Session) -> bool {
    |a: Session, b: Session| b.modified < a.modified
}

/// The oldest first.
pub open spec fn oldest_first() -> spec_fn(Session, Session) -> bool {
    |a: Session, b: Session| a.modified < b.modified
}

fn is_later(a: &Session, b: &Session) -> (o: bool)
    ensures
        o == latest_first()(*a, *b),
{
    let x: i128 = a.modified;
    let y: i128 = b.modified;
    y < x
}

fn is_older(a: &Session, b: &Session) -> (o: bool)
    ensures
        o == oldest_first()(*a, *b),
{
    let x: i128 = a.modified;
    let y: i128 = b.modified;
    x < y
}

/// The sessions that are exported, in order: the latest first, but the oldest first into a
/// database.
pub fn order_sessions(sessions: Vec<Session>, project: &Option<String>, into_database: bool) -> (r:
    Vec<Session>)
    ensures
        ({
            let kept = sessions@.filter(of_project(text_view(*project)));
            r@ == (if into_database {
                sorted_by(kept, oldest_first())
            } else {
                sorted_by(kept, latest_first())
            })
        }),
{
    let belongs = |s: &Session| -> (o: bool)
        ensures
            o == of_project(text_view(*project))(*s),
        {
            match project {
                Some(p) => text::contains(s.project_path.as_str(), p.as_str()),
                None => true,
            }
        };
    let kept = order::keep(sessions, belongs, Ghost(of_project(text_view(*project))));
    if into_database {
        order::sort(kept, is_older, Ghost(oldest_first()))
    } else {
        order::sort(kept, is_later, Ghost(latest_first()))
    }
}

/// The name of the file of a session: the path of its project with low lines for the strokes,
/// its id, and the ending of the format.
pub open spec fn file_name(project_path: Seq<char>, session_id: Seq<char>, format: ExportFormatArg) -> Seq<
    char,
> {
    replaced(replaced(project_path, '/', "_"@), '\\', "_"@) + "_"@ + session_id + "."@
        + extension_of(format)
}

/// The name of the file of a session.
pub fn export_file_name(project_path: &str, session_id: &str, format: ExportFormatArg) -> (r: String)
    ensures
        r@ == file_name(project_path@, session_id@, format),
{
    let first = text::replace(project_path, '/', "_");
    let flat = text::replace(first.as_str(), '\\', "_");
    let extension = get_format_extension(format);
    text::cat5(flat.as_str(), "_", session_id, ".", extension.as_str())
}

/// What came of a session.
#[derive(Debug, Clone, Copy, PartialEq, Eq, Structural)]
pub enum ExportOutcome {
    /// It was written.
    Exported,
    /// Its file is there already.
    Skipped,
    /// There is nothing to write.
    Empty,
    /// It failed.
    Failed,
}

/// What is done with a session of several: a file that is there stays, unless it may be
/// overwritten.
pub fn must_skip(exists: bool, overwrite: bool) -> (r: bool)
    ensures
        r == (exists && !overwrite),
{
    exists && !overwrite
}

/// What is said where no session fits; none where one does.
pub fn no_sessions(count: usize, quiet: bool) -> (r: Option<Vec<String>>)
    ensures
        match r {
            Some(lines) => count == 0 && views(lines@) == (if quiet {
                Seq::empty()
            } else {
                seq!["No sessions match the specified filters"@]
            }),
            None => count > 0,
        },
{
    helpers::say_if_empty(count, quiet, "No sessions match the specified filters")
}

/// The directory that the files of all sessions are written to: the one that was given, that of
/// the file that was given, or the current one. `parent` is the directory of what was given.
pub fn output_directory(given: &Option<String>, is_directory: bool, parent: &Option<String>) -> (r:
    String)
    ensures
        r@ == (match *given {
            Some(path) => if is_directory {
                path@
            } else {
                match *parent {
                    Some(p) => p@,
                    None => "."@,
                }
            },
            None => "."@,
        }),
{
    match given {
        Some(path) => if is_directory {
            path.clone()
        } else {
            match parent {
                Some(p) => p.clone(),
                None => ".".to_owned(),
            }
        },
        None => ".".to_owned(),
    }
}

/// Where the export of a session failed.
#[derive(Debug, Clone, Copy, PartialEq, Eq)]
pub enum ExportStage {
    /// When it was read.
    Parse,
    /// When its messages were put in order.
    Build,
    /// When it was written.
    Write,
}

/// What is said of a session that failed.
pub open spec fn failure_line(stage: ExportStage, session_id: Seq<char>, reason: Seq<char>) -> Seq<
    char,
> {
    (match stage {
        ExportStage::Parse => "Failed to parse "@,
        ExportStage::Build => "Failed to build conversation for "@,
        ExportStage::Write => "Failed to export "@,
    }) + session_id + ": "@ + reason
}

/// What is said of a session that failed, unless nothing is to be said.
pub fn failure_notice(stage: ExportStage, session_id: &str, reason: &str, quiet: bool) -> (r: Option<
    String,
>)
    ensures
        match r {
            Some(line) => !quiet && line@ == failure_line(stage, session_id@, reason@),
            None => quiet,
        },
{
    if quiet {
        return None;
    }
    let head: &str = match stage {
        ExportStage::Parse => "Failed to parse ",
        ExportStage::Build => "Failed to build conversation for ",
        ExportStage::Write => "Failed to export ",
    };
    Some(text::cat4(head, session_id, ": ", reason))
}

/// What is said of a session that was written or passed over, where much is to be said. `name`
/// is that of its file, or its id where there is none.
pub fn progress_notice(outcome: ExportOutcome, name: &str, verbose: bool) -> (r: Option<String>)
    ensures
        match r {
            Some(line) => verbose && ((outcome is Exported && line@ == "Exported: "@ + name@) || (
            outcome is Skipped && line@ == "Skipped (exists): "@ + name@)),
            None => !verbose || outcome is Empty || outcome is Failed,
        },
{
    if !verbose {
        return None;
    }
    match outcome {
        ExportOutcome::Exported => Some(text::cat2("Exported: ", name)),
        ExportOutcome::Skipped => Some(text::cat2("Skipped (exists): ", name)),
        _ => None,
    }
}

/// The number of sessions of which this came.
pub open spec fn count_of(outcomes: Seq<ExportOutcome>, which: ExportOutcome) -> int
    decreases outcomes.len(),
{
    if outcomes.len() == 0 {
        0
    } else {
        count_of(outcomes.drop_last(), which) + (if outcomes.last() == which {
            1int
        } else {
            0
        })
    }
}

/// Counts the sessions of which this came.
pub fn count_outcomes(outcomes: &Vec<ExportOutcome>, which: ExportOutcome) -> (r: usize)
    ensures
        r == count_of(outcomes@, which),
{
    let mut n: usize = 0;
    let mut i: usize = 0;
    let total: usize = outcomes.len();
    proof {
        assert(outcomes@.take(0) =~= Seq::empty());
    }
    while i < total
        invariant
            total == outcomes@.len(),
            i <= total,
            n <= i,
            n == count_of(outcomes@.take(i as int), which),
        decreases total - i,
    {
        proof {
            let next = outcomes@.take(i + 1);
            assert(next.drop_last() =~= outcomes@.take(i as int));
            assert(next.last() == outcomes@[i as int]);
        }
        if outcomes[i] == which {
            n = n + 1;
        }
        i = i + 1;
    }
    proof {
        assert(outcomes@.take(i as int) =~= outcomes@);
    }
    n
}

/// Each session is counted once.
pub proof fn outcomes_add_up(outcomes: Seq<ExportOutcome>)
    ensures
        count_of(outcomes, ExportOutcome::Exported) + count_of(outcomes, ExportOutcome::Skipped)
            + count_of(outcomes, ExportOutcome::Empty) + count_of(outcomes, ExportOutcome::Failed)
            == outcomes.len(),
    decreases outcomes.len(),
{
    if outcomes.len() > 0 {
        outcomes_add_up(outcomes.drop_last());
    }
}

/// What is said of the sessions that were not written.
pub open spec fn suffix_of(skipped: int, failed: int) -> Seq<char> {
    (if skipped > 0 {
        " ("@ + decimal(skipped as nat) + " skipped)"@
    } else {
        Seq::empty()
    }) + (if failed > 0 {
        " ("@ + decimal(failed as nat) + " errors)"@
    } else {
        Seq::empty()
    })
}

fn write_suffix(skipped: usize, failed: usize) -> (r: String)
    ensures
        r@ == suffix_of(skipped as int, failed as int),
{
    let first: String = if skipped > 0 {
        let digits = text::size(skipped);
        text::cat3(" (", digits.as_str(), " skipped)")
    } else {
        String::new()
    };
    let second: String = if failed > 0 {
        let digits = text::size(failed);
        text::cat3(" (", digits.as_str(), " errors)")
    } else {
        String::new()
    };
    text::cat2(first.as_str(), second.as_str())
}

/// What is said when all sessions were written into files of a directory.
pub fn export_all_sessions(outcomes: &Vec<ExportOutcome>, directory: &str) -> (r: String)
    ensures
        r@ == "Exported "@ + decimal(count_of(outcomes@, ExportOutcome::Exported) as nat) + " of "@
            + decimal(outcomes@.len()) + " sessions to "@ + directory@ + suffix_of(
            count_of(outcomes@, ExportOutcome::Skipped),
            count_of(outcomes@, ExportOutcome::Failed),
        ),
{
    let exported = text::size(count_outcomes(outcomes, ExportOutcome::Exported));
    let total = text::size(outcomes.len());
    let skipped = count_outcomes(outcomes, ExportOutcome::Skipped);
    let failed = count_outcomes(outcomes, ExportOutcome::Failed);
    let suffix = write_suffix(skipped, failed);
    let head = text::cat5(
        "Exported ",
        exported.as_str(),
        " of ",
        total.as_str(),
        " sessions to ",
    );
    text::cat3(head.as_str(), directory, suffix.as_str())
}

/// What is said when all sessions were written into a database.
pub fn export_all_sessions_sqlite(outcomes: &Vec<ExportOutcome>, path: &str) -> (r: String)
    ensures
        r@ == "Exported "@ + decimal(count_of(outcomes@, ExportOutcome::Exported) as nat)
            + " sessions to "@ + path@ + suffix_of(
            0,
            count_of(outcomes@, ExportOutcome::Failed),
        ),
{
    let exported = text::size(count_outcomes(outcomes, ExportOutcome::Exported));
    let failed = count_outcomes(outcomes, ExportOutcome::Failed);
    let suffix = write_suffix(0, failed);
    text::cat5("Exported ", exported.as_str(), " sessions to ", path, suffix.as_str())
}

// ---------------------------------------------------------------------------
// Private data
// ---------------------------------------------------------------------------

/// An entry, as far as its texts are looked at.
#[derive(Debug)]
pub enum ExportEntry {
    /// Of the user: its text.
    User(Option<String>),
    /// Of the assistant: its parts.
    Assistant(Vec<ContentBlock>),
    /// Of the system: its text.
    System(Option<String>),
    /// Anything else.
    Other,
}

/// The text of a part that is looked at: its own, or what a tool was given where that is a text.
pub open spec fn block_text(block: ContentBlock) -> Option<Seq<char>> {
    match block {
        ContentBlock::Text(t) => Some(t@),
        ContentBlock::Thinking(t) => Some(t@),
        ContentBlock::ToolUse(t) => match t.input {
            Json::Text(s) => Some(s@),
            _ => None,
        },
        _ => None,
    }
}

/// The texts of some parts that are looked at.
pub open spec fn block_texts(blocks: Seq<ContentBlock>) -> Seq<Seq<char>>
    decreases blocks.len(),
{
    if blocks.len() == 0 {
        Seq::empty()
    } else {
        let before = block_texts(blocks.drop_last());
        match block_text(blocks.last()) {
            Some(t) => before.push(t),
            None => before,
        }
    }
}

/// The texts of an entry that are looked at.
pub open spec fn entry_texts(entry: ExportEntry) -> Seq<Seq<char>> {
    match entry {
        ExportEntry::User(t) => match t {
            Some(s) => seq![s@],
            None => Seq::empty(),
        },
        ExportEntry::Assistant(blocks) => block_texts(blocks@),
        ExportEntry::System(t) => match t {
            Some(s) => seq![s@],
            None => Seq::empty(),
        },
        ExportEntry::Other => Seq::empty(),
    }
}

fn text_in_block(block: &ContentBlock) -> (r: Option<String>)
    ensures
        text_view(r) == block_text(*block),
{
    match block {
        ContentBlock::Text(t) => Some(t.clone()),
        ContentBlock::Thinking(t) => Some(t.clone()),
        ContentBlock::ToolUse(t) => match &t.input {
            Json::Text(s) => Some(s.clone()),
            _ => None,
        },
        _ => None,
    }
}

/// The texts of an entry that are looked at.
pub fn extract_entry_texts(entry: &ExportEntry) -> (r: Vec<String>)
    ensures
        views(r@) == entry_texts(*entry),
{
    let mut out: Vec<String> = Vec::new();
    proof {
        assert(views(out@) =~= Seq::empty());
    }
    match entry {
        ExportEntry::User(t) => match t {
            Some(s) => text::say(&mut out, s.as_str()),
            None => {},
        },
        ExportEntry::Assistant(blocks) => {
            let mut i: usize = 0;
            proof {
                assert(blocks@.take(0) =~= Seq::empty());
            }
            while i < blocks.len()
                invariant
                    i <= blocks@.len(),
                    *entry == ExportEntry::Assistant(*blocks),
                    views(out@) == block_texts(blocks@.take(i as int)),
                decreases blocks@.len() - i,
            {
                proof {
                    let next = blocks@.take(i + 1);
                    assert(next.drop_last() =~= blocks@.take(i as int));
                    assert(next.last() == blocks@[i as int]);
                }
                match text_in_block(&blocks[i]) {
                    Some(s) => text::say(&mut out, s.as_str()),
                    None => {},
                }
                i = i + 1;
            }
            proof {
                assert(blocks@.take(i as int) =~= blocks@);
            }
        },
        ExportEntry::System(t) => match t {
            Some(s) => text::say(&mut out, s.as_str()),
            None => {},
        },
        ExportEntry::Other => {},
    }
    proof {
        assert(views(out@) =~= entry_texts(*entry));
    }
    out
}

/// The kinds of private data that were found, each once, in the order in which they were found.
pub open spec fn kinds_found(found: Seq<Seq<char>>) -> Seq<Seq<char>>
    decreases found.len(),
{
    if found.len() == 0 {
        Seq::empty()
    } else {
        let before = kinds_found(found.drop_last());
        if before.contains(found.last()) {
            before
        } else {
            before.push(found.last())
        }
    }
}

/// The warnings: the first five kinds, and then all of them.
pub open spec fn pii_lines(kinds: Seq<Seq<char>>, quiet: bool) -> Seq<Seq<char>> {
    if kinds.len() == 0 || quiet {
        Seq::empty()
    } else {
        order::first_of_list(kinds, 5).map_values(
            |k: Seq<char>| "⚠️  PII Warning: "@ + k + " detected in exported content"@,
        ) + seq![""@, "📋 PII Detection Summary:"@] + kinds.map_values(
            |k: Seq<char>| "   • "@ + k,
        ) + seq![
            ""@,
            "💡 Tip: Use --redact to automatically redact sensitive data"@,
            ""@,
        ]
    }
}

/// The kinds of private data that were found, and the warnings.
pub fn check_for_pii(found: &Vec<String>, quiet: bool) -> (r: (Vec<String>, Vec<String>))
    ensures
        views(r.0@) == kinds_found(views(found@)),
        views(r.1@) == pii_lines(kinds_found(views(found@)), quiet),
{
    let mut kinds: Vec<String> = Vec::new();
    let mut i: usize = 0;
    proof {
        assert(views(found@).take(0) =~= Seq::empty());
        assert(views(kinds@) =~= Seq::empty());
    }
    while i < found.len()
        invariant
            i <= found@.len(),
            views(kinds@) == kinds_found(views(found@).take(i as int)),
        decreases found@.len() - i,
    {
        proof {
            let next = views(found@).take(i + 1);
            assert(next.drop_last() =~= views(found@).take(i as int));
            assert(next.last() == found@[i as int]@);
        }
        if !names::holds_name(&kinds, found[i].as_str()) {
            text::say(&mut kinds, found[i].as_str());
        }
        i = i + 1;
    }
    proof {
        assert(views(found@).take(i as int) =~= views(found@));
    }
    let mut out: Vec<String> = Vec::new();
    proof {
        assert(views(out@) =~= Seq::empty());
    }
    if kinds.len() > 0 && !quiet {
        let mut first = names::copy_names(&kinds);
        if 5 < first.len() {
            first.truncate(5);
        }
        let warn = |k: &String| -> (o: String)
            ensures
                o@ == "⚠️  PII Warning: "@ + k@ + " detected in exported content"@,
            { text::cat3("⚠️  PII Warning: ", k.as_str(), " detected in exported content") };
        let ghost g = |k: String| "⚠️  PII Warning: "@ + k@ + " detected in exported content"@;
        text::say_each(&mut out, &first, warn, Ghost(g));
        proof {
            assert(first@.map_values(g) =~= order::first_of_list(views(kinds@), 5).map_values(
                |k: Seq<char>| "⚠️  PII Warning: "@ + k + " detected in exported content"@,
            ));
        }
        text::say(&mut out, "");
        text::say(&mut out, "📋 PII Detection Summary:");
        let point = |k: &String| -> (o: String)
            ensures
                o@ == "   • "@ + k@,
            { text::cat2("   • ", k.as_str()) };
        let ghost h = |k: String| "   • "@ + k@;
        text::say_each(&mut out, &kinds, point, Ghost(h));
        proof {
            assert(kinds@.map_values(h) =~= views(kinds@).map_values(
                |k: Seq<char>| "   • "@ + k,
            ));
        }
        text::say(&mut out, "");
        text::say(&mut out, "💡 Tip: Use --redact to automatically redact sensitive data");
        text::say(&mut out, "");
    }
    proof {
        assert(views(out@) =~= pii_lines(views(kinds@), quiet));
    }
    (kinds, out)
}

// ---------------------------------------------------------------------------
// Gists
// ---------------------------------------------------------------------------

/// What is uploaded to a gist.
#[derive(Debug, Clone, PartialEq, Eq)]
pub struct GistUpload {
    /// The name of the file.
    pub filename: String,
    /// What it is.
    pub description: String,
    /// Whether everyone can see it.
    pub public: bool,
}

/// What is uploaded to a gist.
pub fn export_session_to_gist(
    session_id: &str,
    entry_count: usize,
    format: ExportFormatArg,
    description: &Option<String>,
    public: bool,
    host: &Host,
) -> (r: Result<GistUpload, SnatchError>)
    requires
        entry_count > 0 ==> has_short_id(session_id@),
    ensures
        if entry_count == 0 {
            r matches Err(e) && e@ == (ErrorView::ConfigError {
                message: "Session has no entries to export"@,
            })
        } else {
            r matches Ok(g) && g.filename@ == "session-"@ + id_head(session_id@) + "."@
                + extension_of(format) && g.description@ == (match *description {
                Some(d) => d@,
                None => host.name@ + " session export"@,
            }) && g.public == public
        },
{
    if entry_count == 0 {
        return Err(
            SnatchError::ConfigError { message: "Session has no entries to export".to_owned() },
        );
    }
    let short = helpers::short_id(session_id);
    let extension = get_format_extension(format);
    let filename = text::cat4("session-", short.as_str(), ".", extension.as_str());
    let description: String = match description {
        Some(d) => d.clone(),
        None => text::cat2(host.name.as_str(), " session export"),
    };
    Ok(GistUpload { filename, description, public })
}

/// The words with which a gist is made.
pub open spec fn gist_words(g: GistUpload) -> Seq<Seq<char>> {
    seq!["gist"@, "create"@, "--filename"@, g.filename@, "--desc"@, g.description@] + (
    if g.public {
        seq!["--public"@]
    } else {
        Seq::empty()
    })
}

/// The words with which a gist is made.
pub fn gist_command(g: &GistUpload) -> (r: Vec<String>)
    ensures
        views(r@) == gist_words(*g),
{
    let mut out: Vec<String> = Vec::new();
    text::say(&mut out, "gist");
    text::say(&mut out, "create");
    text::say(&mut out, "--filename");
    text::say(&mut out, g.filename.as_str());
    text::say(&mut out, "--desc");
    text::say(&mut out, g.description.as_str());
    if g.public {
        text::say(&mut out, "--public");
    }
    proof {
        assert(views(out@) =~= gist_words(*g));
    }
    out
}

/// The address of a gist, from what the program that made it said.
pub fn upload_to_gist(success: bool, stdout: &str, stderr: &str) -> (r: Result<String, SnatchError>)
    ensures
        if !success {
            r matches Err(e) && e@ == (ErrorView::ExportError {
                message: "gh gist create failed: "@ + stderr@,
            })
        } else if trimmed(stdout@).len() == 0 {
            r matches Err(e) && e@ == (ErrorView::ExportError {
                message: "gh gist create returned empty output"@,
            })
        } else {
            r matches Ok(url) && url@ == trimmed(stdout@)
        },
{
    if !success {
        return Err(
            SnatchError::ExportError { message: text::cat2("gh gist create failed: ", stderr) },
        );
    }
    let url = text::trim(stdout);
    if url.as_str().unicode_len() == 0 {
        return Err(
            SnatchError::ExportError {
                message: "gh gist create returned empty output".to_owned(),
            },
        );
    }
    Ok(url)
}

/// What is printed of a gist.
pub fn gist_line(url: &str, json: bool) -> (r: String)
    ensures
        r@ == (if json {
            "{\"url\": \""@ + url@ + "\"}"@
        } else {
            url@
        }),
{
    if json {
        text::cat3("{\"url\": \"", url, "\"}")
    } else {
        url.to_owned()
    }
}

/// The notice that a gist was made.
pub fn gist_notice(public: bool, entry_count: usize) -> (r: String)
    ensures
        r@ == "✓ Created "@ + (if public {
            "public"@
        } else {
            "secret"@
        }) + " gist with "@ + decimal(entry_count as nat) + " entries"@,
{
    let digits = text::size(entry_count);
    let word: String = if public {
        "public".to_owned()
    } else {
        "secret".to_owned()
    };
    text::cat5("✓ Created ", word.as_str(), " gist with ", digits.as_str(), " entries")
}

/// A request is accepted if and only if it names a session or all of them, a gist or the clipboard
/// gets one session and no database, the two do not go together, and a gist finds its program.
pub proof fn requests_that_fit_are_accepted(args: ExportArgs, gh_available: bool)
    ensures
        conflict(args, gh_available) is None <==> {
            &&& args.all || args.session is Some
            &&& args.gist ==> gh_available && args.format !is Sqlite && !args.all && !args.clipboard
            &&& args.clipboard ==> args.format !is Sqlite && !args.all && !args.gist
        },
{
}

/// Each word for a part of a conversation stands for the part of its name.
pub proof fn words_name_their_parts(f: ContentFilter)
    ensures
        f is User <==> type_of(f) is User,
        f is Prompts <==> type_of(f) is Prompts,
        f is Assistant <==> type_of(f) is Assistant,
        f is Thinking <==> type_of(f) is Thinking,
        f is ToolUse <==> type_of(f) is ToolUse,
        f is ToolResults <==> type_of(f) is ToolResults,
        f is System <==> type_of(f) is System,
        f is Summary <==> type_of(f) is Summary,
{
}

/// Every format but the database has a writer of its own; both words for one format have the same,
/// and JSON is written for people where that is asked for in either way.
pub proof fn formats_have_their_writers(
    f: ExportFormatArg,
    pretty: bool,
    main_thread_only: bool,
    toc: bool,
    dark: bool,
)
    ensures
        ({
            let w = writer_of(f, pretty, main_thread_only, toc, dark);
            &&& w is None <==> f is Sqlite
            &&& (w is Some && w->0 is Markdown) <==> f is Markdown || f is Md
            &&& w == Some(ExportWriter::Json { pretty: true }) <==> f is JsonPretty || (f is Json
                && pretty)
            &&& w == Some(ExportWriter::Json { pretty: false }) <==> f is Json && !pretty
            &&& (w is Some && w->0 is Text) <==> f is Text
            &&& w == Some(ExportWriter::Jsonl { main_thread_only }) <==> f is Jsonl
            &&& (w is Some && w->0 is Csv) <==> f is Csv
            &&& (w is Some && w->0 is Xml) <==> f is Xml
            &&& w == Some(ExportWriter::Html { toc, dark }) <==> f is Html
            &&& (w is Some && w->0 is Otel) <==> f is Otel
        }),
{
}

/// The sessions of the project are written by when they were modified: the latest first, but into a
/// database the oldest first.
pub proof fn sessions_are_written_in_order(sessions: Seq<Session>, project: Option<Seq<char>>)
    ensures
        ({
            let kept = sessions.filter(of_project(project));
            let (late, old) = (sorted_by(kept, latest_first()), sorted_by(kept, oldest_first()));
            &&& forall|s: Session| #[trigger]
                late.contains(s) <==> sessions.contains(s) && (project is Some ==> has(
                    s.project_path@,
                    project->0,
                ))
            &&& forall|s: Session| #[trigger] old.contains(s) <==> late.contains(s)
            &&& late.len() == kept.len() && old.len() == kept.len()
            &&& forall|i: int, j: int|
                0 <= i < j < late.len() ==> (#[trigger] late[j]).modified <= (
                #[trigger] late[i]).modified
            &&& forall|i: int, j: int|
                0 <= i < j < old.len() ==> (#[trigger] old[i]).modified <= (
                #[trigger] old[j]).modified
        }),
{
    let kept = sessions.filter(of_project(project));
    let (late, old) = (sorted_by(kept, latest_first()), sorted_by(kept, oldest_first()));
    order::filtering_is_exact(sessions, of_project(project));
    order::sorting_permutes(kept, latest_first());
    order::sorting_permutes(kept, oldest_first());
    order::sorting_orders(kept, latest_first());
    order::sorting_orders(kept, oldest_first());
    assert forall|s: Session| #[trigger]
        late.contains(s) <==> sessions.contains(s) && (project is Some ==> has(
            s.project_path@,
            project->0,
        )) by {
        order::lemma_sorted_contains(kept, latest_first(), s);
        assert(kept.contains(s) <==> sessions.contains(s) && of_project(project)(s));
    }
    assert forall|s: Session| #[trigger] old.contains(s) <==> late.contains(s) by {
        order::lemma_sorted_contains(kept, latest_first(), s);
        order::lemma_sorted_contains(kept, oldest_first(), s);
    }
    assert forall|i: int, j: int| 0 <= i < j < late.len() implies (#[trigger] late[j]).modified <= (
    #[trigger] late[i]).modified by {
        assert(!latest_first()(late[j], late[i]));
    }
    assert forall|i: int, j: int| 0 <= i < j < old.len() implies (#[trigger] old[i]).modified <= (
    #[trigger] old[j]).modified by {
        assert(!oldest_first()(old[j], old[i]));
    }
}

/// An outcome is counted as often as it came.
pub proof fn outcomes_are_counted(outcomes: Seq<ExportOutcome>, which: ExportOutcome)
    ensures
        count_of(outcomes, which) == outcomes.filter(|o: ExportOutcome| o == which).len(),
    decreases outcomes.len(),
{
    broadcast use Seq::lemma_filter_push;

    if outcomes.len() > 0 {
        outcomes_are_counted(outcomes.drop_last(), which);
        assert(outcomes =~= outcomes.drop_last().push(outcomes.last()));
    }
}

/// What is looked through in an answer are its texts, its thoughts and the calls whose input is a
/// text, in order; nothing else of it is.
pub proof fn answers_give_their_texts(blocks: Seq<ContentBlock>, more: ContentBlock)
    ensures
        block_texts(Seq::empty()).len() == 0,
        match more {
            ContentBlock::Text(t) => block_texts(blocks.push(more)) == block_texts(blocks).push(t@),
            ContentBlock::Thinking(t) => block_texts(blocks.push(more)) == block_texts(blocks).push(
                t@,
            ),
            ContentBlock::ToolUse(u) => block_texts(blocks.push(more)) == (match u.input {
                Json::Text(s) => block_texts(blocks).push(s@),
                _ => block_texts(blocks),
            }),
            _ => block_texts(blocks.push(more)) == block_texts(blocks),
        },
{
    assert(blocks.push(more).drop_last() =~= blocks);
}

/// A kind of private data is named once if it was found, in the order in which the kinds were found.
pub proof fn kinds_are_named_once(found: Seq<Seq<char>>)
    ensures
        kinds_found(found).no_duplicates(),
        forall|k: Seq<char>| #[trigger] kinds_found(found).contains(k) <==> found.contains(k),
        found.len() > 0 ==> kinds_found(found).len() > 0 && kinds_found(found)[0] == found[0],
    decreases found.len(),
{
    if found.len() > 0 {
        let front = found.drop_last();
        let (all, before) = (kinds_found(found), kinds_found(front));
        kinds_are_named_once(front);
        assert(found[found.len() - 1] == found.last());
        assert forall|k: Seq<char>| #[trigger] all.contains(k) <==> found.contains(k) by {
            assert(before.contains(k) <==> front.contains(k));
            if front.contains(k) {
                let i = choose|i: int| 0 <= i < front.len() && front[i] == k;
                assert(found[i] == k);
                let j = choose|j: int| 0 <= j < before.len() && before[j] == k;
                assert(all[j] == k);
            }
            if found.contains(k) && !front.contains(k) {
                let i = choose|i: int| 0 <= i < found.len() && found[i] == k;
                if i < front.len() {
                    assert(front[i] == k);
                }
                assert(all[all.len() - 1] == k);
            }
            if all.contains(k) && !before.contains(k) {
                let j = choose|j: int| 0 <= j < all.len() && all[j] == k;
                if j < before.len() {
                    assert(before[j] == k);
                }
            }
        }
        if front.len() > 0 {
            assert(front[0] == found[0]);
        }
    }
}

// ---------------------------------------------------------------------------
// What calls hand back
// ---------------------------------------------------------------------------

/// What was chosen on the command line is exported, and nothing else: each part is there if and
/// only if its flag was given, pictures always are, and nothing is cut. Everything is exported
/// if and only if that was asked for.
pub proof fn chosen_parts_are_exported(args: ExportArgs, r: ExportContents)
    ensures
        call_ensures(build_options, (&args,), r) ==> {
            &&& r is Lossless <==> args.lossless
            &&& r matches ExportContents::Chosen(o) ==> {
                &&& o.include_thinking <==> args.thinking
                &&& o.include_tool_use <==> args.tool_use
                &&& o.include_tool_results <==> args.tool_results
                &&& o.include_system <==> args.system
                &&& o.include_timestamps <==> args.timestamps
                &&& o.include_usage <==> args.usage
                &&& o.include_metadata <==> args.metadata
                &&& o.main_thread_only <==> args.main_thread
                &&& o.include_branches <==> !o.main_thread_only
                &&& o.redaction_preview <==> args.redact_preview
                &&& o.redaction is Some <==> args.redact is Some
                &&& args.redact matches Some(level) ==> o.redaction->0@ == level@
                &&& o.include_images && !o.relative_timestamps
                &&& o.max_depth is None && o.truncate_at is None
            }
            &&& r matches ExportContents::Lossless { redaction, redaction_preview, .. } ==> {
                &&& redaction is Some <==> args.redact is Some
                &&& args.redact matches Some(level) ==> redaction->0@ == level@
                &&& redaction_preview <==> args.redact_preview
            }
        },
{
}

/// A session goes to one place: nowhere if and only if it is empty; to the clipboard if and only
/// if that was asked for, whether or not a path was given; else to a file if and only if a path
/// was given, and to the terminal if none was. A database needs a path and never the clipboard.
pub proof fn sessions_go_to_one_place(
    args: ExportArgs,
    entry_count: usize,
    has_path: bool,
    main_thread_only: bool,
    r: Result<Destination, SnatchError>,
)
    ensures
        call_ensures(export_session, (&args, entry_count, has_path, main_thread_only), r) ==> {
            let full = entry_count > 0;
            let database = args.format is Sqlite;
            &&& (r matches Ok(d) && d is Nowhere) <==> !full
            &&& (r matches Ok(d) && d is Clipboard) <==> full && !database && args.clipboard
            &&& (r matches Ok(d) && d is File) <==> full && !database && !args.clipboard
                && has_path
            &&& (r matches Ok(d) && d is Terminal) <==> full && !database && !args.clipboard
                && !has_path
            &&& (r matches Ok(d) && d is Database) <==> full && database && !args.clipboard
                && has_path
            &&& r is Err <==> full && database && (args.clipboard || !has_path)
        },
{
}

/// A session with those that it spawned goes nowhere, to a database, to a file or to the
/// terminal, and is refused if and only if a database has no path.
pub proof fn families_go_to_one_place(
    args: ExportArgs,
    entry_count: usize,
    has_path: bool,
    r: Result<Destination, SnatchError>,
)
    ensures
        call_ensures(export_combined_agents, (&args, entry_count, has_path), r) ==> {
            let full = entry_count > 0;
            let database = args.format is Sqlite;
            &&& (r matches Ok(d) && d is Nowhere) <==> !full
            &&& (r matches Ok(d) && d is Database) <==> full && database && has_path
            &&& (r matches Ok(d) && d is File) <==> full && !database && has_path
            &&& (r matches Ok(d) && d is Terminal) <==> full && !database && !has_path
            &&& r is Err <==> full && database && !has_path
        },
{
}

/// The sessions that a session spawned go with it whenever that was asked for, gist or not; a
/// gist is made if and only if one was asked for and they do not.
pub proof fn families_go_before_gists(args: ExportArgs, r: SingleExport)
    ensures
        call_ensures(export_single_session, (&args,), r) ==> {
            &&& r is Combined <==> args.combine_agents
            &&& r is Gist <==> args.gist && !args.combine_agents
            &&& r is Plain <==> !args.gist && !args.combine_agents
        },
{
}

/// Files are written into a directory that was given, beside a file that was given, and else
/// where the program was started.
pub proof fn given_directories_are_used(
    given: Option<String>,
    is_directory: bool,
    parent: Option<String>,
    r: String,
)
    ensures
        call_ensures(output_directory, (&given, is_directory, &parent), r) ==> {
            &&& given is Some && is_directory ==> r@ == given->0@
            &&& given is Some && !is_directory && parent is Some ==> r@ == parent->0@
            &&& given is None ==> r@ == "."@
            &&& parent is None && !is_directory ==> r@ == "."@
        },
{
}

/// The hint about dates is given if and only if dates do not count and hints are wanted.
pub proof fn ignored_dates_are_told(ignores_dates: bool, quiet: bool, r: Option<String>)
    ensures
        call_ensures(date_note, (ignores_dates, quiet), r) ==> (r is Some <==> ignores_dates
            && !quiet),
{
}

/// Of requests whose dates can be read and that fit, those for all sessions go to all, and the
/// others to the session that was named; dates count for all sessions alone.
pub proof fn requests_name_what_is_exported(
    args: ExportArgs,
    now: i128,
    gh_available: bool,
    r: Option<Result<ExportRoute, SnatchError>>,
)
    ensures
        call_ensures(run, (&args, now, gh_available), r) ==> (r matches Some(Ok(route)) ==> {
            &&& route is All <==> args.all
            &&& args.all ==> !args.gist && !args.clipboard
            &&& args.gist ==> gh_available && !args.clipboard
            &&& args.gist || args.clipboard ==> !(args.format is Sqlite)
            &&& route matches ExportRoute::Single { session_id, ignores_dates } ==> {
                &&& args.session matches Some(id) && session_id@ == id@
                &&& ignores_dates <==> args.since is Some || args.until is Some
            }
        }),
{
}

/// What a gist is made of: a session with entries alone makes one, open to all if and only if that
/// was asked for, under the description that was given.
pub proof fn gists_are_described_as_asked(
    session_id: &str,
    entry_count: usize,
    format: ExportFormatArg,
    description: Option<String>,
    public: bool,
    host: Host,
    r: Result<GistUpload, SnatchError>,
)
    ensures
        call_ensures(
            export_session_to_gist,
            (session_id, entry_count, format, &description, public, &host),
            r,
        ) ==> {
            &&& r is Err <==> entry_count == 0
            &&& r matches Ok(g) ==> (g.public <==> public) && (description matches Some(d)
                ==> g.description@ == d@)
        },
{
}

/// A gist has an address if and only if the upload went well and told one.
pub proof fn gists_tell_their_address(
    success: bool,
    stdout: &str,
    stderr: &str,
    r: Result<String, SnatchError>,
)
    ensures
        call_ensures(upload_to_gist, (success, stdout, stderr), r) ==> {
            &&& r is Ok <==> success && trimmed(stdout@).len() > 0
            &&& r matches Ok(url) ==> url@ == trimmed(stdout@)
        },
{
}

/// Into a database the oldest session goes first, anywhere else the latest does; the same sessions
/// go either way.
pub proof fn databases_begin_with_the_oldest(
    sessions: Vec<Session>,
    project: Option<String>,
    into_database: Vec<Session>,
    elsewhere: Vec<Session>,
    i: int,
    j: int,
)
    ensures
        call_ensures(order_sessions, (sessions, &project, true), into_database) && 0 <= i < j
            < into_database@.len() ==> into_database@[i].modified <= into_database@[j].modified,
        call_ensures(order_sessions, (sessions, &project, false), elsewhere) && 0 <= i < j
            < elsewhere@.len() ==> elsewhere@[j].modified <= elsewhere@[i].modified,
        call_ensures(order_sessions, (sessions, &project, true), into_database) && call_ensures(
            order_sessions,
            (sessions, &project, false),
            elsewhere,
        ) ==> forall|s: Session| #[trigger]
            into_database@.contains(s) <==> elsewhere@.contains(s),
{
    sessions_are_written_in_order(sessions@, text_view(project));
}

} // verus!
