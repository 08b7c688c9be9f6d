//! Details of sessions, projects and the session directory.
use vstd::prelude::*;

use crate::commands::helpers;
use crate::commands::helpers::{has_short_id, id_head, text_view};
use crate::commands::list;
use crate::commands::list::{can_cut, cut_at, gist_of, SessionMeta};
use crate::commands::OutputFormat;
use crate::error::{ErrorView, SnatchError};
use crate::host::Host;
use crate::json;
use crate::json::{
    field, fields_view, given_number, given_text, given_texts, number_json, optional_text,
    texts_json, time_json, Json, JsonView,
};
use crate::model::{ContentBlock, LogEntry, ToolUse};
use crate::names;
use crate::names::{name_set, names_ascend};
use crate::order::first_of_list;
use crate::text;
use crate::text::{begins, decimal, joined, lines_of, spread_numbered, views};
use crate::time;
use crate::time::shown_or;

verus! {

// ---------------------------------------------------------------------------
// What is shown
// ---------------------------------------------------------------------------

/// What is shown.
#[derive(Debug, Clone, Copy, PartialEq, Eq)]
pub enum InfoTarget {
    /// The session that was found.
    Session,
    /// The project that was found under this name.
    Project,
    /// The first of the projects that this text was found in.
    FirstMatch,
    /// The session directory.
    Directory,
}

/// What is shown: the session of this id, else the project of this name, else the first project
/// that the text is found in; the session directory where nothing is asked for.
pub fn run(
    target: &Option<String>,
    is_session: bool,
    is_project: bool,
    matching_projects: usize,
) -> (r: Result<InfoTarget, SnatchError>)
    ensures
        match *target {
            None => r == Ok::<InfoTarget, SnatchError>(InfoTarget::Directory),
            Some(t) => if is_session {
                r == Ok::<InfoTarget, SnatchError>(InfoTarget::Session)
            } else if is_project {
                r == Ok::<InfoTarget, SnatchError>(InfoTarget::Project)
            } else if matching_projects > 0 {
                r == Ok::<InfoTarget, SnatchError>(InfoTarget::FirstMatch)
            } else {
                r matches Err(e) && e@ == (ErrorView::SessionNotFound { session_id: t@ })
            },
        },
{
    match target {
        None => Ok(InfoTarget::Directory),
        Some(t) => if is_session {
            Ok(InfoTarget::Session)
        } else if is_project {
            Ok(InfoTarget::Project)
        } else if matching_projects > 0 {
            Ok(InfoTarget::FirstMatch)
        } else {
            Err(SnatchError::SessionNotFound { session_id: t.clone() })
        },
    }
}

// ---------------------------------------------------------------------------
// A session
// ---------------------------------------------------------------------------

/// What is known of a session. Times and sizes are written as they are shown.
#[derive(Debug, Clone, PartialEq, Eq)]
pub struct SessionSummary {
    /// Its id.
    pub session_id: String,
    /// The path of its project.
    pub project_path: String,
    /// Whether another session spawned it.
    pub is_subagent: bool,
    /// The session that spawned it.
    pub parent_session_id: Option<String>,
    /// The size of its file.
    pub file_size: u64,
    /// The size of its file, as it is shown.
    pub file_size_human: String,
    /// The number of its entries.
    pub entry_count: usize,
    /// The number of its messages.
    pub message_count: usize,
    /// How often it was compacted.
    pub compaction_count: usize,
    /// When it began.
    pub started: Option<i128>,
    /// When it was last used.
    pub ended: Option<i128>,
    /// How long it took.
    pub duration: Option<String>,
    /// The state that it is in.
    pub state: String,
    /// Whether it is in use.
    pub is_active: bool,
    /// The version of the program.
    pub version: Option<String>,
    /// The path of its file.
    pub path: String,
    /// The number of files with results of tools.
    pub tool_result_count: usize,
    /// The size of these files.
    pub tool_result_size: String,
    /// What was written down about it.
    pub meta: Option<SessionMeta>,
}

/// The line of a text that may be missing.
pub open spec fn given_line(label: Seq<char>, s: Option<String>) -> Seq<Seq<char>> {
    match s {
        Some(t) => seq![label + t@],
        None => Seq::empty(),
    }
}

/// Puts the line of a text behind the others where there is a text.
pub fn say_given(out: &mut Vec<String>, label: &str, s: &Option<String>)
    ensures
        views(final(out)@) == views(old(out)@) + given_line(label@, *s),
{
    let ghost start = views(out@);
    match s {
        Some(t) => text::say2(out, label, t.as_str()),
        None => {},
    }
    proof {
        assert(views(out@) =~= start + given_line(label@, *s));
    }
}

/// The rows of what was written down about a session.
pub open spec fn meta_rows(meta: Option<SessionMeta>) -> Seq<Seq<char>> {
    match meta {
        Some(m) => given_line("name\t"@, m.name) + (if m.tags@.len() > 0 {
            seq!["tags\t"@ + joined(views(m.tags@), ","@)]
        } else {
            Seq::empty()
        }) + (if m.bookmarked {
            seq!["bookmarked\ttrue"@]
        } else {
            Seq::empty()
        }) + given_line("outcome\t"@, m.outcome),
        None => Seq::empty(),
    }
}

/// The table of values of a session.
pub open spec fn session_table(s: SessionSummary) -> Seq<Seq<char>> {
    seq![
        "field\tvalue"@,
        "session_id\t"@ + s.session_id@,
        "project\t"@ + s.project_path@,
        "subagent\t"@ + (if s.is_subagent {
            "true"@
        } else {
            "false"@
        }),
        "entries\t"@ + decimal(s.entry_count as nat),
        "size\t"@ + decimal(s.file_size as nat),
    ] + meta_rows(s.meta)
}

fn say_meta_rows(out: &mut Vec<String>, meta: &Option<SessionMeta>)
    ensures
        views(final(out)@) == views(old(out)@) + meta_rows(*meta),
{
    let ghost start = views(out@);
    match meta {
        Some(m) => {
            say_given(out, "name\t", &m.name);
            if m.tags.len() > 0 {
                let tags = text::join(&m.tags, ",");
                text::say2(out, "tags\t", tags.as_str());
            }
            if m.bookmarked {
                text::say(out, "bookmarked\ttrue");
            }
            say_given(out, "outcome\t", &m.outcome);
        },
        None => {},
    }
    proof {
        assert(views(out@) =~= start + meta_rows(*meta));
    }
}

/// The short line of a session: its short id, the number of its entries and its size.
pub fn compact_session(s: &SessionSummary) -> (r: String)
    requires
        has_short_id(s.session_id@),
    ensures
        r@ == id_head(s.session_id@) + ":"@ + decimal(s.entry_count as nat) + ":"@
            + s.file_size_human@,
{
    let id = helpers::short_id(s.session_id.as_str());
    let entries = text::size(s.entry_count);
    text::cat5(id.as_str(), ":", entries.as_str(), ":", s.file_size_human.as_str())
}

/// The table of values of a session.
pub fn print_session_table(s: &SessionSummary) -> (r: Vec<String>)
    ensures
        views(r@) == session_table(*s),
{
    let mut out: Vec<String> = Vec::new();
    let entries = text::size(s.entry_count);
    let size = text::number(s.file_size);
    text::say(&mut out, "field\tvalue");
    text::say2(&mut out, "session_id\t", s.session_id.as_str());
    text::say2(&mut out, "project\t", s.project_path.as_str());
    if s.is_subagent {
        text::say2(&mut out, "subagent\t", "true");
    } else {
        text::say2(&mut out, "subagent\t", "false");
    }
    text::say2(&mut out, "entries\t", entries.as_str());
    text::say2(&mut out, "size\t", size.as_str());
    say_meta_rows(&mut out, &s.meta);
    proof {
        assert(views(out@) =~= session_table(*s));
    }
    out
}

/// What was written down about a session is worth showing.
pub open spec fn has_metadata(m: SessionMeta) -> bool {
    m.name is Some || m.tags@.len() > 0 || m.bookmarked || m.outcome is Some
}

/// The lines of what was written down about a session.
pub open spec fn meta_lines(meta: Option<SessionMeta>) -> Seq<Seq<char>> {
    match meta {
        Some(m) => if has_metadata(m) {
            seq![""@] + given_line("Name:         "@, m.name) + (if m.bookmarked {
                seq!["Bookmarked:   Yes"@]
            } else {
                Seq::empty()
            }) + given_line("Outcome:      "@, m.outcome) + (if m.tags@.len() > 0 {
                seq!["Tags:         "@ + joined(views(m.tags@), ", "@)]
            } else {
                Seq::empty()
            })
        } else {
            Seq::empty()
        },
        None => Seq::empty(),
    }
}

/// What a session is.
pub open spec fn kind_lines(s: SessionSummary) -> Seq<Seq<char>> {
    seq![
        "Session Information"@,
        "==================="@,
        ""@,
        "Session ID:   "@ + s.session_id@,
        "Project:      "@ + s.project_path@,
        "Type:         "@ + (if s.is_subagent {
            "Subagent"@
        } else {
            "Main"@
        }),
    ] + given_line("Parent:       "@, s.parent_session_id) + seq![
        "Status:       "@ + s.state@,
    ] + (if s.compaction_count > 0 {
        seq!["Compactions:  "@ + decimal(s.compaction_count as nat)]
    } else {
        Seq::empty()
    }) + seq![""@]
}

/// How large a session is.
pub open spec fn size_lines(s: SessionSummary, paths: bool) -> Seq<Seq<char>> {
    (if paths {
        seq!["File Path:    "@ + s.path@, ""@]
    } else {
        Seq::empty()
    }) + seq![
        "File Size:    "@ + s.file_size_human@,
        "Entries:      "@ + decimal(s.entry_count as nat),
        "Messages:     "@ + decimal(s.message_count as nat),
    ] + (if s.tool_result_count > 0 {
        seq![
            "Tool Results: "@ + decimal(s.tool_result_count as nat) + " files ("@
                + s.tool_result_size@ + ")"@,
        ]
    } else {
        Seq::empty()
    }) + seq![""@]
}

/// A line for a point in time, where there is one.
pub open spec fn clock_line(label: Seq<char>, time: Option<i128>) -> Seq<Seq<char>> {
    match time {
        Some(t) => seq![label + shown_or(Some(t), "%Y-%m-%d %H:%M:%S UTC"@, ""@)],
        None => Seq::empty(),
    }
}

fn say_clock(out: &mut Vec<String>, label: &str, time: Option<i128>)
    ensures
        views(final(out)@) == views(old(out)@) + clock_line(label@, time),
{
    let ghost start = views(out@);
    match time {
        Some(t) => {
            let told = time::show_or(Some(t), "%Y-%m-%d %H:%M:%S UTC", "");
            text::say2(out, label, told.as_str());
        },
        None => {},
    }
    proof {
        assert(views(out@) =~= start + clock_line(label@, time));
    }
}

/// When a session was in use.
pub open spec fn time_lines(s: SessionSummary) -> Seq<Seq<char>> {
    clock_line("Started:      "@, s.started) + clock_line(
        if s.is_active {
            "Last Activity:  "@
        } else {
            "Ended:        "@
        },
        s.ended,
    ) + (if s.is_active {
        Seq::empty()
    } else {
        given_line("Duration:     "@, s.duration)
    }) + seq![""@]
}

/// What is printed of a session.
pub open spec fn session_lines(s: SessionSummary, paths: bool) -> Seq<Seq<char>> {
    kind_lines(s) + size_lines(s, paths) + time_lines(s) + given_line("Version:      "@, s.version)
        + meta_lines(s.meta)
}

fn say_meta(out: &mut Vec<String>, meta: &Option<SessionMeta>)
    ensures
        views(final(out)@) == views(old(out)@) + meta_lines(*meta),
{
    let ghost start = views(out@);
    match meta {
        Some(m) => {
            if m.name.is_some() || m.tags.len() > 0 || m.bookmarked || m.outcome.is_some() {
                text::say(out, "");
                say_given(out, "Name:         ", &m.name);
                if m.bookmarked {
                    text::say(out, "Bookmarked:   Yes");
                }
                say_given(out, "Outcome:      ", &m.outcome);
                if m.tags.len() > 0 {
                    let tags = text::join(&m.tags, ", ");
                    text::say2(out, "Tags:         ", tags.as_str());
                }
            }
        },
        None => {},
    }
    proof {
        assert(views(out@) =~= start + meta_lines(*meta));
    }
}

fn write_kind(s: &SessionSummary) -> (r: Vec<String>)
    ensures
        views(r@) == kind_lines(*s),
{
    let mut out: Vec<String> = Vec::new();
    text::say(&mut out, "Session Information");
    text::say(&mut out, "===================");
    text::say(&mut out, "");
    text::say2(&mut out, "Session ID:   ", s.session_id.as_str());
    text::say2(&mut out, "Project:      ", s.project_path.as_str());
    if s.is_subagent {
        text::say2(&mut out, "Type:         ", "Subagent");
    } else {
        text::say2(&mut out, "Type:         ", "Main");
    }
    say_given(&mut out, "Parent:       ", &s.parent_session_id);
    text::say2(&mut out, "Status:       ", s.state.as_str());
    if s.compaction_count > 0 {
        let digits = text::size(s.compaction_count);
        text::say2(&mut out, "Compactions:  ", digits.as_str());
    }
    text::say(&mut out, "");
    proof {
        assert(views(out@) =~= kind_lines(*s));
    }
    out
}

fn write_size(s: &SessionSummary, paths: bool) -> (r: Vec<String>)
    ensures
        views(r@) == size_lines(*s, paths),
{
    let mut out: Vec<String> = Vec::new();
    let entries = text::size(s.entry_count);
    let messages = text::size(s.message_count);
    if paths {
        text::say2(&mut out, "File Path:    ", s.path.as_str());
        text::say(&mut out, "");
    }
    text::say2(&mut out, "File Size:    ", s.file_size_human.as_str());
    text::say2(&mut out, "Entries:      ", entries.as_str());
    text::say2(&mut out, "Messages:     ", messages.as_str());
    if s.tool_result_count > 0 {
        let digits = text::size(s.tool_result_count);
        text::say5(
            &mut out,
            "Tool Results: ",
            digits.as_str(),
            " files (",
            s.tool_result_size.as_str(),
            ")",
        );
    }
    text::say(&mut out, "");
    proof {
        assert(views(out@) =~= size_lines(*s, paths));
    }
    out
}

fn write_times(s: &SessionSummary) -> (r: Vec<String>)
    ensures
        views(r@) == time_lines(*s),
{
    let mut out: Vec<String> = Vec::new();
    say_clock(&mut out, "Started:      ", s.started);
    if s.is_active {
        say_clock(&mut out, "Last Activity:  ", s.ended);
    } else {
        say_clock(&mut out, "Ended:        ", s.ended);
        say_given(&mut out, "Duration:     ", &s.duration);
    }
    text::say(&mut out, "");
    proof {
        assert(views(out@) =~= time_lines(*s));
    }
    out
}

/// What is printed of a session.
pub fn show_session_info(s: &SessionSummary, paths: bool) -> (r: Vec<String>)
    ensures
        views(r@) == session_lines(*s, paths),
{
    let mut out = write_kind(s);
    let sizes = write_size(s, paths);
    text::say_more(&mut out, sizes);
    let times = write_times(s);
    text::say_more(&mut out, times);
    say_given(&mut out, "Version:      ", &s.version);
    say_meta(&mut out, &s.meta);
    out
}

// ---------------------------------------------------------------------------
// The tree and the entries of a session
// ---------------------------------------------------------------------------

/// The numbers of the tree of messages.
#[derive(Debug, Clone, Copy, PartialEq, Eq)]
pub struct TreeStats {
    /// All messages.
    pub total_nodes: usize,
    /// The longest way from a first message.
    pub max_depth: usize,
    /// The messages of the main thread.
    pub main_thread_length: usize,
    /// The branches.
    pub branch_count: usize,
    /// The calls of tools.
    pub tool_uses: usize,
    /// The results of tools.
    pub tool_results: usize,
    /// Whether calls and results match.
    pub tools_balanced: bool,
}

/// A message with several answers.
#[derive(Debug, Clone, PartialEq, Eq)]
pub struct BranchPoint {
    /// Its id.
    pub id: String,
    /// The number of answers.
    pub children: usize,
    /// How far it is from a first message.
    pub depth: usize,
}

/// The line of a message with several answers.
pub open spec fn branch_line(b: BranchPoint) -> Seq<char> {
    "  "@ + id_head(b.id@) + " ("@ + decimal(b.children as nat) + " children at depth "@
        + decimal(b.depth as nat) + ")"@
}

/// What is printed of the tree.
pub open spec fn tree_lines(t: TreeStats, points: Seq<BranchPoint>) -> Seq<Seq<char>> {
    seq![
        "Tree Structure:"@,
        "  Nodes:        "@ + decimal(t.total_nodes as nat),
        "  Max Depth:    "@ + decimal(t.max_depth as nat),
        "  Main Thread:  "@ + decimal(t.main_thread_length as nat) + " entries"@,
        "  Branches:     "@ + decimal(t.branch_count as nat),
        "  Tool Uses:    "@ + decimal(t.tool_uses as nat),
        "  Tool Results: "@ + decimal(t.tool_results as nat),
        "  Balanced:     "@ + (if t.tools_balanced {
            "yes"@
        } else {
            "no"@
        }) + " (tool calls match results)"@,
    ] + (if t.branch_count > 0 {
        seq![""@, "Branch Points:"@] + points.map_values(|b: BranchPoint| branch_line(b))
    } else {
        Seq::empty()
    })
}

fn say_count(out: &mut Vec<String>, label: &str, n: usize)
    ensures
        views(final(out)@) == views(old(out)@).push(label@ + decimal(n as nat)),
{
    let digits = text::size(n);
    text::say2(out, label, digits.as_str());
}

fn write_branch(b: &BranchPoint) -> (r: String)
    requires
        has_short_id(b.id@),
    ensures
        r@ == branch_line(*b),
{
    let id = helpers::short_id(b.id.as_str());
    let children = text::size(b.children);
    let depth = text::size(b.depth);
    let head = text::cat5("  ", id.as_str(), " (", children.as_str(), " children at depth ");
    text::cat3(head.as_str(), depth.as_str(), ")")
}

/// What is printed of the tree.
pub fn show_tree_structure(t: &TreeStats, points: &Vec<BranchPoint>) -> (r: Vec<String>)
    requires
        forall|i: int| 0 <= i < points@.len() ==> has_short_id((#[trigger] points@[i]).id@),
    ensures
        views(r@) == tree_lines(*t, points@),
{
    let mut out: Vec<String> = Vec::new();
    text::say(&mut out, "Tree Structure:");
    say_count(&mut out, "  Nodes:        ", t.total_nodes);
    say_count(&mut out, "  Max Depth:    ", t.max_depth);
    let main = text::size(t.main_thread_length);
    text::say3(&mut out, "  Main Thread:  ", main.as_str(), " entries");
    say_count(&mut out, "  Branches:     ", t.branch_count);
    say_count(&mut out, "  Tool Uses:    ", t.tool_uses);
    say_count(&mut out, "  Tool Results: ", t.tool_results);
    if t.tools_balanced {
        text::say3(&mut out, "  Balanced:     ", "yes", " (tool calls match results)");
    } else {
        text::say3(&mut out, "  Balanced:     ", "no", " (tool calls match results)");
    }
    if t.branch_count > 0 {
        text::say(&mut out, "");
        text::say(&mut out, "Branch Points:");
        text::say_each(&mut out, points, write_branch, Ghost(|b: BranchPoint| branch_line(b)));
    }
    proof {
        assert(views(out@) =~= tree_lines(*t, points@));
    }
    out
}

/// The id begins with this text.
pub open spec fn id_begins(id: Option<String>, uuid: Seq<char>) -> bool {
    id matches Some(u) && begins(u@, uuid)
}

// ---------------------------------------------------------------------------
// A preview of the messages
// ---------------------------------------------------------------------------

/// A message, as far as a preview shows it.
#[derive(Debug, Clone, PartialEq, Eq)]
pub enum PreviewMessage {
    /// Of the user.
    User {
        /// Whether it holds the result of a tool.
        has_tool_results: bool,
        /// Its text.
        text: Option<String>,
    },
    /// Of the assistant: its texts.
    Assistant(Vec<String>),
    /// Anything else.
    Other,
}

/// What a preview shows of a message: who wrote it, and its text.
pub open spec fn previewed(m: PreviewMessage) -> Option<(bool, Seq<char>)> {
    match m {
        PreviewMessage::User { has_tool_results, text } => match text {
            Some(t) => if has_tool_results {
                None
            } else {
                Some((true, t@))
            },
            None => None,
        },
        PreviewMessage::Assistant(parts) => if parts@.len() > 0 {
            Some((false, joined(views(parts@), "\n"@)))
        } else {
            None
        },
        PreviewMessage::Other => None,
    }
}

/// What a preview shows of some messages.
pub open spec fn all_previewed(messages: Seq<PreviewMessage>) -> Seq<(bool, Seq<char>)>
    decreases messages.len(),
{
    if messages.len() == 0 {
        Seq::empty()
    } else {
        let before = all_previewed(messages.drop_last());
        match previewed(messages.last()) {
            Some(p) => before.push(p),
            None => before,
        }
    }
}

/// The gist of a text in a preview: its first five lines that are not empty.
pub open spec fn preview_gist(s: Seq<char>) -> Seq<char> {
    gist_of(s, 5, "\n"@)
}

/// Its first five lines that are not empty, cut to this many bytes.
pub fn truncate_preview(s: &str, max_len: usize) -> (r: String)
    requires
        can_cut(preview_gist(s@), max_len),
    ensures
        r@ == cut_at(preview_gist(s@), max_len),
{
    let gist = list::write_gist(s, 5, "\n");
    list::cut_to(gist, max_len)
}

/// The lines of a message in a preview.
pub open spec fn preview_lines(i: int, p: (bool, Seq<char>)) -> Seq<Seq<char>> {
    seq![
        ""@,
        "["@ + decimal((i + 1) as nat) + "] "@ + (if p.0 {
            "User:"@
        } else {
            "Assistant:"@
        }),
    ] + lines_of(cut_at(preview_gist(p.1), 200)).map_values(|l: Seq<char>| "  "@ + l)
}

/// What a preview prints of the first `n` messages that have a text.
pub open spec fn preview_output(messages: Seq<PreviewMessage>, n: usize) -> Seq<Seq<char>> {
    let shown = first_of_list(all_previewed(messages), n as int);
    if shown.len() == 0 {
        seq!["No messages found."@]
    } else {
        text::spread_numbered(shown, |i: int, p: (bool, Seq<char>)| preview_lines(i, p))
    }
}

/// The texts that a preview shows can be cut.
pub open spec fn previews_can_be_cut(messages: Seq<PreviewMessage>, n: usize) -> bool {
    forall|i: int|
        0 <= i < first_of_list(all_previewed(messages), n as int).len() ==> can_cut(
            preview_gist((#[trigger] first_of_list(all_previewed(messages), n as int)[i]).1),
            200,
        )
}

fn preview_of(m: &PreviewMessage) -> (r: Option<(bool, String)>)
    ensures
        match r {
            Some(p) => previewed(*m) == Some((p.0, p.1@)),
            None => previewed(*m) is None,
        },
{
    match m {
        PreviewMessage::User { has_tool_results, text } => match text {
            Some(t) => if *has_tool_results {
                None
            } else {
                Some((true, t.clone()))
            },
            None => None,
        },
        PreviewMessage::Assistant(parts) => if parts.len() > 0 {
            Some((false, text::join(parts, "\n")))
        } else {
            None
        },
        PreviewMessage::Other => None,
    }
}

fn say_preview(out: &mut Vec<String>, i: usize, is_user: bool, s: &str)
    requires
        can_cut(preview_gist(s@), 200),
        i < usize::MAX,
    ensures
        views(final(out)@) == views(old(out)@) + preview_lines(i as int, (is_user, s@)),
{
    let ghost start = views(out@);
    let digits = text::size(i + 1);
    text::say(out, "");
    if is_user {
        text::say4(out, "[", digits.as_str(), "] ", "User:");
    } else {
        text::say4(out, "[", digits.as_str(), "] ", "Assistant:");
    }
    let cut = truncate_preview(s, 200);
    let lines = text::lines(cut.as_str());
    let set_in = |l: &String| -> (o: String)
        ensures
            o@ == "  "@ + l@,
        { text::cat2("  ", l.as_str()) };
    let ghost g = |l: String| "  "@ + l@;
    text::say_each(out, &lines, set_in, Ghost(g));
    proof {
        assert(lines@.map_values(g) =~= views(lines@).map_values(|l: Seq<char>| "  "@ + l));
        assert(views(out@) =~= start + preview_lines(i as int, (is_user, s@)));
    }
}

proof fn lemma_previewed_prefix(messages: Seq<PreviewMessage>, k: int)
    requires
        0 <= k <= messages.len(),
    ensures
        all_previewed(messages.take(k)).len() <= all_previewed(messages).len(),
        forall|i: int|
            0 <= i < all_previewed(messages.take(k)).len() ==> #[trigger] all_previewed(
                messages.take(k),
            )[i] == all_previewed(messages)[i],
    decreases messages.len(),
{
    if k == messages.len() {
        assert(messages.take(k) =~= messages);
    } else {
        lemma_previewed_prefix(messages.drop_last(), k);
        assert(messages.drop_last().take(k) =~= messages.take(k));
    }
}

/// Whether the texts that a preview shows can be cut.
pub fn can_preview(messages: &Vec<PreviewMessage>, n: usize) -> (r: bool)
    ensures
        r == previews_can_be_cut(messages@, n),
{
    let ghost all = all_previewed(messages@);
    let ghost shown = first_of_list(all, n as int);
    let mut count: usize = 0;
    let mut k: usize = 0;
    proof {
        assert(messages@.take(0) =~= Seq::empty());
    }
    while k < messages.len() && count < n
        invariant
            k <= messages@.len(),
            count <= k,
            count <= n,
            all == all_previewed(messages@),
            shown == first_of_list(all, n as int),
            count == all_previewed(messages@.take(k as int)).len(),
            forall|i: int|
                0 <= i < count ==> can_cut(preview_gist((#[trigger] all[i]).1), 200),
        decreases messages@.len() - k,
    {
        proof {
            let next = messages@.take(k + 1);
            assert(next.drop_last() =~= messages@.take(k as int));
            assert(next.last() == messages@[k as int]);
            lemma_previewed_prefix(messages@, k + 1);
        }
        match preview_of(&messages[k]) {
            Some((_is_user, text)) => {
                proof {
                    assert(all_previewed(messages@.take(k + 1))[count as int] == all[count as int]);
                    assert(shown[count as int] == all[count as int]);
                }
                let gist = list::write_gist(text.as_str(), 5, "\n");
                if !list::is_cuttable(gist.as_str(), 200) {
                    return false;
                }
                count = count + 1;
            },
            None => {},
        }
        k = k + 1;
    }
    proof {
        lemma_previewed_prefix(messages@, k as int);
        if k == messages@.len() {
            assert(messages@.take(k as int) =~= messages@);
        }
        assert forall|i: int| 0 <= i < shown.len() implies can_cut(
            preview_gist((#[trigger] shown[i]).1),
            200,
        ) by {
            assert(shown[i] == all[i]);
        }
    }
    true
}

/// What a preview prints of the first `n` messages that have a text.
pub fn show_message_preview(messages: &Vec<PreviewMessage>, n: usize) -> (r: Vec<String>)
    requires
        previews_can_be_cut(messages@, n),
    ensures
        views(r@) == preview_output(messages@, n),
{
    let mut out: Vec<String> = Vec::new();
    let mut count: usize = 0;
    let mut k: usize = 0;
    let total: usize = messages.len();
    let ghost g = |i: int, p: (bool, Seq<char>)| preview_lines(i, p);
    let ghost all = all_previewed(messages@);
    proof {
        assert(messages@.take(0) =~= Seq::empty());
        assert(views(out@) =~= Seq::empty());
    }
    while k < total && count < n
        invariant
            total == messages@.len(),
            k <= total,
            count <= k,
            count <= n,
            all == all_previewed(messages@),
            previews_can_be_cut(messages@, n),
            g == (|i: int, p: (bool, Seq<char>)| preview_lines(i, p)),
            count == all_previewed(messages@.take(k as int)).len(),
            views(out@) == text::spread_numbered(all_previewed(messages@.take(k as int)), g),
        decreases total - k,
    {
        let ghost before = all_previewed(messages@.take(k as int));
        let ghost next = messages@.take(k + 1);
        proof {
            assert(next.drop_last() =~= messages@.take(k as int));
            assert(next.last() == messages@[k as int]);
            lemma_previewed_prefix(messages@, k + 1);
        }
        match preview_of(&messages[k]) {
            Some((is_user, s)) => {
                proof {
                    let after = all_previewed(next);
                    assert(after == before.push((is_user, s@)));
                    assert(after.drop_last() =~= before);
                    assert(after[count as int] == all[count as int]);
                    assert(first_of_list(all, n as int)[count as int] == all[count as int]);
                }
                say_preview(&mut out, count, is_user, s.as_str());
                count = count + 1;
            },
            None => {},
        }
        k = k + 1;
    }
    proof {
        lemma_previewed_prefix(messages@, k as int);
        let so_far = all_previewed(messages@.take(k as int));
        if k == total {
            assert(messages@.take(k as int) =~= messages@);
        }
        assert(so_far =~= first_of_list(all, n as int));
    }
    if count == 0 {
        text::say(&mut out, "No messages found.");
        proof {
            assert(views(out@) =~= seq!["No messages found."@]);
        }
    }
    out
}

// ---------------------------------------------------------------------------
// The files that were touched
// ---------------------------------------------------------------------------

/// The file that a call was given.
pub open spec fn file_of(t: ToolUse) -> Option<Seq<char>> {
    match t.input@ {
        JsonView::Object(fields) => json::text_of(field(fields, "file_path"@)),
        _ => None,
    }
}

/// The files that calls of this tool were given, in the order of the calls.
pub open spec fn files_in(blocks: Seq<ContentBlock>, tool: Seq<char>) -> Seq<Seq<char>>
    decreases blocks.len(),
{
    if blocks.len() == 0 {
        Seq::empty()
    } else {
        let before = files_in(blocks.drop_last(), tool);
        match blocks.last() {
            ContentBlock::ToolUse(t) => if t.name@ == tool && file_of(t) is Some {
                before.push(file_of(t)->0)
            } else {
                before
            },
            _ => before,
        }
    }
}

/// The files that calls of this tool in some entries were given.
pub open spec fn files_touched(entries: Seq<LogEntry>, tool: Seq<char>) -> Seq<Seq<char>>
    decreases entries.len(),
{
    if entries.len() == 0 {
        Seq::empty()
    } else {
        let before = files_touched(entries.drop_last(), tool);
        match entries.last() {
            LogEntry::Assistant(a) => before + files_in(a.content@, tool),
            _ => before,
        }
    }
}

fn call_file(t: &ToolUse) -> (r: Option<String>)
    ensures
        text_view(r) == file_of(*t),
{
    match &t.input {
        Json::Object(fields) => match json::get_text(fields, "file_path") {
            Some(path) => Some(path.clone()),
            None => None,
        },
        _ => None,
    }
}

fn add_files(set: &mut Vec<String>, blocks: &Vec<ContentBlock>, tool: &str, Ghost(seen): Ghost<
    Seq<Seq<char>>,
>)
    requires
        views(old(set)@) == name_set(seen),
    ensures
        views(final(set)@) == name_set(seen + files_in(blocks@, tool@)),
{
    let mut i: usize = 0;
    proof {
        assert(blocks@.take(0) =~= Seq::empty());
        assert(seen + Seq::<Seq<char>>::empty() =~= seen);
    }
    while i < blocks.len()
        invariant
            i <= blocks@.len(),
            views(set@) == name_set(seen + files_in(blocks@.take(i as int), tool@)),
        decreases blocks@.len() - i,
    {
        proof {
            let next = blocks@.take(i + 1);
            assert(next.drop_last() =~= blocks@.take(i as int));
            assert(next.last() == blocks@[i as int]);
        }
        match &blocks[i] {
            ContentBlock::ToolUse(t) => {
                if text::same(t.name.as_str(), tool) {
                    match call_file(t) {
                        Some(path) => {
                            proof {
                                let before = seen + files_in(blocks@.take(i as int), tool@);
                                let after = seen + files_in(blocks@.take(i + 1), tool@);
                                assert(after =~= before.push(path@));
                                assert(after.drop_last() =~= before);
                            }
                            names::insert_name(set, path);
                        },
                        None => {},
                    }
                }
            },
            _ => {},
        }
        i = i + 1;
    }
    proof {
        assert(blocks@.take(i as int) =~= blocks@);
    }
}

/// The files that calls of a tool were given, in order and each once.
pub fn collect_files(entries: &Vec<LogEntry>, tool: &str) -> (r: Vec<String>)
    ensures
        views(r@) == name_set(files_touched(entries@, tool@)),
        names_ascend(views(r@)),
{
    let mut set: Vec<String> = Vec::new();
    let mut i: usize = 0;
    proof {
        assert(entries@.take(0) =~= Seq::empty());
        assert(views(set@) =~= name_set(files_touched(entries@.take(0), tool@)));
    }
    while i < entries.len()
        invariant
            i <= entries@.len(),
            views(set@) == name_set(files_touched(entries@.take(i as int), tool@)),
        decreases entries@.len() - i,
    {
        let ghost seen = files_touched(entries@.take(i as int), tool@);
        proof {
            let next = entries@.take(i + 1);
            assert(next.drop_last() =~= entries@.take(i as int));
            assert(next.last() == entries@[i as int]);
        }
        match &entries[i] {
            LogEntry::Assistant(a) => add_files(&mut set, &a.content, tool, Ghost(seen)),
            _ => {},
        }
        i = i + 1;
    }
    proof {
        assert(entries@.take(i as int) =~= entries@);
        names::name_set_holds(files_touched(entries@, tool@));
    }
    set
}

/// The lines of some files under a heading: the first twenty, and how many more there are;
/// nothing where there are none.
pub open spec fn file_lines(label: Seq<char>, files: Seq<Seq<char>>) -> Seq<Seq<char>> {
    if files.len() == 0 {
        Seq::empty()
    } else {
        seq![""@, label + " ("@ + decimal(files.len()) + "):"@] + first_of_list(
            files,
            20,
        ).map_values(|f: Seq<char>| "  "@ + f) + (if files.len() > 20 {
            seq!["  ... and "@ + decimal((files.len() - 20) as nat) + " more"@]
        } else {
            Seq::empty()
        })
    }
}

/// What is printed of the files that were touched.
pub open spec fn touched_lines(read: Seq<Seq<char>>, edited: Seq<Seq<char>>, written: Seq<
    Seq<char>,
>) -> Seq<Seq<char>> {
    if read.len() + edited.len() + written.len() == 0 {
        seq!["No file operations detected."@]
    } else {
        file_lines("Read"@, read) + file_lines("Modified"@, edited) + file_lines(
            "Created"@,
            written,
        )
    }
}

fn say_files(out: &mut Vec<String>, label: &str, files: &Vec<String>)
    ensures
        views(final(out)@) == views(old(out)@) + file_lines(label@, views(files@)),
{
    let ghost start = views(out@);
    if files.len() > 0 {
        let digits = text::size(files.len());
        text::say(out, "");
        text::say4(out, label, " (", digits.as_str(), "):");
        let ghost head = views(out@);
        let ghost all = first_of_list(views(files@), 20).map_values(|f: Seq<char>| "  "@ + f);
        let mut i: usize = 0;
        proof {
            assert(head + all.take(0) =~= head);
        }
        while i < files.len() && i < 20
            invariant
                i <= files@.len(),
                i <= 20,
                all == first_of_list(views(files@), 20).map_values(|f: Seq<char>| "  "@ + f),
                views(out@) == head + all.take(i as int),
            decreases 20 - i,
        {
            text::say2(out, "  ", files[i].as_str());
            proof {
                assert(all[i as int] == "  "@ + files@[i as int]@);
                assert(all.take(i + 1) =~= all.take(i as int).push(all[i as int]));
                assert(views(out@) =~= head + all.take(i + 1));
            }
            i = i + 1;
        }
        proof {
            assert(all.take(i as int) =~= all);
        }
        if files.len() > 20 {
            let rest = text::size(files.len() - 20);
            text::say3(out, "  ... and ", rest.as_str(), " more");
        }
    }
    proof {
        assert(views(out@) =~= start + file_lines(label@, views(files@)));
    }
}

/// What is printed of the files that the calls of a session were given: those that were read,
/// edited and written, in order and each once.
pub fn show_files_touched(entries: &Vec<LogEntry>) -> (r: Vec<String>)
    ensures
        views(r@) == touched_lines(
            name_set(files_touched(entries@, "Read"@)),
            name_set(files_touched(entries@, "Edit"@)),
            name_set(files_touched(entries@, "Write"@)),
        ),
{
    let read = collect_files(entries, "Read");
    let edited = collect_files(entries, "Edit");
    let written = collect_files(entries, "Write");
    let mut out: Vec<String> = Vec::new();
    proof {
        assert(views(out@) =~= Seq::empty());
    }
    if read.len() == 0 && edited.len() == 0 && written.len() == 0 {
        text::say(&mut out, "No file operations detected.");
    } else {
        say_files(&mut out, "Read", &read);
        say_files(&mut out, "Modified", &edited);
        say_files(&mut out, "Created", &written);
    }
    proof {
        assert(views(out@) =~= touched_lines(views(read@), views(edited@), views(written@)));
    }
    out
}

// ---------------------------------------------------------------------------
// What else is shown of a session
// ---------------------------------------------------------------------------

/// An entry, as it is listed.
#[derive(Debug, Clone, PartialEq, Eq)]
pub struct RawEntry {
    /// Its type.
    pub message_type: String,
    /// Its id.
    pub uuid: Option<String>,
    /// All of it, as JSON.
    pub json: String,
}

/// The line of an entry.
pub open spec fn raw_line(i: int, e: RawEntry) -> Seq<char> {
    "["@ + decimal(i as nat) + "] "@ + e.message_type@ + ": "@ + (match e.uuid {
        Some(u) => u@,
        None => "no-uuid"@,
    })
}

/// The list of all entries.
pub open spec fn raw_lines(entries: Seq<RawEntry>) -> Seq<Seq<char>> {
    seq![""@, "Raw Entries:"@, "------------"@] + spread_numbered(
        entries,
        |i: int, e: RawEntry| seq![raw_line(i, e)],
    )
}

/// The list of all entries.
pub fn show_raw(entries: &Vec<RawEntry>) -> (r: Vec<String>)
    ensures
        views(r@) == raw_lines(entries@),
{
    let mut out: Vec<String> = Vec::new();
    text::say(&mut out, "");
    text::say(&mut out, "Raw Entries:");
    text::say(&mut out, "------------");
    let ghost g = |i: int, e: RawEntry| seq![raw_line(i, e)];
    let write = |i: usize, e: &RawEntry| -> (o: Vec<String>)
        ensures
            views(o@) == seq![raw_line(i as int, *e)],
        {
            let mut line: Vec<String> = Vec::new();
            let place = text::size(i);
            let id: &str = match &e.uuid {
                Some(u) => u.as_str(),
                None => "no-uuid",
            };
            let head = text::cat4("[", place.as_str(), "] ", e.message_type.as_str());
            text::say3(&mut line, head.as_str(), ": ", id);
            proof {
                assert(views(line@) =~= seq![raw_line(i as int, *e)]);
            }
            line
        };
    proof {
        assert(views(out@) =~= seq![""@, "Raw Entries:"@, "------------"@]);
    }
    text::say_numbered(&mut out, entries, write, Ghost(g));
    out
}

/// The first entry whose id begins with a text.
pub open spec fn is_first_entry(entries: Seq<RawEntry>, uuid: Seq<char>, k: int) -> bool {
    &&& 0 <= k < entries.len()
    &&& id_begins(entries[k].uuid, uuid)
    &&& forall|j: int| 0 <= j < k ==> !id_begins((#[trigger] entries[j]).uuid, uuid)
}

/// What is printed of an entry.
pub open spec fn entry_lines(e: RawEntry) -> Seq<Seq<char>> {
    seq![
        "Entry: "@ + (match e.uuid {
            Some(u) => u@,
            None => "unknown"@,
        }),
        "Type: "@ + e.message_type@,
        ""@,
        e.json@,
    ]
}

/// The first entry whose id begins with a text, or that there is none.
pub fn show_entry(entries: &Vec<RawEntry>, uuid: &str) -> (r: Vec<String>)
    ensures
        (exists|k: int| #[trigger]
            is_first_entry(entries@, uuid@, k) && views(r@) == entry_lines(entries@[k])) || ((
        forall|j: int|
            0 <= j < entries@.len() ==> !id_begins((#[trigger] entries@[j]).uuid, uuid@))
            && views(r@) == seq!["Entry not found: "@ + uuid@]),
{
    let mut out: Vec<String> = Vec::new();
    let mut k: usize = 0;
    while k < entries.len()
        invariant
            k <= entries@.len(),
            out@.len() == 0,
            forall|j: int| 0 <= j < k ==> !id_begins((#[trigger] entries@[j]).uuid, uuid@),
        decreases entries@.len() - k,
    {
        let e = &entries[k];
        match &e.uuid {
            Some(u) => if text::starts_with(u.as_str(), uuid) {
                text::say2(&mut out, "Entry: ", u.as_str());
                text::say2(&mut out, "Type: ", e.message_type.as_str());
                text::say(&mut out, "");
                text::say(&mut out, e.json.as_str());
                proof {
                    assert(views(out@) =~= entry_lines(*e));
                    assert(is_first_entry(entries@, uuid@, k as int));
                }
                return out;
            },
            None => {},
        }
        k = k + 1;
    }
    text::say2(&mut out, "Entry not found: ", uuid);
    proof {
        assert(views(out@) =~= seq!["Entry not found: "@ + uuid@]);
    }
    out
}

/// A preview of the first messages, under its heading.
pub fn preview_section(messages: &Vec<PreviewMessage>, n: usize) -> (r: Vec<String>)
    requires
        previews_can_be_cut(messages@, n),
    ensures
        views(r@) == seq![
            ""@,
            "Message Preview (first "@ + decimal(n as nat) + " messages):"@,
            "-------------------------------"@,
        ] + preview_output(messages@, n),
{
    let mut out: Vec<String> = Vec::new();
    let digits = text::size(n);
    text::say(&mut out, "");
    text::say3(&mut out, "Message Preview (first ", digits.as_str(), " messages):");
    text::say(&mut out, "-------------------------------");
    proof {
        assert(views(out@) =~= seq![
            ""@,
            "Message Preview (first "@ + decimal(n as nat) + " messages):"@,
            "-------------------------------"@,
        ]);
    }
    let more = show_message_preview(messages, n);
    text::say_more(&mut out, more);
    out
}

/// The files that were touched, under their heading.
pub fn files_section(entries: &Vec<LogEntry>) -> (r: Vec<String>)
    ensures
        views(r@) == seq![""@, "Files Touched:"@, "--------------"@] + touched_lines(
            name_set(files_touched(entries@, "Read"@)),
            name_set(files_touched(entries@, "Edit"@)),
            name_set(files_touched(entries@, "Write"@)),
        ),
{
    let mut out: Vec<String> = Vec::new();
    text::say(&mut out, "");
    text::say(&mut out, "Files Touched:");
    text::say(&mut out, "--------------");
    proof {
        assert(views(out@) =~= seq![""@, "Files Touched:"@, "--------------"@]);
    }
    let more = show_files_touched(entries);
    text::say_more(&mut out, more);
    out
}

// ---------------------------------------------------------------------------
// A project
// ---------------------------------------------------------------------------

/// A session of a project, as it is listed.
#[derive(Debug, Clone, PartialEq, Eq)]
pub struct ProjectSessionLine {
    /// Its id.
    pub session_id: String,
    /// Whether another session spawned it.
    pub is_subagent: bool,
    /// The size of its file.
    pub file_size: u64,
    /// The size of its file, as it is shown.
    pub size_shown: String,
}

/// A project and its sessions.
#[derive(Debug, Clone, PartialEq, Eq)]
pub struct ProjectSummary {
    /// Its path.
    pub path: String,
    /// The name of its directory.
    pub encoded_name: String,
    /// The path of its directory.
    pub directory: String,
    /// Its sessions.
    pub sessions: Vec<ProjectSessionLine>,
    /// The size of all its sessions, as it is shown.
    pub size_shown: String,
}

/// The numbers of a project.
#[derive(Debug, Clone, Copy, PartialEq, Eq)]
pub struct ProjectCounts {
    /// Its sessions.
    pub sessions: usize,
    /// Those that no other session spawned.
    pub main: usize,
    /// Those that another session spawned.
    pub subagents: usize,
    /// The size of all its sessions.
    pub total_size: u64,
}

/// The number of sessions that another spawned.
pub open spec fn spawned_in(sessions: Seq<ProjectSessionLine>) -> int
    decreases sessions.len(),
{
    if sessions.len() == 0 {
        0
    } else {
        spawned_in(sessions.drop_last()) + (if sessions.last().is_subagent {
            1int
        } else {
            0
        })
    }
}

/// The size of all sessions.
pub open spec fn size_of_all(sessions: Seq<ProjectSessionLine>) -> int
    decreases sessions.len(),
{
    if sessions.len() == 0 {
        0
    } else {
        size_of_all(sessions.drop_last()) + sessions.last().file_size
    }
}

proof fn lemma_sizes_grow(sessions: Seq<ProjectSessionLine>, k: int)
    requires
        0 <= k <= sessions.len(),
    ensures
        0 <= size_of_all(sessions.take(k)) <= size_of_all(sessions),
    decreases sessions.len(),
{
    if k < sessions.len() {
        lemma_sizes_grow(sessions.drop_last(), k);
        assert(sessions.drop_last().take(k) =~= sessions.take(k));
    } else {
        assert(sessions.take(k) =~= sessions);
        if k > 0 {
            lemma_sizes_grow(sessions.drop_last(), k - 1);
            assert(sessions.drop_last().take(k - 1) =~= sessions.drop_last());
        }
    }
}

/// The numbers of a project.
pub fn count_project(sessions: &Vec<ProjectSessionLine>) -> (r: ProjectCounts)
    requires
        size_of_all(sessions@) <= u64::MAX,
    ensures
        r.sessions == sessions@.len(),
        r.subagents == spawned_in(sessions@),
        r.main + r.subagents == r.sessions,
        r.total_size == size_of_all(sessions@),
{
    let mut main: usize = 0;
    let mut subagents: usize = 0;
    let mut total_size: u64 = 0;
    let mut i: usize = 0;
    proof {
        assert(sessions@.take(0) =~= Seq::empty());
    }
    while i < sessions.len()
        invariant
            i <= sessions@.len(),
            size_of_all(sessions@) <= u64::MAX,
            main + subagents == i,
            subagents == spawned_in(sessions@.take(i as int)),
            total_size == size_of_all(sessions@.take(i as int)),
        decreases sessions@.len() - i,
    {
        proof {
            let next = sessions@.take(i + 1);
            assert(next.drop_last() =~= sessions@.take(i as int));
            assert(next.last() == sessions@[i as int]);
            lemma_sizes_grow(sessions@, i + 1);
        }
        if sessions[i].is_subagent {
            subagents = subagents + 1;
        } else {
            main = main + 1;
        }
        total_size = total_size + sessions[i].file_size;
        i = i + 1;
    }
    proof {
        assert(sessions@.take(i as int) =~= sessions@);
    }
    ProjectCounts { sessions: sessions.len(), main, subagents, total_size }
}

/// The line of a session of a project.
pub open spec fn listed_line(s: ProjectSessionLine) -> Seq<char> {
    "  "@ + id_head(s.session_id@) + (if s.is_subagent {
        " [subagent]"@
    } else {
        ""@
    }) + " ("@ + s.size_shown@ + ")"@
}

/// What is printed of a project; for JSON there is a value instead.
pub open spec fn project_output(
    p: ProjectSummary,
    c: ProjectCounts,
    paths: bool,
    format: OutputFormat,
) -> Seq<Seq<char>> {
    match format {
        OutputFormat::Json => Seq::empty(),
        OutputFormat::Tsv => seq![
            "field\tvalue"@,
            "path\t"@ + p.path@,
            "sessions\t"@ + decimal(c.sessions as nat),
            "size\t"@ + decimal(c.total_size as nat),
        ],
        OutputFormat::Compact => seq![
            p.path@ + ":"@ + decimal(c.sessions as nat) + ":"@ + p.size_shown@,
        ],
        OutputFormat::Text => seq![
            "Project Information"@,
            "==================="@,
            ""@,
            "Path:           "@ + p.path@,
            "Encoded:        "@ + p.encoded_name@,
            ""@,
            "Sessions:       "@ + decimal(c.sessions as nat),
            "  Main:         "@ + decimal(c.main as nat),
            "  Subagents:    "@ + decimal(c.subagents as nat),
            ""@,
            "Total Size:     "@ + p.size_shown@,
        ] + (if paths {
            seq![""@, "Directory:      "@ + p.directory@]
        } else {
            Seq::empty()
        }) + seq![""@, "Sessions:"@] + p.sessions@.map_values(
            |s: ProjectSessionLine| listed_line(s),
        ),
    }
}

fn write_listed(s: &ProjectSessionLine) -> (r: String)
    requires
        has_short_id(s.session_id@),
    ensures
        r@ == listed_line(*s),
{
    let id = helpers::short_id(s.session_id.as_str());
    let spawned: String = if s.is_subagent {
        " [subagent]".to_owned()
    } else {
        "".to_owned()
    };
    let head = text::cat3("  ", id.as_str(), spawned.as_str());
    text::cat4(head.as_str(), " (", s.size_shown.as_str(), ")")
}

/// What is printed of a project; for JSON see [`project_json`].
pub fn show_project_info(p: &ProjectSummary, c: &ProjectCounts, paths: bool, format: OutputFormat) -> (
r: Vec<String>)
    requires
        format is Text ==> forall|i: int|
            0 <= i < p.sessions@.len() ==> has_short_id((#[trigger] p.sessions@[i]).session_id@),
    ensures
        views(r@) == project_output(*p, *c, paths, format),
{
    let mut out: Vec<String> = Vec::new();
    proof {
        assert(views(out@) =~= Seq::empty());
    }
    match format {
        OutputFormat::Json => {},
        OutputFormat::Tsv => {
            let size = text::number(c.total_size);
            text::say(&mut out, "field\tvalue");
            text::say2(&mut out, "path\t", p.path.as_str());
            say_count(&mut out, "sessions\t", c.sessions);
            text::say2(&mut out, "size\t", size.as_str());
        },
        OutputFormat::Compact => {
            let sessions = text::size(c.sessions);
            text::say5(
                &mut out,
                p.path.as_str(),
                ":",
                sessions.as_str(),
                ":",
                p.size_shown.as_str(),
            );
        },
        OutputFormat::Text => {
            text::say(&mut out, "Project Information");
            text::say(&mut out, "===================");
            text::say(&mut out, "");
            text::say2(&mut out, "Path:           ", p.path.as_str());
            text::say2(&mut out, "Encoded:        ", p.encoded_name.as_str());
            text::say(&mut out, "");
            say_count(&mut out, "Sessions:       ", c.sessions);
            say_count(&mut out, "  Main:         ", c.main);
            say_count(&mut out, "  Subagents:    ", c.subagents);
            text::say(&mut out, "");
            text::say2(&mut out, "Total Size:     ", p.size_shown.as_str());
            if paths {
                text::say(&mut out, "");
                text::say2(&mut out, "Directory:      ", p.directory.as_str());
            }
            text::say(&mut out, "");
            text::say(&mut out, "Sessions:");
            text::say_each(
                &mut out,
                &p.sessions,
                write_listed,
                Ghost(|s: ProjectSessionLine| listed_line(s)),
            );
        },
    }
    proof {
        assert(views(out@) =~= project_output(*p, *c, paths, format));
    }
    out
}

// ---------------------------------------------------------------------------
// The session directory
// ---------------------------------------------------------------------------

/// The numbers and paths of the session directory.
#[derive(Debug, Clone, PartialEq, Eq)]
pub struct DirectorySummary {
    /// Its path.
    pub root: String,
    /// The number of projects.
    pub project_count: usize,
    /// The number of sessions.
    pub session_count: usize,
    /// The number of sessions that another spawned.
    pub subagent_count: usize,
    /// The size of all sessions.
    pub total_size: u64,
    /// The size of all sessions, as it is shown.
    pub size_shown: String,
    /// Whether earlier versions of files are kept.
    pub has_file_history: bool,
    /// The number of earlier versions.
    pub backup_file_count: usize,
    /// The directory of the projects.
    pub projects_dir: String,
    /// The directory of earlier versions.
    pub file_history_dir: String,
    /// The file of settings.
    pub settings_path: String,
    /// The file of instructions.
    pub claude_md_path: String,
    /// The file of servers.
    pub mcp_config_path: String,
}

/// What is printed of the session directory; for JSON there is a value instead.
pub open spec fn directory_output(
    d: DirectorySummary,
    paths: bool,
    format: OutputFormat,
    host: Host,
) -> Seq<Seq<char>> {
    match format {
        OutputFormat::Json => Seq::empty(),
        OutputFormat::Tsv => seq![
            "field\tvalue"@,
            "root\t"@ + d.root@,
            "projects\t"@ + decimal(d.project_count as nat),
            "sessions\t"@ + decimal(d.session_count as nat),
            "size\t"@ + decimal(d.total_size as nat),
        ],
        OutputFormat::Compact => seq![
            d.root@ + ":"@ + decimal(d.project_count as nat) + ":"@ + decimal(
                d.session_count as nat,
            ),
        ],
        OutputFormat::Text => seq![
            host.name@ + " Directory"@,
            "====================="@,
            ""@,
            "Root:           "@ + d.root@,
            ""@,
            "Projects:       "@ + decimal(d.project_count as nat),
            "Sessions:       "@ + decimal(d.session_count as nat),
            "Subagents:      "@ + decimal(d.subagent_count as nat),
            "Total Size:     "@ + d.size_shown@,
        ] + (if d.has_file_history {
            seq![
                ""@,
                "File History:   Yes ("@ + decimal(d.backup_file_count as nat) + " backups)"@,
            ]
        } else {
            Seq::empty()
        }) + (if paths {
            seq![
                ""@,
                "Paths:"@,
                "  Projects:     "@ + d.projects_dir@,
                "  File History: "@ + d.file_history_dir@,
                "  Settings:     "@ + d.settings_path@,
                "  "@ + host.instructions@ + ":    "@ + d.claude_md_path@,
                "  MCP Config:   "@ + d.mcp_config_path@,
            ]
        } else {
            Seq::empty()
        }),
    }
}

/// What is printed of the session directory; for JSON see [`directory_json`].
pub fn show_directory_info(
    d: &DirectorySummary,
    paths: bool,
    format: OutputFormat,
    host: &Host,
) -> (r: Vec<String>)
    ensures
        views(r@) == directory_output(*d, paths, format, *host),
{
    let mut out: Vec<String> = Vec::new();
    proof {
        assert(views(out@) =~= Seq::empty());
    }
    match format {
        OutputFormat::Json => {},
        OutputFormat::Tsv => {
            let size = text::number(d.total_size);
            text::say(&mut out, "field\tvalue");
            text::say2(&mut out, "root\t", d.root.as_str());
            say_count(&mut out, "projects\t", d.project_count);
            say_count(&mut out, "sessions\t", d.session_count);
            text::say2(&mut out, "size\t", size.as_str());
        },
        OutputFormat::Compact => {
            let projects = text::size(d.project_count);
            let sessions = text::size(d.session_count);
            text::say5(
                &mut out,
                d.root.as_str(),
                ":",
                projects.as_str(),
                ":",
                sessions.as_str(),
            );
        },
        OutputFormat::Text => {
            text::say2(&mut out, host.name.as_str(), " Directory");
            text::say(&mut out, "=====================");
            text::say(&mut out, "");
            text::say2(&mut out, "Root:           ", d.root.as_str());
            text::say(&mut out, "");
            say_count(&mut out, "Projects:       ", d.project_count);
            say_count(&mut out, "Sessions:       ", d.session_count);
            say_count(&mut out, "Subagents:      ", d.subagent_count);
            text::say2(&mut out, "Total Size:     ", d.size_shown.as_str());
            if d.has_file_history {
                let backups = text::size(d.backup_file_count);
                text::say(&mut out, "");
                text::say3(&mut out, "File History:   Yes (", backups.as_str(), " backups)");
            }
            if paths {
                text::say(&mut out, "");
                text::say(&mut out, "Paths:");
                text::say2(&mut out, "  Projects:     ", d.projects_dir.as_str());
                text::say2(&mut out, "  File History: ", d.file_history_dir.as_str());
                text::say2(&mut out, "  Settings:     ", d.settings_path.as_str());
                text::say4(
                    &mut out,
                    "  ",
                    host.instructions.as_str(),
                    ":    ",
                    d.claude_md_path.as_str(),
                );
                text::say2(&mut out, "  MCP Config:   ", d.mcp_config_path.as_str());
            }
        },
    }
    proof {
        assert(views(out@) =~= directory_output(*d, paths, format, *host));
    }
    out
}

// ---------------------------------------------------------------------------
// The same as values
// ---------------------------------------------------------------------------

/// What the messages of a session say of it.
#[derive(Debug, Clone, PartialEq, Eq)]
pub struct SessionNumbers {
    /// The number of messages of the user.
    pub user_messages: Option<u64>,
    /// The number of messages of the assistant.
    pub assistant_messages: Option<u64>,
    /// The model that wrote most.
    pub primary_model: Option<String>,
    /// The tools that were called, and how often.
    pub tools_summary: Option<Vec<(String, u64)>>,
    /// The cost, as a number is written.
    pub estimated_cost: Option<String>,
    /// The number of tokens that went in.
    pub input_tokens: Option<u64>,
    /// The number of tokens that came out.
    pub output_tokens: Option<u64>,
    /// The files that were changed.
    pub files_modified: Option<Vec<String>>,
    /// The files that were made.
    pub files_created: Option<Vec<String>>,
    /// The number of lines that were added.
    pub lines_added: Option<u64>,
    /// The number of lines that were removed.
    pub lines_removed: Option<u64>,
}

/// What counting the messages of a session finds.
#[derive(Debug, Clone, PartialEq, Eq)]
pub struct SessionAnalysis {
    /// The number of messages of the user.
    pub user_messages: u64,
    /// The number of messages of the assistant.
    pub assistant_messages: u64,
    /// The model that wrote most.
    pub primary_model: Option<String>,
    /// The tools that were called, and how often.
    pub tool_counts: Vec<(String, u64)>,
    /// The cost, as a number is written.
    pub estimated_cost: Option<String>,
    /// The number of tokens that went in.
    pub input_tokens: u64,
    /// The number of tokens that were read from the cache.
    pub cache_read_tokens: Option<u64>,
    /// The number of tokens that came out.
    pub output_tokens: u64,
    /// The files that were changed.
    pub files: Vec<String>,
    /// The number of lines that were added.
    pub lines_added: u64,
    /// The number of lines that were removed.
    pub lines_removed: u64,
}

/// The number of tokens that were given, read from the cache or not.
pub open spec fn given_tokens(a: SessionAnalysis) -> int {
    a.input_tokens + (match a.cache_read_tokens {
        Some(n) => n as int,
        None => 0,
    })
}

/// What the messages of a session say of it: what counting them finds. A list that is empty is
/// left out, and of no file it is known that it was made. Of a session that cannot be read
/// nothing is known.
pub fn session_numbers(analysis: Option<SessionAnalysis>) -> (r: SessionNumbers)
    requires
        analysis matches Some(a) ==> given_tokens(a) <= u64::MAX,
    ensures
        match analysis {
            Some(a) => {
                &&& r.user_messages == Some(a.user_messages)
                &&& r.assistant_messages == Some(a.assistant_messages)
                &&& r.primary_model == a.primary_model
                &&& r.tools_summary == (if a.tool_counts@.len() == 0 {
                    None
                } else {
                    Some(a.tool_counts)
                })
                &&& r.estimated_cost == a.estimated_cost
                &&& r.input_tokens is Some
                &&& r.input_tokens->0 == given_tokens(a)
                &&& r.output_tokens == Some(a.output_tokens)
                &&& r.files_modified == (if a.files@.len() == 0 {
                    None
                } else {
                    Some(a.files)
                })
                &&& r.files_created is None
                &&& r.lines_added == Some(a.lines_added)
                &&& r.lines_removed == Some(a.lines_removed)
            },
            None => {
                &&& r.user_messages is None
                &&& r.assistant_messages is None
                &&& r.primary_model is None
                &&& r.tools_summary is None
                &&& r.estimated_cost is None
                &&& r.input_tokens is None
                &&& r.output_tokens is None
                &&& r.files_modified is None
                &&& r.files_created is None
                &&& r.lines_added is None
                &&& r.lines_removed is None
            },
        },
{
    match analysis {
        Some(a) => {
            let cached: u64 = match a.cache_read_tokens {
                Some(n) => n,
                None => 0,
            };
            SessionNumbers {
                user_messages: Some(a.user_messages),
                assistant_messages: Some(a.assistant_messages),
                primary_model: a.primary_model,
                tools_summary: if a.tool_counts.len() == 0 {
                    None
                } else {
                    Some(a.tool_counts)
                },
                estimated_cost: a.estimated_cost,
                input_tokens: Some(a.input_tokens + cached),
                output_tokens: Some(a.output_tokens),
                files_modified: if a.files.len() == 0 {
                    None
                } else {
                    Some(a.files)
                },
                files_created: None,
                lines_added: Some(a.lines_added),
                lines_removed: Some(a.lines_removed),
            }
        },
        None => SessionNumbers {
            user_messages: None,
            assistant_messages: None,
            primary_model: None,
            tools_summary: None,
            estimated_cost: None,
            input_tokens: None,
            output_tokens: None,
            files_modified: None,
            files_created: None,
            lines_added: None,
            lines_removed: None,
        },
    }
}

/// Tools and numbers as a value.
pub open spec fn tools_fields(tools: Seq<(String, u64)>) -> Seq<(Seq<char>, JsonView)> {
    tools.map_values(|t: (String, u64)| (t.0@, number_json(t.1 as nat)))
}

/// The fields of what the messages of a session say of it; what is not known is left out.
pub open spec fn numbers_fields(n: SessionNumbers) -> Seq<(Seq<char>, JsonView)> {
    given_number("user_messages"@, n.user_messages) + given_number(
        "assistant_messages"@,
        n.assistant_messages,
    ) + given_text("primary_model"@, n.primary_model) + (match n.tools_summary {
        Some(t) => seq![("tools_summary"@, JsonView::Object(tools_fields(t@)))],
        None => Seq::empty(),
    }) + (match n.estimated_cost {
        Some(c) => seq![("estimated_cost"@, JsonView::Number(c@))],
        None => Seq::empty(),
    }) + given_number("input_tokens"@, n.input_tokens) + given_number(
        "output_tokens"@,
        n.output_tokens,
    ) + given_texts("files_modified"@, n.files_modified) + given_texts(
        "files_created"@,
        n.files_created,
    ) + given_number("lines_added"@, n.lines_added) + given_number(
        "lines_removed"@,
        n.lines_removed,
    )
}

/// The fields of what was written down about a session; what is empty is left out.
pub open spec fn meta_fields(meta: Option<SessionMeta>) -> Seq<(Seq<char>, JsonView)> {
    match meta {
        Some(m) => given_text("name"@, m.name) + (if m.tags@.len() > 0 {
            seq![("tags"@, texts_json(views(m.tags@)))]
        } else {
            Seq::empty()
        }) + (if m.bookmarked {
            seq![("bookmarked"@, JsonView::Bool(true))]
        } else {
            Seq::empty()
        }) + given_text("outcome"@, m.outcome),
        None => Seq::empty(),
    }
}

/// The fields of a session.
pub open spec fn session_fields(s: SessionSummary, n: SessionNumbers) -> Seq<
    (Seq<char>, JsonView),
> {
    seq![
        ("session_id"@, JsonView::Text(s.session_id@)),
        ("project_path"@, JsonView::Text(s.project_path@)),
        ("is_subagent"@, JsonView::Bool(s.is_subagent)),
    ] + given_text("parent_session_id"@, s.parent_session_id) + seq![
        ("file_size"@, number_json(s.file_size as nat)),
        ("file_size_human"@, JsonView::Text(s.file_size_human@)),
        ("entry_count"@, number_json(s.entry_count as nat)),
        ("message_count"@, number_json(s.message_count as nat)),
        ("compaction_count"@, number_json(s.compaction_count as nat)),
        ("start_time"@, time_json(s.started, false)),
        ("end_time"@, time_json(s.ended, false)),
        ("duration_human"@, optional_text(s.duration)),
        ("state"@, JsonView::Text(s.state@)),
        ("version"@, optional_text(s.version)),
        ("path"@, JsonView::Text(s.path@)),
    ] + meta_fields(s.meta) + numbers_fields(n)
}

fn put_tools(fields: &mut Vec<(String, Json)>, tools: &Option<Vec<(String, u64)>>)
    ensures
        fields_view(final(fields)@) == fields_view(old(fields)@) + (match *tools {
            Some(t) => seq![("tools_summary"@, JsonView::Object(tools_fields(t@)))],
            None => Seq::empty(),
        }),
{
    let ghost start = fields_view(fields@);
    match tools {
        Some(list) => {
            let mut inner: Vec<(String, Json)> = Vec::new();
            let mut i: usize = 0;
            proof {
                assert(fields_view(inner@) =~= tools_fields(list@).take(0));
            }
            while i < list.len()
                invariant
                    i <= list@.len(),
                    fields_view(inner@) == tools_fields(list@).take(i as int),
                decreases list@.len() - i,
            {
                json::put(&mut inner, list[i].0.as_str(), json::of_number(list[i].1));
                proof {
                    assert(tools_fields(list@).take(i + 1) =~= tools_fields(list@).take(
                        i as int,
                    ).push(tools_fields(list@)[i as int]));
                }
                i = i + 1;
            }
            proof {
                assert(tools_fields(list@).take(i as int) =~= tools_fields(list@));
            }
            json::put(fields, "tools_summary", Json::Object(inner));
        },
        None => {},
    }
    proof {
        assert(fields_view(fields@) =~= start + (match *tools {
            Some(t) => seq![("tools_summary"@, JsonView::Object(tools_fields(t@)))],
            None => Seq::empty(),
        }));
    }
}

fn put_cost(fields: &mut Vec<(String, Json)>, cost: &Option<String>)
    ensures
        fields_view(final(fields)@) == fields_view(old(fields)@) + (match *cost {
            Some(c) => seq![("estimated_cost"@, JsonView::Number(c@))],
            None => Seq::empty(),
        }),
{
    let ghost start = fields_view(fields@);
    match cost {
        Some(c) => json::put(fields, "estimated_cost", Json::Number(c.clone())),
        None => {},
    }
    proof {
        assert(fields_view(fields@) =~= start + (match *cost {
            Some(c) => seq![("estimated_cost"@, JsonView::Number(c@))],
            None => Seq::empty(),
        }));
    }
}

fn numbers_json(n: &SessionNumbers) -> (r: Vec<(String, Json)>)
    ensures
        fields_view(r@) == numbers_fields(*n),
{
    let mut fields: Vec<(String, Json)> = Vec::new();
    json::put_given_number(&mut fields, "user_messages", n.user_messages);
    proof {
        assert(fields_view(fields@) =~= given_number("user_messages"@, n.user_messages));
    }
    json::put_given_number(&mut fields, "assistant_messages", n.assistant_messages);
    json::put_given_text(&mut fields, "primary_model", &n.primary_model);
    put_tools(&mut fields, &n.tools_summary);
    put_cost(&mut fields, &n.estimated_cost);
    json::put_given_number(&mut fields, "input_tokens", n.input_tokens);
    json::put_given_number(&mut fields, "output_tokens", n.output_tokens);
    json::put_given_texts(&mut fields, "files_modified", &n.files_modified);
    json::put_given_texts(&mut fields, "files_created", &n.files_created);
    json::put_given_number(&mut fields, "lines_added", n.lines_added);
    json::put_given_number(&mut fields, "lines_removed", n.lines_removed);
    fields
}

fn put_meta(fields: &mut Vec<(String, Json)>, meta: &Option<SessionMeta>)
    ensures
        fields_view(final(fields)@) == fields_view(old(fields)@) + meta_fields(*meta),
{
    let ghost start = fields_view(fields@);
    match meta {
        Some(m) => {
            json::put_given_text(fields, "name", &m.name);
            if m.tags.len() > 0 {
                json::put(fields, "tags", json::of_texts(&m.tags));
            }
            if m.bookmarked {
                json::put(fields, "bookmarked", Json::Bool(true));
            }
            json::put_given_text(fields, "outcome", &m.outcome);
        },
        None => {},
    }
    proof {
        assert(fields_view(fields@) =~= start + meta_fields(*meta));
    }
}

/// A session as a value.
pub fn session_json(s: &SessionSummary, n: &SessionNumbers) -> (r: Json)
    ensures
        r@ == JsonView::Object(session_fields(*s, *n)),
{
    let mut fields: Vec<(String, Json)> = Vec::new();
    json::put(&mut fields, "session_id", json::of_text(s.session_id.as_str()));
    json::put(&mut fields, "project_path", json::of_text(s.project_path.as_str()));
    json::put(&mut fields, "is_subagent", Json::Bool(s.is_subagent));
    json::put_given_text(&mut fields, "parent_session_id", &s.parent_session_id);
    json::put(&mut fields, "file_size", json::of_number(s.file_size));
    json::put(&mut fields, "file_size_human", json::of_text(s.file_size_human.as_str()));
    json::put(&mut fields, "entry_count", json::of_size(s.entry_count));
    json::put(&mut fields, "message_count", json::of_size(s.message_count));
    json::put(&mut fields, "compaction_count", json::of_size(s.compaction_count));
    json::put(&mut fields, "start_time", json::of_time(s.started, false));
    json::put(&mut fields, "end_time", json::of_time(s.ended, false));
    json::put(&mut fields, "duration_human", json::of_option(&s.duration));
    json::put(&mut fields, "state", json::of_text(s.state.as_str()));
    json::put(&mut fields, "version", json::of_option(&s.version));
    json::put(&mut fields, "path", json::of_text(s.path.as_str()));
    put_meta(&mut fields, &s.meta);
    let numbers = numbers_json(n);
    json::put_all(&mut fields, numbers);
    proof {
        assert(fields_view(fields@) =~= session_fields(*s, *n));
    }
    Json::Object(fields)
}

/// A project as a value.
pub fn project_json(p: &ProjectSummary, c: &ProjectCounts) -> (r: Json)
    ensures
        r@ == JsonView::Object(
            seq![
                ("path"@, JsonView::Text(p.path@)),
                ("encoded_name"@, JsonView::Text(p.encoded_name@)),
                ("session_count"@, number_json(c.sessions as nat)),
                ("main_sessions"@, number_json(c.main as nat)),
                ("subagent_sessions"@, number_json(c.subagents as nat)),
                ("total_size"@, number_json(c.total_size as nat)),
                ("total_size_human"@, JsonView::Text(p.size_shown@)),
            ],
        ),
{
    let mut fields: Vec<(String, Json)> = Vec::new();
    json::put(&mut fields, "path", json::of_text(p.path.as_str()));
    json::put(&mut fields, "encoded_name", json::of_text(p.encoded_name.as_str()));
    json::put(&mut fields, "session_count", json::of_size(c.sessions));
    json::put(&mut fields, "main_sessions", json::of_size(c.main));
    json::put(&mut fields, "subagent_sessions", json::of_size(c.subagents));
    json::put(&mut fields, "total_size", json::of_number(c.total_size));
    json::put(&mut fields, "total_size_human", json::of_text(p.size_shown.as_str()));
    proof {
        assert(fields_view(fields@) =~= seq![
            ("path"@, JsonView::Text(p.path@)),
            ("encoded_name"@, JsonView::Text(p.encoded_name@)),
            ("session_count"@, number_json(c.sessions as nat)),
            ("main_sessions"@, number_json(c.main as nat)),
            ("subagent_sessions"@, number_json(c.subagents as nat)),
            ("total_size"@, number_json(c.total_size as nat)),
            ("total_size_human"@, JsonView::Text(p.size_shown@)),
        ]);
    }
    Json::Object(fields)
}

/// The session directory as a value.
pub fn directory_json(d: &DirectorySummary) -> (r: Json)
    ensures
        r@ == JsonView::Object(
            seq![
                ("root_path"@, JsonView::Text(d.root@)),
                ("project_count"@, number_json(d.project_count as nat)),
                ("session_count"@, number_json(d.session_count as nat)),
                ("subagent_count"@, number_json(d.subagent_count as nat)),
                ("total_size"@, number_json(d.total_size as nat)),
                ("total_size_human"@, JsonView::Text(d.size_shown@)),
                ("has_file_history"@, JsonView::Bool(d.has_file_history)),
                ("backup_file_count"@, number_json(d.backup_file_count as nat)),
            ],
        ),
{
    let mut fields: Vec<(String, Json)> = Vec::new();
    json::put(&mut fields, "root_path", json::of_text(d.root.as_str()));
    json::put(&mut fields, "project_count", json::of_size(d.project_count));
    json::put(&mut fields, "session_count", json::of_size(d.session_count));
    json::put(&mut fields, "subagent_count", json::of_size(d.subagent_count));
    json::put(&mut fields, "total_size", json::of_number(d.total_size));
    json::put(&mut fields, "total_size_human", json::of_text(d.size_shown.as_str()));
    json::put(&mut fields, "has_file_history", Json::Bool(d.has_file_history));
    json::put(&mut fields, "backup_file_count", json::of_size(d.backup_file_count));
    proof {
        assert(fields_view(fields@) =~= seq![
            ("root_path"@, JsonView::Text(d.root@)),
            ("project_count"@, number_json(d.project_count as nat)),
            ("session_count"@, number_json(d.session_count as nat)),
            ("subagent_count"@, number_json(d.subagent_count as nat)),
            ("total_size"@, number_json(d.total_size as nat)),
            ("total_size_human"@, JsonView::Text(d.size_shown@)),
            ("has_file_history"@, JsonView::Bool(d.has_file_history)),
            ("backup_file_count"@, number_json(d.backup_file_count as nat)),
        ]);
    }
    Json::Object(fields)
}

// ---------------------------------------------------------------------------
// What is counted and previewed
// ---------------------------------------------------------------------------

/// A further message is previewed if it is the user's, hands back no results of tools and has a text,
/// or if it is the assistant's and has any text; its parts then stand on lines of their own.
pub proof fn messages_with_texts_are_previewed(messages: Seq<PreviewMessage>, m: PreviewMessage)
    ensures
        all_previewed(Seq::empty()).len() == 0,
        match m {
            PreviewMessage::User { has_tool_results, text } => all_previewed(messages.push(m)) == (
            if !has_tool_results && text is Some {
                all_previewed(messages).push((true, text->0@))
            } else {
                all_previewed(messages)
            }),
            PreviewMessage::Assistant(parts) => all_previewed(messages.push(m)) == (if parts@.len()
                == 0 {
                all_previewed(messages)
            } else {
                all_previewed(messages).push((false, joined(views(parts@), "\n"@)))
            }),
            PreviewMessage::Other => all_previewed(messages.push(m)) == all_previewed(messages),
        },
{
    assert(messages.push(m).drop_last() =~= messages);
}

proof fn lemma_files_in(blocks: Seq<ContentBlock>, tool: Seq<char>, f: Seq<char>)
    ensures
        files_in(blocks, tool).contains(f) <==> exists|i: int|
            0 <= i < blocks.len() && names_file(#[trigger] blocks[i], tool, f),
    decreases blocks.len(),
{
    if blocks.len() > 0 {
        let front = blocks.drop_last();
        let (all, before) = (files_in(blocks, tool), files_in(front, tool));
        lemma_files_in(front, tool, f);
        assert(blocks[blocks.len() - 1] == blocks.last());
        if all.contains(f) {
            let k = choose|k: int| 0 <= k < all.len() && all[k] == f;
            if k < before.len() {
                assert(before[k] == f);
                assert(before.contains(f));
                let i = choose|i: int|
                    0 <= i < front.len() && names_file(#[trigger] front[i], tool, f);
                assert(names_file(blocks[i], tool, f));
            } else {
                assert(names_file(blocks[blocks.len() - 1], tool, f));
            }
        }
        if exists|i: int| 0 <= i < blocks.len() && names_file(#[trigger] blocks[i], tool, f) {
            let i = choose|i: int| 0 <= i < blocks.len() && names_file(#[trigger] blocks[i], tool, f);
            if i < front.len() {
                assert(names_file(front[i], tool, f));
                assert(before.contains(f));
                let k = choose|k: int| 0 <= k < before.len() && before[k] == f;
                assert(all[k] == f);
            } else {
                assert(all[all.len() - 1] == f);
            }
        }
    }
}

/// A part of a message calls the tool with this path of a file.
pub open spec fn names_file(block: ContentBlock, tool: Seq<char>, f: Seq<char>) -> bool {
    block matches ContentBlock::ToolUse(t) && t.name@ == tool && (t.input@
        matches JsonView::Object(fields) && json::text_of(field(fields, "file_path"@)) == Some(f))
}

/// A file was touched by a tool if and only if the assistant called the tool with its path.
pub proof fn touched_files_were_named(entries: Seq<LogEntry>, tool: Seq<char>, f: Seq<char>)
    ensures
        files_touched(entries, tool).contains(f) <==> exists|i: int, j: int|
            #![trigger entries[i]->Assistant_0.content@[j]]
            0 <= i < entries.len() && entries[i] is Assistant && 0 <= j
                < entries[i]->Assistant_0.content@.len() && names_file(
                entries[i]->Assistant_0.content@[j],
                tool,
                f,
            ),
    decreases entries.len(),
{
    if entries.len() > 0 {
        let front = entries.drop_last();
        let n = entries.len() - 1;
        let (all, before) = (files_touched(entries, tool), files_touched(front, tool));
        touched_files_were_named(front, tool, f);
        assert(entries[n] == entries.last());
        let added = match entries.last() {
            LogEntry::Assistant(a) => files_in(a.content@, tool),
            _ => Seq::empty(),
        };
        assert(all =~= before + added);
        if entries.last() is Assistant {
            lemma_files_in(entries[n]->Assistant_0.content@, tool, f);
        }
        if all.contains(f) {
            let k = choose|k: int| 0 <= k < all.len() && all[k] == f;
            if k < before.len() {
                assert(before[k] == f);
                assert(before.contains(f));
                let (i, j) = choose|i: int, j: int|
                    #![trigger front[i]->Assistant_0.content@[j]]
                    0 <= i < front.len() && front[i] is Assistant && 0 <= j
                        < front[i]->Assistant_0.content@.len() && names_file(
                        front[i]->Assistant_0.content@[j],
                        tool,
                        f,
                    );
                assert(front[i] == entries[i]);
                assert(names_file(entries[i]->Assistant_0.content@[j], tool, f));
            } else {
                assert(added[k - before.len()] == f);
                assert(added.contains(f));
                let j = choose|j: int|
                    0 <= j < entries[n]->Assistant_0.content@.len() && names_file(
                        #[trigger] entries[n]->Assistant_0.content@[j],
                        tool,
                        f,
                    );
                assert(names_file(entries[n]->Assistant_0.content@[j], tool, f));
            }
        }
        if exists|i: int, j: int|
            #![trigger entries[i]->Assistant_0.content@[j]]
            0 <= i < entries.len() && entries[i] is Assistant && 0 <= j
                < entries[i]->Assistant_0.content@.len() && names_file(
                entries[i]->Assistant_0.content@[j],
                tool,
                f,
            ) {
            let (i, j) = choose|i: int, j: int|
                #![trigger entries[i]->Assistant_0.content@[j]]
                0 <= i < entries.len() && entries[i] is Assistant && 0 <= j
                    < entries[i]->Assistant_0.content@.len() && names_file(
                    entries[i]->Assistant_0.content@[j],
                    tool,
                    f,
                );
            if i < n {
                assert(front[i] == entries[i]);
                assert(names_file(front[i]->Assistant_0.content@[j], tool, f));
                assert(before.contains(f));
                let k = choose|k: int| 0 <= k < before.len() && before[k] == f;
                assert(all[k] == f);
            } else {
                assert(names_file(entries[n]->Assistant_0.content@[j], tool, f));
                assert(added.contains(f));
                let k = choose|k: int| 0 <= k < added.len() && added[k] == f;
                assert(all[before.len() + k] == f);
            }
        }
    }
}

/// The spawned sessions of a project are counted each once.
pub proof fn spawned_sessions_are_counted(sessions: Seq<ProjectSessionLine>)
    ensures
        spawned_in(sessions) == sessions.filter(|s: ProjectSessionLine| s.is_subagent).len(),
    decreases sessions.len(),
{
    broadcast use Seq::lemma_filter_push;

    if sessions.len() > 0 {
        spawned_sessions_are_counted(sessions.drop_last());
        assert(sessions =~= sessions.drop_last().push(sessions.last()));
    }
}

/// The size of a project is that of its sessions together.
pub proof fn sizes_of_parts_add_up(a: Seq<ProjectSessionLine>, b: Seq<ProjectSessionLine>)
    ensures
        size_of_all(a + b) == size_of_all(a) + size_of_all(b),
        a.len() == 1 ==> size_of_all(a) == a[0].file_size,
        a.len() == 0 ==> size_of_all(a) == 0,
    decreases b.len(),
{
    if a.len() == 1 {
        assert(a.drop_last() =~= Seq::empty());
        assert(size_of_all(a.drop_last()) == 0);
    }
    if b.len() == 0 {
        assert(a + b =~= a);
    } else {
        sizes_of_parts_add_up(a, b.drop_last());
        assert((a + b).drop_last() =~= a + b.drop_last());
    }
}

// ---------------------------------------------------------------------------
// What calls hand back
// ---------------------------------------------------------------------------

/// The numbers of a session are those of its analysis: nothing is known without one, tokens read
/// from the cache count with those that went in, and empty lists are left out.
pub proof fn numbers_come_from_the_analysis(
    a: SessionAnalysis,
    r: SessionNumbers,
    unknown: SessionNumbers,
)
    ensures
        call_ensures(session_numbers, (Some(a),), r) ==> {
            &&& r.user_messages == Some(a.user_messages)
            &&& r.assistant_messages == Some(a.assistant_messages)
            &&& r.output_tokens == Some(a.output_tokens)
            &&& r.lines_added == Some(a.lines_added)
            &&& r.lines_removed == Some(a.lines_removed)
            &&& r.primary_model == a.primary_model
            &&& r.estimated_cost == a.estimated_cost
            &&& r.files_created is None
            &&& r.tools_summary is Some <==> a.tool_counts@.len() > 0
            &&& r.files_modified is Some <==> a.files@.len() > 0
            &&& r.tools_summary matches Some(t) ==> t@ == a.tool_counts@
            &&& r.files_modified matches Some(f) ==> f@ == a.files@
            &&& r.input_tokens matches Some(n) && n >= a.input_tokens
            &&& a.cache_read_tokens is None ==> r.input_tokens == Some(a.input_tokens)
            &&& a.cache_read_tokens matches Some(c) ==> r.input_tokens->0 - c == a.input_tokens
        },
        call_ensures(session_numbers, (None::<SessionAnalysis>,), unknown) ==> {
            &&& unknown.user_messages is None && unknown.assistant_messages is None
            &&& unknown.primary_model is None && unknown.tools_summary is None
            &&& unknown.estimated_cost is None && unknown.input_tokens is None
            &&& unknown.output_tokens is None && unknown.files_modified is None
            &&& unknown.lines_added is None && unknown.lines_removed is None
        },
{
}

/// A target is a session before it is a project, and a project before it is a part of paths; it
/// is refused by its own name if and only if it is none of these.
pub proof fn sessions_go_before_projects(
    target: Option<String>,
    is_session: bool,
    is_project: bool,
    matching_projects: usize,
    r: Result<InfoTarget, SnatchError>,
)
    ensures
        call_ensures(run, (&target, is_session, is_project, matching_projects), r) ==> {
            &&& (r matches Ok(t) && t is Directory) <==> target is None
            &&& (r matches Ok(t) && t is Session) <==> target is Some && is_session
            &&& (r matches Ok(t) && t is Project) <==> target is Some && !is_session && is_project
            &&& (r matches Ok(t) && t is FirstMatch) <==> target is Some && !is_session
                && !is_project && matching_projects > 0
            &&& r matches Err(e) ==> e@ == (ErrorView::SessionNotFound { session_id: target->0@ })
        },
{
}

} // verus!
