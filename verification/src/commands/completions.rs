//! Completions for a shell: sessions, projects, tools, formats and models.
use vstd::prelude::*;

use crate::commands::helpers::text_view;
use crate::host::{Host, Model};
use crate::model::{ContentBlock, LogEntry, Project, Session};
use crate::names;
use crate::names::{names_ascend, with_name};
use crate::order::first_of_list;
use crate::text;
use crate::text::{
    begins, byte_len, chars_within, decimal, has, lowercase, on_boundary, spread, views,
};

verus! {

/// What is completed.
#[derive(Debug, Clone, Copy, PartialEq, Eq, Structural)]
pub enum CompletionType {
    /// Session ids.
    Sessions,
    /// Paths of projects.
    Projects,
    /// Names of tools.
    Tools,
    /// Forms of output.
    Formats,
    /// Names of models.
    Models,
}

/// What a word in small letters stands for.
pub open spec fn type_of_lower(lower: Seq<char>) -> Option<CompletionType> {
    if lower == "sessions"@ || lower == "session"@ || lower == "s"@ {
        Some(CompletionType::Sessions)
    } else if lower == "projects"@ || lower == "project"@ || lower == "p"@ {
        Some(CompletionType::Projects)
    } else if lower == "tools"@ || lower == "tool"@ || lower == "t"@ {
        Some(CompletionType::Tools)
    } else if lower == "formats"@ || lower == "format"@ || lower == "f"@ {
        Some(CompletionType::Formats)
    } else if lower == "models"@ || lower == "model"@ || lower == "m"@ {
        Some(CompletionType::Models)
    } else {
        None
    }
}

impl CompletionType {
    /// What a word in small letters stands for.
    pub fn of_lower(lower: &str) -> (r: Option<CompletionType>)
        ensures
            r == type_of_lower(lower@),
    {
        if text::same(lower, "sessions") || text::same(lower, "session") || text::same(lower, "s") {
            Some(CompletionType::Sessions)
        } else if text::same(lower, "projects") || text::same(lower, "project") || text::same(
            lower,
            "p",
        ) {
            Some(CompletionType::Projects)
        } else if text::same(lower, "tools") || text::same(lower, "tool") || text::same(
            lower,
            "t",
        ) {
            Some(CompletionType::Tools)
        } else if text::same(lower, "formats") || text::same(lower, "format") || text::same(
            lower,
            "f",
        ) {
            Some(CompletionType::Formats)
        } else if text::same(lower, "models") || text::same(lower, "model") || text::same(
            lower,
            "m",
        ) {
            Some(CompletionType::Models)
        } else {
            None
        }
    }

    /// What a word stands for, whatever the case of its letters.
    pub fn parse_word(s: &str) -> (r: Result<CompletionType, String>)
        ensures
            match type_of_lower(lowercase(s@)) {
                Some(t) => r == Ok::<CompletionType, String>(t),
                None => r matches Err(e) && e@ == "unknown completion type: "@ + s@,
            },
    {
        let lower = text::to_lowercase(s);
        match CompletionType::of_lower(lower.as_str()) {
            Some(t) => Ok(t),
            None => Err(text::cat2("unknown completion type: ", s)),
        }
    }
}

impl std::str::FromStr for CompletionType {
    type Err = String;

    fn from_str(s: &str) -> (r: Result<CompletionType, String>)
        ensures
            match type_of_lower(lowercase(s@)) {
                Some(t) => r == Ok::<CompletionType, String>(t),
                None => r matches Err(e) && e@ == "unknown completion type: "@ + s@,
            },
    {
        CompletionType::parse_word(s)
    }
}

/// Arguments for completions.
#[derive(Debug, Clone, PartialEq, Eq)]
pub struct DynamicCompletionsArgs {
    /// What is completed.
    pub completion_type: CompletionType,
    /// What was typed so far.
    pub prefix: Option<String>,
    /// The most completions.
    pub limit: Option<usize>,
}

/// What completions are made from.
#[derive(Debug)]
pub enum CompletionSource {
    /// The sessions.
    Sessions(Vec<Session>),
    /// The projects, and the number of sessions of each.
    Projects(Vec<(Project, usize)>),
    /// The messages of the sessions.
    Entries(Vec<LogEntry>),
    /// Nothing.
    Nothing,
}

/// What completions are made from for what is completed.
pub open spec fn fits(t: CompletionType, source: CompletionSource) -> bool {
    match t {
        CompletionType::Sessions => source is Sessions,
        CompletionType::Projects => source is Projects,
        CompletionType::Tools => source is Entries,
        _ => true,
    }
}

/// The completions that are asked for.
pub open spec fn completions(
    args: DynamicCompletionsArgs,
    source: CompletionSource,
    host: Host,
) -> Seq<Seq<char>> {
    let prefix = text_view(args.prefix);
    match (args.completion_type, source) {
        (CompletionType::Sessions, CompletionSource::Sessions(s)) => session_lines(
            s@,
            prefix,
            limit_or(args.limit, 50),
        ),
        (CompletionType::Projects, CompletionSource::Projects(p)) => project_lines(
            p@,
            prefix,
            limit_or(args.limit, 50),
        ),
        (CompletionType::Tools, CompletionSource::Entries(e)) => tool_lines(
            e@,
            prefix,
            limit_or(args.limit, 100),
            host.name@,
        ),
        (CompletionType::Formats, _) => format_lines(prefix),
        (CompletionType::Models, _) => model_lines(host.models@, prefix),
        _ => Seq::empty(),
    }
}

/// The completions that are asked for, one on each line, with a description behind a tab.
pub fn run(args: &DynamicCompletionsArgs, source: &CompletionSource, host: &Host) -> (r: Vec<
    String,
>)
    requires
        fits(args.completion_type, *source),
        args.completion_type is Sessions ==> (source matches CompletionSource::Sessions(s)
            ==> sessions_can_be_shown(s@, text_view(args.prefix), limit_or(args.limit, 50))),
    ensures
        views(r@) == completions(*args, *source, *host),
{
    match args.completion_type {
        CompletionType::Sessions => match source {
            CompletionSource::Sessions(s) => complete_sessions(s, &args.prefix, args.limit),
            _ => Vec::new(),
        },
        CompletionType::Projects => match source {
            CompletionSource::Projects(p) => complete_projects(p, &args.prefix, args.limit),
            _ => Vec::new(),
        },
        CompletionType::Tools => match source {
            CompletionSource::Entries(e) => complete_tools(e, &args.prefix, args.limit, host),
            _ => Vec::new(),
        },
        CompletionType::Formats => complete_formats(&args.prefix),
        CompletionType::Models => complete_models(host, &args.prefix),
    }
}

/// The limit that is asked for, or the usual one.
pub open spec fn limit_or(limit: Option<usize>, usual: usize) -> usize {
    match limit {
        Some(n) => n,
        None => usual,
    }
}

fn usual_limit(limit: Option<usize>, usual: usize) -> (r: usize)
    ensures
        r == limit_or(limit, usual),
{
    match limit {
        Some(n) => n,
        None => usual,
    }
}

/// The most lines: as many as the limit, but never fewer than one.
pub open spec fn most_lines(limit: usize) -> int {
    if limit == 0 {
        1
    } else {
        limit as int
    }
}

/// The first lines: as many as the limit, but never fewer than one where there is one.
pub open spec fn at_least_one(lines: Seq<Seq<char>>, limit: usize) -> Seq<Seq<char>> {
    first_of_list(lines, most_lines(limit))
}

fn cut_lines(lines: Vec<String>, limit: usize) -> (r: Vec<String>)
    ensures
        views(r@) == at_least_one(views(lines@), limit),
{
    let mut lines = lines;
    let ghost all = views(lines@);
    let most: usize = if limit == 0 {
        1
    } else {
        limit
    };
    if most < lines.len() {
        lines.truncate(most);
    }
    proof {
        assert(views(lines@) =~= at_least_one(all, limit));
    }
    lines
}

// ---------------------------------------------------------------------------
// Sessions
// ---------------------------------------------------------------------------

/// A path can be cut for a description: it is short, or a character begins where it is cut.
pub open spec fn path_can_be_cut(path: Seq<char>) -> bool {
    byte_len(path) <= 30 || on_boundary(path, byte_len(path) - 27)
}

/// A path in a description: the last twenty-seven bytes of a long one.
pub open spec fn short_path(path: Seq<char>) -> Seq<char> {
    if byte_len(path) > 30 {
        "..."@ + path.skip(chars_within(path, byte_len(path) - 27))
    } else {
        path
    }
}

fn write_short_path(path: &str) -> (r: String)
    requires
        path_can_be_cut(path@),
    ensures
        r@ == short_path(path@),
{
    let length = text::bytes(path);
    if length > 30 {
        let (head, _used) = text::cut_bytes(path, length - 27);
        let chars = text::chars_of(path);
        let from: usize = head.as_str().unicode_len();
        let total: usize = chars.len();
        proof {
            text::lemma_within_fits(path@, byte_len(path@) - 27);
            assert(from == chars_within(path@, byte_len(path@) - 27));
        }
        let tail = text::text_of(&chars, from, total);
        proof {
            assert(tail@ =~= path@.skip(from as int));
        }
        text::cat2("...", tail.as_str())
    } else {
        path.to_owned()
    }
}

/// The completions of sessions: those whose id begins with what was typed.
pub open spec fn session_matches(sessions: Seq<Session>, prefix: Option<Seq<char>>) -> Seq<Seq<char>>
    decreases sessions.len(),
{
    if sessions.len() == 0 {
        Seq::empty()
    } else {
        let before = session_matches(sessions.drop_last(), prefix);
        let s = sessions.last();
        if prefix matches Some(p) ==> begins(s.session_id@, p) {
            before.push(s.session_id@ + "\t"@ + short_path(s.project_path@))
        } else {
            before
        }
    }
}

/// The completions of sessions.
pub open spec fn session_lines(sessions: Seq<Session>, prefix: Option<Seq<char>>, limit: usize) -> Seq<
    Seq<char>,
> {
    at_least_one(session_matches(sessions, prefix), limit)
}

/// The paths of the sessions that are shown can be cut.
pub open spec fn sessions_can_be_shown(
    sessions: Seq<Session>,
    prefix: Option<Seq<char>>,
    limit: usize,
) -> bool {
    forall|i: int|
        0 <= i < sessions.len() && (prefix matches Some(p) ==> begins(
            (#[trigger] sessions[i]).session_id@,
            p,
        )) && session_matches(sessions.take(i), prefix).len() < most_lines(limit)
            ==> path_can_be_cut(sessions[i].project_path@)
}

proof fn lemma_matches_grow(sessions: Seq<Session>, prefix: Option<Seq<char>>, k: int)
    requires
        0 <= k <= sessions.len(),
    ensures
        session_matches(sessions.take(k), prefix).is_prefix_of(session_matches(sessions, prefix)),
    decreases sessions.len() - k,
{
    if k < sessions.len() {
        lemma_matches_grow(sessions, prefix, k + 1);
        assert(sessions.take(k + 1).drop_last() =~= sessions.take(k));
    } else {
        assert(sessions.take(k) =~= sessions);
    }
}

/// The completions of sessions.
pub fn complete_sessions(sessions: &Vec<Session>, prefix: &Option<String>, limit: Option<usize>) -> (
r: Vec<String>)
    requires
        sessions_can_be_shown(sessions@, text_view(*prefix), limit_or(limit, 50)),
    ensures
        views(r@) == session_lines(sessions@, text_view(*prefix), limit_or(limit, 50)),
{
    let most: usize = match usual_limit(limit, 50) {
        0 => 1,
        n => n,
    };
    let mut out: Vec<String> = Vec::new();
    let mut i: usize = 0;
    proof {
        assert(sessions@.take(0) =~= Seq::empty());
        assert(views(out@) =~= Seq::empty());
    }
    while i < sessions.len() && out.len() < most
        invariant
            i <= sessions@.len(),
            most == most_lines(limit_or(limit, 50)),
            sessions_can_be_shown(sessions@, text_view(*prefix), limit_or(limit, 50)),
            out@.len() <= most,
            views(out@) == session_matches(sessions@.take(i as int), text_view(*prefix)),
        decreases sessions@.len() - i,
    {
        let s = &sessions[i];
        proof {
            let next = sessions@.take(i + 1);
            assert(next.drop_last() =~= sessions@.take(i as int));
            assert(next.last() == *s);
        }
        let wanted: bool = match prefix {
            Some(p) => text::starts_with(s.session_id.as_str(), p.as_str()),
            None => true,
        };
        if wanted {
            proof {
                assert(views(out@).len() == out@.len());
                assert(text_view(*prefix) matches Some(p) ==> begins(
                    sessions@[i as int].session_id@,
                    p,
                ));
            }
            let path = write_short_path(s.project_path.as_str());
            text::say3(&mut out, s.session_id.as_str(), "\t", path.as_str());
            proof {
                assert(views(out@).len() == out@.len());
            }
        }
        i = i + 1;
    }
    proof {
        lemma_matches_grow(sessions@, text_view(*prefix), i as int);
        assert(views(out@).len() == out@.len());
        if i == sessions@.len() {
            assert(sessions@.take(i as int) =~= sessions@);
        }
        assert(views(out@) =~= session_lines(sessions@, text_view(*prefix), limit_or(limit, 50)));
    }
    out
}

// ---------------------------------------------------------------------------
// Projects
// ---------------------------------------------------------------------------

/// The completions of projects: those whose path holds what was typed, whatever the case of the
/// letters.
pub open spec fn project_matches(projects: Seq<(Project, usize)>, prefix: Option<Seq<char>>) -> Seq<
    Seq<char>,
>
    decreases projects.len(),
{
    if projects.len() == 0 {
        Seq::empty()
    } else {
        let before = project_matches(projects.drop_last(), prefix);
        let p = projects.last();
        if prefix matches Some(t) ==> has(lowercase(p.0.decoded_path@), lowercase(t)) {
            before.push(p.0.decoded_path@ + "\t"@ + decimal(p.1 as nat) + " sessions"@)
        } else {
            before
        }
    }
}

/// The completions of projects.
pub open spec fn project_lines(
    projects: Seq<(Project, usize)>,
    prefix: Option<Seq<char>>,
    limit: usize,
) -> Seq<Seq<char>> {
    at_least_one(project_matches(projects, prefix), limit)
}

/// The completions of projects.
pub fn complete_projects(
    projects: &Vec<(Project, usize)>,
    prefix: &Option<String>,
    limit: Option<usize>,
) -> (r: Vec<String>)
    ensures
        views(r@) == project_lines(projects@, text_view(*prefix), limit_or(limit, 50)),
{
    let mut out: Vec<String> = Vec::new();
    let mut i: usize = 0;
    proof {
        assert(projects@.take(0) =~= Seq::empty());
        assert(views(out@) =~= Seq::empty());
    }
    while i < projects.len()
        invariant
            i <= projects@.len(),
            views(out@) == project_matches(projects@.take(i as int), text_view(*prefix)),
        decreases projects@.len() - i,
    {
        let p = &projects[i];
        proof {
            let next = projects@.take(i + 1);
            assert(next.drop_last() =~= projects@.take(i as int));
            assert(next.last() == *p);
        }
        let wanted: bool = match prefix {
            Some(t) => {
                let needle = text::to_lowercase(t.as_str());
                let lower = text::to_lowercase(p.0.decoded_path.as_str());
                text::contains(lower.as_str(), needle.as_str())
            },
            None => true,
        };
        if wanted {
            let count = text::size(p.1);
            text::say4(
                &mut out,
                p.0.decoded_path.as_str(),
                "\t",
                count.as_str(),
                " sessions",
            );
        }
        i = i + 1;
    }
    proof {
        assert(projects@.take(i as int) =~= projects@);
    }
    cut_lines(out, usual_limit(limit, 50))
}

// ---------------------------------------------------------------------------
// Tools
// ---------------------------------------------------------------------------

/// The name of a tool begins with what was typed, whatever the case of the letters.
pub open spec fn tool_matches(name: Seq<char>, prefix: Option<Seq<char>>) -> bool {
    prefix matches Some(p) ==> begins(lowercase(name), lowercase(p))
}

/// The tools that some parts of a message call, as far as they match.
pub open spec fn tools_in(blocks: Seq<ContentBlock>, prefix: Option<Seq<char>>) -> Seq<Seq<char>>
    decreases blocks.len(),
{
    if blocks.len() == 0 {
        Seq::empty()
    } else {
        let before = tools_in(blocks.drop_last(), prefix);
        match blocks.last() {
            ContentBlock::ToolUse(t) => if tool_matches(t.name@, prefix) {
                before.push(t.name@)
            } else {
                before
            },
            _ => before,
        }
    }
}

/// The tools that some messages call, as far as they match, in the order of the calls.
pub open spec fn tools_called(entries: Seq<LogEntry>, prefix: Option<Seq<char>>) -> Seq<Seq<char>>
    decreases entries.len(),
{
    if entries.len() == 0 {
        Seq::empty()
    } else {
        let before = tools_called(entries.drop_last(), prefix);
        match entries.last() {
            LogEntry::Assistant(a) => before + tools_in(a.content@, prefix),
            _ => before,
        }
    }
}

/// The set of the first names, each once and in order, until there are as many as the limit; but
/// never none where there is a name.
pub open spec fn set_until(names: Seq<Seq<char>>, limit: usize) -> Seq<Seq<char>>
    decreases names.len(),
{
    if names.len() == 0 {
        Seq::empty()
    } else {
        let before = set_until(names.drop_last(), limit);
        if before.len() > 0 && before.len() >= limit {
            before
        } else {
            with_name(before, names.last())
        }
    }
}

/// The completions of tools.
pub open spec fn tool_lines(
    entries: Seq<LogEntry>,
    prefix: Option<Seq<char>>,
    limit: usize,
    host: Seq<char>,
) -> Seq<Seq<char>> {
    set_until(tools_called(entries, prefix), limit).map_values(
        |t: Seq<char>| t + "\t"@ + host + " tool"@,
    )
}

fn matches_tool(name: &str, prefix: &Option<String>) -> (r: bool)
    ensures
        r == tool_matches(name@, text_view(*prefix)),
{
    match prefix {
        Some(p) => {
            let needle = text::to_lowercase(p.as_str());
            let lower = text::to_lowercase(name);
            text::starts_with(lower.as_str(), needle.as_str())
        },
        None => true,
    }
}

fn add_tools(
    set: &mut Vec<String>,
    blocks: &Vec<ContentBlock>,
    prefix: &Option<String>,
    limit: usize,
    Ghost(seen): Ghost<Seq<Seq<char>>>,
)
    requires
        views(old(set)@) == set_until(seen, limit),
    ensures
        views(final(set)@) == set_until(seen + tools_in(blocks@, text_view(*prefix)), limit),
{
    let mut i: usize = 0;
    proof {
        assert(blocks@.take(0) =~= Seq::empty());
        assert(seen + Seq::<Seq<char>>::empty() =~= seen);
    }
    while i < blocks.len()
        invariant
            i <= blocks@.len(),
            views(set@) == set_until(
                seen + tools_in(blocks@.take(i as int), text_view(*prefix)),
                limit,
            ),
        decreases blocks@.len() - i,
    {
        proof {
            let next = blocks@.take(i + 1);
            assert(next.drop_last() =~= blocks@.take(i as int));
            assert(next.last() == blocks@[i as int]);
            assert(views(set@).len() == set@.len());
        }
        match &blocks[i] {
            ContentBlock::ToolUse(t) => {
                if matches_tool(t.name.as_str(), prefix) {
                    proof {
                        let before = seen + tools_in(blocks@.take(i as int), text_view(*prefix));
                        let after = seen + tools_in(blocks@.take(i + 1), text_view(*prefix));
                        assert(after =~= before.push(t.name@));
                        assert(after.drop_last() =~= before);
                    }
                    if set.len() == 0 || set.len() < limit {
                        names::insert_name(set, t.name.clone());
                    }
                }
            },
            _ => {},
        }
        i = i + 1;
    }
    proof {
        assert(blocks@.take(i as int) =~= blocks@);
    }
}

/// The completions of tools.
pub fn complete_tools(
    entries: &Vec<LogEntry>,
    prefix: &Option<String>,
    limit: Option<usize>,
    host: &Host,
) -> (r: Vec<String>)
    ensures
        views(r@) == tool_lines(entries@, text_view(*prefix), limit_or(limit, 100), host.name@),
{
    let most = usual_limit(limit, 100);
    let mut set: Vec<String> = Vec::new();
    let mut i: usize = 0;
    proof {
        assert(entries@.take(0) =~= Seq::empty());
        assert(views(set@) =~= Seq::empty());
    }
    while i < entries.len()
        invariant
            i <= entries@.len(),
            views(set@) == set_until(
                tools_called(entries@.take(i as int), text_view(*prefix)),
                most,
            ),
        decreases entries@.len() - i,
    {
        let ghost seen = tools_called(entries@.take(i as int), text_view(*prefix));
        proof {
            let next = entries@.take(i + 1);
            assert(next.drop_last() =~= entries@.take(i as int));
            assert(next.last() == entries@[i as int]);
        }
        match &entries[i] {
            LogEntry::Assistant(a) => add_tools(&mut set, &a.content, prefix, most, Ghost(seen)),
            _ => {},
        }
        i = i + 1;
    }
    proof {
        assert(entries@.take(i as int) =~= entries@);
    }
    let mut out: Vec<String> = Vec::new();
    let write = |t: &String| -> (o: String)
        ensures
            o@ == t@ + "\t"@ + host.name@ + " tool"@,
        { text::cat4(t.as_str(), "\t", host.name.as_str(), " tool") };
    let ghost g = |t: String| t@ + "\t"@ + host.name@ + " tool"@;
    text::say_each(&mut out, &set, write, Ghost(g));
    proof {
        assert(set@.map_values(g) =~= views(set@).map_values(
            |t: Seq<char>| t + "\t"@ + host.name@ + " tool"@,
        ));
        assert(views(out@) =~= tool_lines(entries@, text_view(*prefix), most, host.name@));
    }
    out
}

/// Completions of tools are in order and each there once, and none is there without a call.
pub proof fn tools_are_listed_once(calls: Seq<Seq<char>>, limit: usize)
    ensures
        names_ascend(set_until(calls, limit)),
        forall|t: Seq<char>| #[trigger] set_until(calls, limit).contains(t) ==> calls.contains(t),
    decreases calls.len(),
{
    if calls.len() > 0 {
        let front = calls.drop_last();
        tools_are_listed_once(front, limit);
        let before = set_until(front, limit);
        names::with_name_holds(before, calls.last());
        assert forall|t: Seq<char>| #[trigger]
            set_until(calls, limit).contains(t) implies calls.contains(t) by {
            if before.contains(t) {
                let k = choose|k: int| 0 <= k < front.len() && front[k] == t;
                assert(calls[k] == t);
            } else {
                assert(with_name(before, calls.last()).contains(t));
                assert(calls[calls.len() - 1] == t);
            }
        }
    }
}

// ---------------------------------------------------------------------------
// Formats and models
// ---------------------------------------------------------------------------

/// The forms of output.
pub open spec fn formats() -> Seq<(Seq<char>, Seq<char>)> {
    seq![
        ("json"@, "JSON format"@),
        ("text"@, "Plain text format"@),
        ("compact"@, "Compact format"@),
        ("tsv"@, "Tab-separated values"@),
    ]
}

/// The line of a word, where it fits.
pub open spec fn line_if(holds: bool, entry: (Seq<char>, Seq<char>)) -> Seq<Seq<char>> {
    if holds {
        seq![entry.0 + "\t"@ + entry.1]
    } else {
        Seq::empty()
    }
}

/// The form of output begins with what was typed.
pub open spec fn format_fits(word: Seq<char>, prefix: Option<Seq<char>>) -> bool {
    prefix matches Some(p) ==> begins(word, lowercase(p))
}

/// The name of the model holds what was typed.
pub open spec fn model_fits(word: Seq<char>, prefix: Option<Seq<char>>) -> bool {
    prefix matches Some(p) ==> has(lowercase(word), lowercase(p))
}

/// The completions of forms of output.
pub open spec fn format_lines(prefix: Option<Seq<char>>) -> Seq<Seq<char>> {
    line_if(format_fits(formats()[0].0, prefix), formats()[0]) + line_if(
        format_fits(formats()[1].0, prefix),
        formats()[1],
    ) + line_if(format_fits(formats()[2].0, prefix), formats()[2]) + line_if(
        format_fits(formats()[3].0, prefix),
        formats()[3],
    )
}

/// The completions of models.
pub open spec fn model_lines(models: Seq<Model>, prefix: Option<Seq<char>>) -> Seq<Seq<char>> {
    spread(models, |m: Model| line_if(model_fits(m.name@, prefix), (m.name@, m.what@)))
}

fn say_format(out: &mut Vec<String>, prefix: &Option<String>, word: &str, what: &str)
    ensures
        views(final(out)@) == views(old(out)@) + line_if(
            format_fits(word@, text_view(*prefix)),
            (word@, what@),
        ),
{
    let ghost start = views(out@);
    let wanted: bool = match prefix {
        Some(p) => {
            let lower = text::to_lowercase(p.as_str());
            text::starts_with(word, lower.as_str())
        },
        None => true,
    };
    if wanted {
        text::say3(out, word, "\t", what);
    }
    proof {
        assert(views(out@) =~= start + line_if(wanted, (word@, what@)));
    }
}

fn write_model(m: &Model, prefix: &Option<String>) -> (r: Vec<String>)
    ensures
        views(r@) == line_if(model_fits(m.name@, text_view(*prefix)), (m.name@, m.what@)),
{
    let mut out: Vec<String> = Vec::new();
    let wanted: bool = match prefix {
        Some(p) => {
            let needle = text::to_lowercase(p.as_str());
            let lower = text::to_lowercase(m.name.as_str());
            text::contains(lower.as_str(), needle.as_str())
        },
        None => true,
    };
    if wanted {
        text::say3(&mut out, m.name.as_str(), "\t", m.what.as_str());
    }
    proof {
        assert(views(out@) =~= line_if(wanted, (m.name@, m.what@)));
    }
    out
}

/// The completions of forms of output.
pub fn complete_formats(prefix: &Option<String>) -> (r: Vec<String>)
    ensures
        views(r@) == format_lines(text_view(*prefix)),
{
    let mut out: Vec<String> = Vec::new();
    say_format(&mut out, prefix, "json", "JSON format");
    proof {
        assert(views(out@) =~= line_if(
            format_fits(formats()[0].0, text_view(*prefix)),
            formats()[0],
        ));
    }
    say_format(&mut out, prefix, "text", "Plain text format");
    say_format(&mut out, prefix, "compact", "Compact format");
    say_format(&mut out, prefix, "tsv", "Tab-separated values");
    out
}

/// The completions of models: those whose name holds what was typed, whatever the case of the
/// letters.
pub fn complete_models(host: &Host, prefix: &Option<String>) -> (r: Vec<String>)
    ensures
        views(r@) == model_lines(host.models@, text_view(*prefix)),
{
    let mut out: Vec<String> = Vec::new();
    proof {
        assert(views(out@) =~= Seq::empty());
    }
    let write = |m: &Model| -> (o: Vec<String>)
        ensures
            views(o@) == line_if(model_fits(m.name@, text_view(*prefix)), (m.name@, m.what@)),
        { write_model(m, prefix) };
    let ghost g = |m: Model|
        line_if(model_fits(m.name@, text_view(*prefix)), (m.name@, m.what@));
    text::say_all(&mut out, &host.models, write, Ghost(g));
    out
}

// ---------------------------------------------------------------------------
// What is offered
// ---------------------------------------------------------------------------

/// A further session is offered if its id begins with what was typed, or if nothing was.
pub proof fn sessions_are_offered_by_id(
    sessions: Seq<Session>,
    s: Session,
    prefix: Option<Seq<char>>,
)
    ensures
        session_matches(sessions.push(s), prefix) == (if prefix is Some && !begins(
            s.session_id@,
            prefix->0,
        ) {
            session_matches(sessions, prefix)
        } else {
            session_matches(sessions, prefix).push(
                s.session_id@ + "\t"@ + short_path(s.project_path@),
            )
        }),
{
    assert(sessions.push(s).drop_last() =~= sessions);
}

/// A further project is offered, with the number of its sessions, if its path holds what was typed
/// without regard to case, or if nothing was typed.
pub proof fn projects_are_offered_by_path(
    projects: Seq<(Project, usize)>,
    p: (Project, usize),
    prefix: Option<Seq<char>>,
)
    ensures
        project_matches(projects.push(p), prefix) == (if prefix is Some && !(has(
            lowercase(p.0.decoded_path@),
            lowercase(prefix->0),
        )) {
            project_matches(projects, prefix)
        } else {
            project_matches(projects, prefix).push(
                p.0.decoded_path@ + "\t"@ + decimal(p.1 as nat) + " sessions"@,
            )
        }),
{
    assert(projects.push(p).drop_last() =~= projects);
}

/// A further call of a tool offers the tool if its name begins with what was typed without regard to
/// case, or if nothing was typed; nothing else of a message does.
pub proof fn tools_are_offered_by_name(
    blocks: Seq<ContentBlock>,
    b: ContentBlock,
    prefix: Option<Seq<char>>,
)
    ensures
        tools_in(Seq::empty(), prefix).len() == 0,
        tools_in(blocks.push(b), prefix) == (match b {
            ContentBlock::ToolUse(t) => if prefix is Some && !begins(
                lowercase(t.name@),
                lowercase(prefix->0),
            ) {
                tools_in(blocks, prefix)
            } else {
                tools_in(blocks, prefix).push(t.name@)
            },
            _ => tools_in(blocks, prefix),
        }),
{
    assert(blocks.push(b).drop_last() =~= blocks);
}

/// At most as many lines are offered as the limit says, and one even where it says none; they are the
/// first ones.
pub proof fn lines_keep_to_the_limit(lines: Seq<Seq<char>>, limit: usize)
    ensures
        limit > 0 ==> at_least_one(lines, limit).len() <= limit,
        limit == 0 ==> at_least_one(lines, limit).len() <= 1,
        at_least_one(lines, limit).len() == lines.len() || at_least_one(lines, limit).len() == limit
            || (limit == 0 && at_least_one(lines, limit).len() == 1),
        forall|i: int|
            0 <= i < at_least_one(lines, limit).len() ==> #[trigger] at_least_one(lines, limit)[i]
                == lines[i],
{
}

/// A path of more than thirty bytes is shown by its end behind three dots, and any other as it is.
pub proof fn long_paths_show_their_end(path: Seq<char>)
    ensures
        byte_len(path) <= 30 ==> short_path(path) == path,
        byte_len(path) > 30 ==> exists|k: int|
            0 <= k <= path.len() && short_path(path) == "..."@ + #[trigger] path.skip(k),
{
    if byte_len(path) > 30 {
        let n = byte_len(path) - 27;
        let k = chars_within(path, n);
        text::lemma_within_fits(path, n);
        assert(0 <= k <= path.len());
        assert(short_path(path) == "..."@ + path.skip(k));
    }
}

} // verus!
