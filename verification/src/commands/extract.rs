//! What the session directory holds besides sessions: settings, instructions, servers, commands,
//! rules and earlier versions of files.
use vstd::prelude::*;

use crate::commands::info::{given_line, say_given};
use crate::commands::list;
use crate::commands::list::{can_cut, cut_at};
use crate::commands::OutputFormat;
use crate::order::first_of_list;
use crate::host::Host;
use crate::text;
use crate::text::{decimal, lines_of, views};

verus! {

/// What is done with what was found.
#[derive(Debug, Clone, Copy, PartialEq, Eq)]
pub enum ExtractRoute {
    /// It is said that nothing was found.
    NoData,
    /// It is written as JSON.
    Json,
    /// It is printed.
    Text,
}

/// What is done with what was found. Where nothing was found and nothing is to be said, it is
/// written all the same.
pub fn run(has_data: bool, quiet: bool, format: OutputFormat) -> (r: ExtractRoute)
    ensures
        r == (if !has_data && !quiet {
            ExtractRoute::NoData
        } else if format is Json {
            ExtractRoute::Json
        } else {
            ExtractRoute::Text
        }),
{
    if !has_data && !quiet {
        ExtractRoute::NoData
    } else if matches!(format, OutputFormat::Json) {
        ExtractRoute::Json
    } else {
        ExtractRoute::Text
    }
}

/// What is said where nothing was found; none where it is not said.
pub fn nothing_extracted(route: ExtractRoute) -> (r: Option<String>)
    ensures
        match r {
            Some(line) => route is NoData && line@ == "No Beyond-JSONL data found."@,
            None => !(route is NoData),
        },
{
    if matches!(route, ExtractRoute::NoData) {
        Some("No Beyond-JSONL data found.".to_owned())
    } else {
        None
    }
}

/// Which sections are asked for.
#[derive(Debug, Clone, Copy, PartialEq, Eq)]
pub struct ExtractArgs {
    /// All.
    pub all: bool,
    /// Settings.
    pub settings: bool,
    /// Instructions.
    pub claude_md: bool,
    /// Servers.
    pub mcp: bool,
    /// Commands.
    pub commands: bool,
    /// Hooks.
    pub hooks: bool,
    /// Rules.
    pub rules: bool,
    /// Earlier versions of files.
    pub file_history: bool,
}

/// Settings.
#[derive(Debug, Clone, PartialEq, Eq)]
pub struct Settings {
    /// The model that is used where no other is asked for.
    pub default_model: Option<String>,
    /// The temperature, as it is shown.
    pub temperature: Option<String>,
    /// The address of the service.
    pub endpoint: Option<String>,
    /// Whether there are permissions.
    pub has_permissions: bool,
    /// The number of permissions.
    pub permission_count: usize,
}

/// Something with a name.
#[derive(Debug, Clone, PartialEq, Eq)]
pub struct Named {
    /// Its name.
    pub name: String,
    /// What it is, or what it runs.
    pub detail: Option<String>,
}

/// A hook.
#[derive(Debug, Clone, PartialEq, Eq)]
pub struct Hook {
    /// The event.
    pub event: Option<String>,
    /// What the event is matched with.
    pub matcher: Option<String>,
    /// What it runs.
    pub command: Option<String>,
}

/// How long sessions are kept.
#[derive(Debug, Clone, Copy, PartialEq, Eq)]
pub struct Retention {
    /// The most sessions.
    pub max_sessions: Option<u64>,
    /// The most days.
    pub max_age_days: Option<u64>,
    /// Whether they are removed without asking.
    pub auto_cleanup: bool,
}

/// The sandbox.
#[derive(Debug, Clone, Copy, PartialEq, Eq)]
pub struct Sandbox {
    /// Whether it is used.
    pub enabled: bool,
    /// The number of directories that may be used.
    pub allowed_directories: usize,
    /// The number of commands that may not be used.
    pub blocked_commands: usize,
}

/// Earlier versions of files.
#[derive(Debug, Clone, PartialEq, Eq)]
pub struct FileHistory {
    /// Their number.
    pub backup_count: usize,
    /// Their size.
    pub total_size_bytes: u64,
    /// The number of files.
    pub unique_files: usize,
    /// The oldest.
    pub oldest: Option<String>,
    /// The newest.
    pub newest: Option<String>,
}

/// Whether credentials are there.
#[derive(Debug, Clone, Copy, PartialEq, Eq)]
pub struct CredentialStatus {
    /// Whether their file is there.
    pub file_exists: bool,
    /// Whether a key is in it.
    pub key_present: bool,
}

/// What the session directory holds besides sessions.
#[derive(Debug, Clone, PartialEq, Eq)]
pub struct ExtractData {
    /// The number of sources.
    pub source_count: usize,
    /// The settings of the user.
    pub global_settings: Option<Settings>,
    /// The settings of the project.
    pub project_settings: Option<Settings>,
    /// The instructions of the user.
    pub global_claude_md: Option<String>,
    /// The instructions of the project.
    pub project_claude_md: Option<String>,
    /// The servers, and what they run.
    pub servers: Option<Vec<Named>>,
    /// The commands of the user.
    pub global_commands: Vec<Named>,
    /// The commands of the project.
    pub project_commands: Vec<Named>,
    /// Whether credentials are there.
    pub credentials: Option<CredentialStatus>,
    /// The hooks.
    pub hooks: Vec<Hook>,
    /// How long sessions are kept.
    pub retention: Option<Retention>,
    /// The sandbox.
    pub sandbox: Option<Sandbox>,
    /// The rules of the user.
    pub global_rules: Vec<Named>,
    /// The rules of the project.
    pub project_rules: Vec<Named>,
    /// The styles of output.
    pub output_styles: Vec<Named>,
    /// Earlier versions of files.
    pub history: Option<FileHistory>,
}

/// The lines of a section: its title, what it says and a blank line.
pub open spec fn section(shown: bool, title: Seq<char>, body: Seq<Seq<char>>) -> Seq<Seq<char>> {
    if shown {
        seq![title] + body + seq![""@]
    } else {
        Seq::empty()
    }
}

fn say_section(out: &mut Vec<String>, shown: bool, title: &str, body: Vec<String>)
    ensures
        views(final(out)@) == views(old(out)@) + section(shown, title@, views(body@)),
{
    let ghost start = views(out@);
    let ghost inner = views(body@);
    if shown {
        text::say(out, title);
        text::say_more(out, body);
        text::say(out, "");
    }
    proof {
        assert(views(out@) =~= start + section(shown, title@, inner));
    }
}

/// What is said of the settings of the user.
pub open spec fn global_settings_lines(s: Settings) -> Seq<Seq<char>> {
    given_line("  Default Model: "@, s.default_model) + given_line(
        "  Temperature: "@,
        s.temperature,
    ) + given_line("  API Endpoint: "@, s.endpoint) + (if s.has_permissions {
        seq!["  Has permissions: "@ + decimal(s.permission_count as nat) + " rules"@]
    } else {
        Seq::empty()
    })
}

fn write_global_settings(s: &Settings) -> (r: Vec<String>)
    ensures
        views(r@) == global_settings_lines(*s),
{
    let mut out: Vec<String> = Vec::new();
    say_given(&mut out, "  Default Model: ", &s.default_model);
    say_given(&mut out, "  Temperature: ", &s.temperature);
    say_given(&mut out, "  API Endpoint: ", &s.endpoint);
    if s.has_permissions {
        let digits = text::size(s.permission_count);
        text::say3(&mut out, "  Has permissions: ", digits.as_str(), " rules");
    }
    proof {
        assert(views(out@) =~= global_settings_lines(*s));
    }
    out
}

/// What is said of instructions: the first five lines of the first two hundred bytes, and how
/// many more lines there are.
pub open spec fn instruction_lines(md: Seq<char>) -> Seq<Seq<char>> {
    first_of_list(lines_of(cut_at(md, 200)), 5).map_values(|l: Seq<char>| "  "@ + l) + (
    if lines_of(md).len() > 5 {
        seq!["  ... ("@ + decimal((lines_of(md).len() - 5) as nat) + " more lines)"@]
    } else {
        Seq::empty()
    })
}

fn write_instructions(md: &String) -> (r: Vec<String>)
    requires
        can_cut(md@, 200),
    ensures
        views(r@) == instruction_lines(md@),
{
    let mut out: Vec<String> = Vec::new();
    let preview = list::cut_to(md.clone(), 200);
    let mut shown = text::lines(preview.as_str());
    let ghost whole = views(shown@);
    if 5 < shown.len() {
        shown.truncate(5);
    }
    proof {
        assert(views(shown@) =~= first_of_list(whole, 5));
    }
    let set_in = |l: &String| -> (o: String)
        ensures
            o@ == "  "@ + l@,
        { text::cat2("  ", l.as_str()) };
    let ghost g = |l: String| "  "@ + l@;
    text::say_each(&mut out, &shown, set_in, Ghost(g));
    proof {
        assert(shown@.map_values(g) =~= views(shown@).map_values(|l: Seq<char>| "  "@ + l));
    }
    let all = text::lines(md.as_str());
    if all.len() > 5 {
        let rest = text::size(all.len() - 5);
        text::say3(&mut out, "  ... (", rest.as_str(), " more lines)");
    }
    proof {
        assert(views(all@).len() == all@.len());
        assert(views(out@) =~= instruction_lines(md@));
    }
    out
}

/// A detail, or other words where there is none.
pub open spec fn detail_or(d: Option<String>, other: Seq<char>) -> Seq<char> {
    match d {
        Some(t) => t@,
        None => other,
    }
}

fn write_detail(d: &Option<String>, other: &str) -> (r: String)
    ensures
        r@ == detail_or(*d, other@),
{
    match d {
        Some(t) => t.clone(),
        None => other.to_owned(),
    }
}

/// The lines of things with names.
pub open spec fn named_lines(items: Seq<Named>, mark: Seq<char>, other: Seq<char>) -> Seq<
    Seq<char>,
> {
    items.map_values(|n: Named| mark + n.name@ + ": "@ + detail_or(n.detail, other))
}

fn write_named(items: &Vec<Named>, mark: &str, other: &str) -> (r: Vec<String>)
    ensures
        views(r@) == named_lines(items@, mark@, other@),
{
    let mut out: Vec<String> = Vec::new();
    let write = |n: &Named| -> (o: String)
        ensures
            o@ == mark@ + n.name@ + ": "@ + detail_or(n.detail, other@),
        {
            let detail = write_detail(&n.detail, other);
            text::cat4(mark, n.name.as_str(), ": ", detail.as_str())
        };
    let ghost g = |n: Named| mark@ + n.name@ + ": "@ + detail_or(n.detail, other@);
    text::say_each(&mut out, items, write, Ghost(g));
    proof {
        assert(views(out@) =~= named_lines(items@, mark@, other@));
    }
    out
}

/// What is said of the servers.
pub open spec fn server_lines(servers: Seq<Named>) -> Seq<Seq<char>> {
    seq!["  Servers: "@ + decimal(servers.len())] + named_lines(
        servers,
        "    - "@,
        "(no command)"@,
    )
}

fn write_servers(servers: &Vec<Named>) -> (r: Vec<String>)
    ensures
        views(r@) == server_lines(servers@),
{
    let mut out: Vec<String> = Vec::new();
    let digits = text::size(servers.len());
    text::say2(&mut out, "  Servers: ", digits.as_str());
    let more = write_named(servers, "    - ", "(no command)");
    text::say_more(&mut out, more);
    proof {
        assert(views(out@) =~= server_lines(servers@));
    }
    out
}

/// Yes or no, as a value is written.
pub open spec fn truth(b: bool) -> Seq<char> {
    if b {
        "true"@
    } else {
        "false"@
    }
}

/// Yes or no, as a value is written.
pub fn write_truth(b: bool) -> (r: String)
    ensures
        r@ == truth(b),
{
    if b {
        "true".to_owned()
    } else {
        "false".to_owned()
    }
}

/// What is said of credentials.
pub open spec fn credential_lines(c: CredentialStatus) -> Seq<Seq<char>> {
    seq![
        "  File exists: "@ + truth(c.file_exists),
        "  Anthropic key present: "@ + truth(c.key_present),
    ]
}

fn write_credentials(c: &CredentialStatus) -> (r: Vec<String>)
    ensures
        views(r@) == credential_lines(*c),
{
    let mut out: Vec<String> = Vec::new();
    let file = write_truth(c.file_exists);
    let key = write_truth(c.key_present);
    text::say2(&mut out, "  File exists: ", file.as_str());
    text::say2(&mut out, "  Anthropic key present: ", key.as_str());
    proof {
        assert(views(out@) =~= credential_lines(*c));
    }
    out
}

/// The line of a hook: its event, else what that is matched with, and what it runs.
pub open spec fn hook_line(h: Hook) -> Seq<char> {
    "  - "@ + (match h.event {
        Some(e) => e@,
        None => detail_or(h.matcher, "unknown"@),
    }) + ": "@ + detail_or(h.command, "(no command)"@)
}

fn write_hook(h: &Hook) -> (r: String)
    ensures
        r@ == hook_line(*h),
{
    let event: String = match &h.event {
        Some(e) => e.clone(),
        None => write_detail(&h.matcher, "unknown"),
    };
    let command = write_detail(&h.command, "(no command)");
    text::cat4("  - ", event.as_str(), ": ", command.as_str())
}

/// What is said of how long sessions are kept.
pub open spec fn retention_lines(t: Retention) -> Seq<Seq<char>> {
    (match t.max_sessions {
        Some(n) => seq!["  Max sessions: "@ + decimal(n as nat)],
        None => Seq::empty(),
    }) + (match t.max_age_days {
        Some(n) => seq!["  Max age: "@ + decimal(n as nat) + " days"@],
        None => Seq::empty(),
    }) + seq!["  Auto cleanup: "@ + truth(t.auto_cleanup)]
}

fn write_retention(t: &Retention) -> (r: Vec<String>)
    ensures
        views(r@) == retention_lines(*t),
{
    let mut out: Vec<String> = Vec::new();
    match t.max_sessions {
        Some(n) => {
            let digits = text::number(n);
            text::say2(&mut out, "  Max sessions: ", digits.as_str());
        },
        None => {},
    }
    match t.max_age_days {
        Some(n) => {
            let digits = text::number(n);
            text::say3(&mut out, "  Max age: ", digits.as_str(), " days");
        },
        None => {},
    }
    let word = write_truth(t.auto_cleanup);
    text::say2(&mut out, "  Auto cleanup: ", word.as_str());
    proof {
        assert(views(out@) =~= retention_lines(*t));
    }
    out
}

/// What is said of the sandbox.
pub open spec fn sandbox_lines(s: Sandbox) -> Seq<Seq<char>> {
    seq!["  Enabled: "@ + truth(s.enabled)] + (if s.allowed_directories > 0 {
        seq!["  Allowed directories: "@ + decimal(s.allowed_directories as nat)]
    } else {
        Seq::empty()
    }) + (if s.blocked_commands > 0 {
        seq!["  Blocked commands: "@ + decimal(s.blocked_commands as nat)]
    } else {
        Seq::empty()
    })
}

fn write_sandbox(s: &Sandbox) -> (r: Vec<String>)
    ensures
        views(r@) == sandbox_lines(*s),
{
    let mut out: Vec<String> = Vec::new();
    let word = write_truth(s.enabled);
    text::say2(&mut out, "  Enabled: ", word.as_str());
    if s.allowed_directories > 0 {
        let digits = text::size(s.allowed_directories);
        text::say2(&mut out, "  Allowed directories: ", digits.as_str());
    }
    if s.blocked_commands > 0 {
        let digits = text::size(s.blocked_commands);
        text::say2(&mut out, "  Blocked commands: ", digits.as_str());
    }
    proof {
        assert(views(out@) =~= sandbox_lines(*s));
    }
    out
}

/// What is said of earlier versions of files.
pub open spec fn history_lines(h: FileHistory) -> Seq<Seq<char>> {
    seq![
        "  Total backups: "@ + decimal(h.backup_count as nat),
        "  Total size: "@ + decimal(h.total_size_bytes as nat) + " bytes"@,
        "  Unique files: "@ + decimal(h.unique_files as nat),
    ] + given_line("  Oldest backup: "@, h.oldest) + given_line("  Newest backup: "@, h.newest)
}

fn write_history(h: &FileHistory) -> (r: Vec<String>)
    ensures
        views(r@) == history_lines(*h),
{
    let mut out: Vec<String> = Vec::new();
    let backups = text::size(h.backup_count);
    let size = text::number(h.total_size_bytes);
    let files = text::size(h.unique_files);
    text::say2(&mut out, "  Total backups: ", backups.as_str());
    text::say3(&mut out, "  Total size: ", size.as_str(), " bytes");
    text::say2(&mut out, "  Unique files: ", files.as_str());
    say_given(&mut out, "  Oldest backup: ", &h.oldest);
    say_given(&mut out, "  Newest backup: ", &h.newest);
    proof {
        assert(views(out@) =~= history_lines(*h));
    }
    out
}

/// The sections of settings and instructions.
pub open spec fn settings_sections(d: ExtractData, a: ExtractArgs, file: Seq<char>) -> Seq<
    Seq<char>,
> {
    (match d.global_settings {
        Some(s) => section(a.all || a.settings, "[Global Settings]"@, global_settings_lines(s)),
        None => Seq::empty(),
    }) + (match d.project_settings {
        Some(s) => section(
            a.all || a.settings,
            "[Project Settings]"@,
            given_line("  Default Model: "@, s.default_model),
        ),
        None => Seq::empty(),
    }) + (match d.global_claude_md {
        Some(md) => section(a.all || a.claude_md, "[Global "@ + file + "]"@, instruction_lines(md@)),
        None => Seq::empty(),
    }) + (match d.project_claude_md {
        Some(md) => section(a.all || a.claude_md, "[Project "@ + file + "]"@, instruction_lines(md@)),
        None => Seq::empty(),
    })
}

/// The sections of servers, commands, credentials and hooks.
pub open spec fn tool_sections(d: ExtractData, a: ExtractArgs) -> Seq<Seq<char>> {
    (match d.servers {
        Some(s) => section(a.all || a.mcp, "[MCP Configuration]"@, server_lines(s@)),
        None => Seq::empty(),
    }) + section(
        d.global_commands@.len() > 0 && (a.all || a.commands),
        "[Global Commands]"@,
        named_lines(d.global_commands@, "  - /"@, ""@),
    ) + section(
        d.project_commands@.len() > 0 && (a.all || a.commands),
        "[Project Commands]"@,
        named_lines(d.project_commands@, "  - /"@, ""@),
    ) + (match d.credentials {
        Some(c) => section(a.all, "[Credentials]"@, credential_lines(c)),
        None => Seq::empty(),
    }) + section(
        d.hooks@.len() > 0 && (a.all || a.hooks),
        "[Hooks]"@,
        d.hooks@.map_values(|h: Hook| hook_line(h)),
    )
}

/// The sections of what sessions are kept and run under.
pub open spec fn policy_sections(d: ExtractData, a: ExtractArgs) -> Seq<Seq<char>> {
    (match d.retention {
        Some(t) => section(a.all, "[Session Retention]"@, retention_lines(t)),
        None => Seq::empty(),
    }) + (match d.sandbox {
        Some(s) => section(a.all, "[Sandbox Configuration]"@, sandbox_lines(s)),
        None => Seq::empty(),
    }) + section(
        d.global_rules@.len() > 0 && (a.all || a.rules),
        "[Global Rules]"@,
        named_lines(d.global_rules@, "  - "@, ""@),
    ) + section(
        d.project_rules@.len() > 0 && (a.all || a.rules),
        "[Project Rules]"@,
        named_lines(d.project_rules@, "  - "@, ""@),
    ) + section(
        d.output_styles@.len() > 0 && a.all,
        "[Output Styles]"@,
        d.output_styles@.map_values(|n: Named| "  - "@ + n.name@),
    ) + (match d.history {
        Some(h) => section(a.all || a.file_history, "[File History]"@, history_lines(h)),
        None => Seq::empty(),
    })
}

/// What is printed.
pub open spec fn extract_lines(d: ExtractData, a: ExtractArgs, file: Seq<char>) -> Seq<Seq<char>> {
    seq![
        "Beyond-JSONL Data Extraction"@,
        "============================="@,
        ""@,
        "Data sources found: "@ + decimal(d.source_count as nat),
        ""@,
    ] + settings_sections(d, a, file) + tool_sections(d, a) + policy_sections(d, a)
}

/// The instructions can be cut.
pub open spec fn instructions_ok(d: ExtractData) -> bool {
    &&& d.global_claude_md matches Some(md) ==> can_cut(md@, 200)
    &&& d.project_claude_md matches Some(md) ==> can_cut(md@, 200)
}

fn write_settings(d: &ExtractData, a: &ExtractArgs, host: &Host) -> (r: Vec<String>)
    requires
        (a.all || a.claude_md) ==> instructions_ok(*d),
    ensures
        views(r@) == settings_sections(*d, *a, host.instructions@),
{
    let mut out: Vec<String> = Vec::new();
    proof {
        assert(views(out@) =~= Seq::empty());
    }
    match &d.global_settings {
        Some(s) => {
            let body = write_global_settings(s);
            say_section(&mut out, a.all || a.settings, "[Global Settings]", body);
        },
        None => {},
    }
    match &d.project_settings {
        Some(s) => {
            let mut body: Vec<String> = Vec::new();
            say_given(&mut body, "  Default Model: ", &s.default_model);
            proof {
                assert(views(body@) =~= given_line("  Default Model: "@, s.default_model));
            }
            say_section(&mut out, a.all || a.settings, "[Project Settings]", body);
        },
        None => {},
    }
    match &d.global_claude_md {
        Some(md) => {
            if a.all || a.claude_md {
                let body = write_instructions(md);
                let title = text::cat3("[Global ", host.instructions.as_str(), "]");
                say_section(&mut out, true, title.as_str(), body);
            }
        },
        None => {},
    }
    match &d.project_claude_md {
        Some(md) => {
            if a.all || a.claude_md {
                let body = write_instructions(md);
                let title = text::cat3("[Project ", host.instructions.as_str(), "]");
                say_section(&mut out, true, title.as_str(), body);
            }
        },
        None => {},
    }
    proof {
        assert(views(out@) =~= settings_sections(*d, *a, host.instructions@));
    }
    out
}

fn write_tools(d: &ExtractData, a: &ExtractArgs) -> (r: Vec<String>)
    ensures
        views(r@) == tool_sections(*d, *a),
{
    let mut out: Vec<String> = Vec::new();
    proof {
        assert(views(out@) =~= Seq::empty());
    }
    match &d.servers {
        Some(s) => {
            let body = write_servers(s);
            say_section(&mut out, a.all || a.mcp, "[MCP Configuration]", body);
        },
        None => {},
    }
    let body = write_named(&d.global_commands, "  - /", "");
    say_section(
        &mut out,
        d.global_commands.len() > 0 && (a.all || a.commands),
        "[Global Commands]",
        body,
    );
    let body = write_named(&d.project_commands, "  - /", "");
    say_section(
        &mut out,
        d.project_commands.len() > 0 && (a.all || a.commands),
        "[Project Commands]",
        body,
    );
    match &d.credentials {
        Some(c) => {
            let body = write_credentials(c);
            say_section(&mut out, a.all, "[Credentials]", body);
        },
        None => {},
    }
    let mut body: Vec<String> = Vec::new();
    text::say_each(&mut body, &d.hooks, write_hook, Ghost(|h: Hook| hook_line(h)));
    proof {
        assert(views(body@) =~= d.hooks@.map_values(|h: Hook| hook_line(h)));
    }
    say_section(&mut out, d.hooks.len() > 0 && (a.all || a.hooks), "[Hooks]", body);
    proof {
        assert(views(out@) =~= tool_sections(*d, *a));
    }
    out
}

fn write_policies(d: &ExtractData, a: &ExtractArgs) -> (r: Vec<String>)
    ensures
        views(r@) == policy_sections(*d, *a),
{
    let mut out: Vec<String> = Vec::new();
    proof {
        assert(views(out@) =~= Seq::empty());
    }
    match &d.retention {
        Some(t) => {
            let body = write_retention(t);
            say_section(&mut out, a.all, "[Session Retention]", body);
        },
        None => {},
    }
    match &d.sandbox {
        Some(s) => {
            let body = write_sandbox(s);
            say_section(&mut out, a.all, "[Sandbox Configuration]", body);
        },
        None => {},
    }
    let body = write_named(&d.global_rules, "  - ", "");
    say_section(
        &mut out,
        d.global_rules.len() > 0 && (a.all || a.rules),
        "[Global Rules]",
        body,
    );
    let body = write_named(&d.project_rules, "  - ", "");
    say_section(
        &mut out,
        d.project_rules.len() > 0 && (a.all || a.rules),
        "[Project Rules]",
        body,
    );
    let mut body: Vec<String> = Vec::new();
    let style = |n: &Named| -> (o: String)
        ensures
            o@ == "  - "@ + n.name@,
        { text::cat2("  - ", n.name.as_str()) };
    let ghost g = |n: Named| "  - "@ + n.name@;
    text::say_each(&mut body, &d.output_styles, style, Ghost(g));
    proof {
        assert(views(body@) =~= d.output_styles@.map_values(|n: Named| "  - "@ + n.name@));
    }
    say_section(&mut out, d.output_styles.len() > 0 && a.all, "[Output Styles]", body);
    match &d.history {
        Some(h) => {
            let body = write_history(h);
            say_section(&mut out, a.all || a.file_history, "[File History]", body);
        },
        None => {},
    }
    proof {
        assert(views(out@) =~= policy_sections(*d, *a));
    }
    out
}

/// What is printed: each section that is asked for and has something to say.
pub fn print_text_output(d: &ExtractData, a: &ExtractArgs, host: &Host) -> (r: Vec<String>)
    requires
        (a.all || a.claude_md) ==> instructions_ok(*d),
    ensures
        views(r@) == extract_lines(*d, *a, host.instructions@),
{
    let mut out: Vec<String> = Vec::new();
    let count = text::size(d.source_count);
    text::say(&mut out, "Beyond-JSONL Data Extraction");
    text::say(&mut out, "=============================");
    text::say(&mut out, "");
    text::say2(&mut out, "Data sources found: ", count.as_str());
    text::say(&mut out, "");
    proof {
        assert(views(out@) =~= seq![
            "Beyond-JSONL Data Extraction"@,
            "============================="@,
            ""@,
            "Data sources found: "@ + decimal(d.source_count as nat),
            ""@,
        ]);
    }
    let settings = write_settings(d, a, host);
    text::say_more(&mut out, settings);
    let tools = write_tools(d, a);
    text::say_more(&mut out, tools);
    let policies = write_policies(d, a);
    text::say_more(&mut out, policies);
    out
}

/// Where all sections are asked for, naming some of them besides changes nothing: the same is
/// printed as where each is named.
pub proof fn all_covers_each(d: ExtractData, a: ExtractArgs, file: Seq<char>)
    ensures
        extract_lines(d, ExtractArgs { all: true, ..a }, file) == extract_lines(
            d,
            ExtractArgs {
                all: true,
                settings: true,
                claude_md: true,
                mcp: true,
                commands: true,
                hooks: true,
                rules: true,
                file_history: true,
            },
            file,
        ),
{
}

// ---------------------------------------------------------------------------
// What each flag shows
// ---------------------------------------------------------------------------

/// Nothing is shown beside the heading where nothing is asked for, and each thing that is asked for
/// shows its own parts and no others.
pub proof fn each_flag_shows_its_parts(d: ExtractData, file: Seq<char>)
    ensures
        ({
            let head = seq![
                "Beyond-JSONL Data Extraction"@,
                "============================="@,
                ""@,
                "Data sources found: "@ + decimal(d.source_count as nat),
                ""@,
            ];
            let none = ExtractArgs {
                all: false,
                settings: false,
                claude_md: false,
                mcp: false,
                commands: false,
                hooks: false,
                rules: false,
                file_history: false,
            };
            &&& extract_lines(d, none, file) == head
            &&& extract_lines(d, ExtractArgs { settings: true, ..none }, file) == head + (
            match d.global_settings {
                Some(s) => section(true, "[Global Settings]"@, global_settings_lines(s)),
                None => Seq::empty(),
            }) + (match d.project_settings {
                Some(s) => section(
                    true,
                    "[Project Settings]"@,
                    given_line("  Default Model: "@, s.default_model),
                ),
                None => Seq::empty(),
            })
            &&& extract_lines(d, ExtractArgs { claude_md: true, ..none }, file) == head + (
            match d.global_claude_md {
                Some(md) => section(true, "[Global "@ + file + "]"@, instruction_lines(md@)),
                None => Seq::empty(),
            }) + (match d.project_claude_md {
                Some(md) => section(true, "[Project "@ + file + "]"@, instruction_lines(md@)),
                None => Seq::empty(),
            })
            &&& extract_lines(d, ExtractArgs { mcp: true, ..none }, file) == head + (
            match d.servers {
                Some(s) => section(true, "[MCP Configuration]"@, server_lines(s@)),
                None => Seq::empty(),
            })
            &&& extract_lines(d, ExtractArgs { commands: true, ..none }, file) == head + section(
                d.global_commands@.len() > 0,
                "[Global Commands]"@,
                named_lines(d.global_commands@, "  - /"@, ""@),
            ) + section(
                d.project_commands@.len() > 0,
                "[Project Commands]"@,
                named_lines(d.project_commands@, "  - /"@, ""@),
            )
            &&& extract_lines(d, ExtractArgs { hooks: true, ..none }, file) == head + section(
                d.hooks@.len() > 0,
                "[Hooks]"@,
                d.hooks@.map_values(|h: Hook| hook_line(h)),
            )
            &&& extract_lines(d, ExtractArgs { rules: true, ..none }, file) == head + section(
                d.global_rules@.len() > 0,
                "[Global Rules]"@,
                named_lines(d.global_rules@, "  - "@, ""@),
            ) + section(
                d.project_rules@.len() > 0,
                "[Project Rules]"@,
                named_lines(d.project_rules@, "  - "@, ""@),
            )
            &&& extract_lines(d, ExtractArgs { file_history: true, ..none }, file) == head + (
            match d.history {
                Some(h) => section(true, "[File History]"@, history_lines(h)),
                None => Seq::empty(),
            })
        }),
{
}

// ---------------------------------------------------------------------------
// What calls hand back
// ---------------------------------------------------------------------------

/// The lack of data is told where it may be; else the format decides.
pub proof fn formats_decide_how_data_is_shown(
    has_data: bool,
    quiet: bool,
    format: OutputFormat,
    r: ExtractRoute,
)
    ensures
        call_ensures(run, (has_data, quiet, format), r) ==> {
            &&& r is NoData <==> !(has_data || quiet)
            &&& r is Json ==> format is Json
            &&& r is Text ==> !(format is Json)
        },
{
}

} // verus!
