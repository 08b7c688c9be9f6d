//! Comparing two sessions, line by line or by what their messages say.
use vstd::prelude::*;
use vstd::utf8::{decode_utf8, valid_utf8};

use crate::error::{invalid, invalid_argument, ErrorView, SnatchError};
use crate::json;
use crate::json::{
    field, fields_view, items_view, rendered, sorted_json, with_field, Json, JsonView,
};
use crate::names;
use crate::names::{name_set, with_name};
use crate::text;
use crate::text::{
    begins, byte_len, decimal, has, joined, lowercase, on_boundary, views, within_bytes,
};

verus! {

// ---------------------------------------------------------------------------
// What is compared
// ---------------------------------------------------------------------------

/// What a log entry is.
#[derive(Debug, Clone, Copy, PartialEq, Eq, Structural)]
pub enum EntryKind {
    /// A message of the user.
    User,
    /// A message of the assistant.
    Assistant,
    /// A message of the system.
    System,
    /// A summary of earlier messages.
    Summary,
    /// A snapshot of the history of files.
    FileHistorySnapshot,
    /// Anything else.
    Other,
}

/// What a tool does.
#[derive(Debug, PartialEq, Eq)]
pub enum ToolKind {
    /// Runs commands.
    Shell,
    /// Reads files.
    FileRead,
    /// Writes files.
    FileWrite,
    /// Searches files.
    Search,
    /// Reads the web.
    Web,
    /// Starts an agent.
    Subagent,
    /// Calls a tool server.
    Mcp,
    /// Directs other tools.
    Orchestration,
    /// Something else, under its own name.
    Other(String),
}

/// What is known of a tool call.
#[derive(Debug, PartialEq, Eq)]
pub struct ToolSemantics {
    /// The id of the call.
    pub call_id: String,
    /// What the tool does.
    pub kind: ToolKind,
}

/// Who wrote a prompt.
#[derive(Debug, Clone, Copy, PartialEq, Eq, Structural)]
pub enum PromptAuthorship {
    /// A person.
    Human,
    /// Someone else.
    Other,
}

/// What a provider knows of an entry.
#[derive(Debug, PartialEq, Eq)]
pub struct EntrySemantics {
    /// Who wrote the prompt that the entry is, where it is one.
    pub prompt: Option<PromptAuthorship>,
    /// Its tool calls.
    pub tools: Vec<ToolSemantics>,
}

/// An entry of a conversation, as it is compared.
#[derive(Debug)]
pub struct ComparisonEntry {
    /// What the entry is.
    pub kind: EntryKind,
    /// The name of its type.
    pub message_type: String,
    /// The id of the assistant's message that it is a part of.
    pub message_id: Option<String>,
    /// The whole entry.
    pub value: Json,
    /// What its provider knows of it.
    pub semantics: Option<EntrySemantics>,
    /// Whether it reads like a prompt that a person wrote.
    pub human_prompt: bool,
}

/// A conversation: its entries in order, and how often it branches.
#[derive(Debug)]
pub struct Conversation {
    /// The entries.
    pub entries: Vec<ComparisonEntry>,
    /// The number of branches.
    pub branch_count: usize,
}

/// The arguments that choose which messages are compared.
#[derive(Debug, Clone, PartialEq, Eq)]
pub struct TypeArgs {
    /// Only prompts.
    pub prompts: bool,
    /// Only messages of these types.
    pub message_type: Vec<String>,
}

/// The types that are asked for, in lower case.
pub open spec fn lowered(types: Seq<String>) -> Seq<Seq<char>> {
    Seq::new(types.len(), |i: int| lowercase(types[i]@))
}

/// The message types that are asked for, in order and each once: the user's where only
/// prompts are wanted, and each named type in lower case. None where nothing is asked for.
pub open spec fn type_filter(prompts: bool, types: Seq<String>) -> Option<Seq<Seq<char>>> {
    let wanted = name_set(
        (if prompts {
            seq!["user"@]
        } else {
            Seq::empty()
        }) + lowered(types),
    );
    if wanted.len() == 0 {
        None
    } else {
        Some(wanted)
    }
}

/// The contents of an optional list of texts.
pub open spec fn filter_view(types: Option<Vec<String>>) -> Option<Seq<Seq<char>>> {
    match types {
        Some(t) => Some(views(t@)),
        None => None,
    }
}

/// The message types that are asked for.
pub fn build_type_filter(args: &TypeArgs) -> (r: Option<Vec<String>>)
    ensures
        filter_view(r) == type_filter(args.prompts, args.message_type@),
{
    let mut types: Vec<String> = Vec::new();
    let ghost first: Seq<Seq<char>> = if args.prompts {
        seq!["user"@]
    } else {
        Seq::empty()
    };
    proof {
        assert(views(types@) =~= Seq::empty());
    }
    if args.prompts {
        names::insert_name(&mut types, "user".to_owned());
        proof {
            assert(first.drop_last() =~= Seq::empty());
            assert(name_set(Seq::<Seq<char>>::empty()) =~= Seq::empty());
            assert(name_set(first) == with_name(name_set(first.drop_last()), first.last()));
        }
    }
    let ghost all = first + lowered(args.message_type@);
    let mut i: usize = 0;
    proof {
        assert(all.take(first.len() as int) =~= first);
        assert(views(types@) =~= name_set(first));
    }
    while i < args.message_type.len()
        invariant
            i <= args.message_type@.len(),
            all == first + lowered(args.message_type@),
            views(types@) == name_set(all.take(first.len() + i)),
        decreases args.message_type@.len() - i,
    {
        let name = text::to_lowercase(args.message_type[i].as_str());
        proof {
            let next = all.take(first.len() + i + 1);
            assert(next.drop_last() =~= all.take(first.len() + i));
            assert(next.last() == name@);
        }
        names::insert_name(&mut types, name);
        i = i + 1;
    }
    proof {
        assert(all.take(first.len() + i) =~= all);
    }
    if types.len() == 0 {
        None
    } else {
        Some(types)
    }
}

/// An entry is compared: its type is asked for, and where only prompts of people are wanted
/// and it is a message of the user, a person wrote it.
pub open spec fn is_compared(
    entry: ComparisonEntry,
    types: Option<Seq<Seq<char>>>,
    human_prompts_only: bool,
) -> bool {
    &&& match types {
        Some(t) => t.contains(lowercase(entry.message_type@)),
        None => true,
    }
    &&& human_prompts_only && entry.message_type@ == "user"@ ==> match entry.semantics {
        Some(semantics) => semantics.prompt == Some(PromptAuthorship::Human),
        None => entry.human_prompt,
    }
}

fn compares(entry: &ComparisonEntry, types: Option<&Vec<String>>, human_prompts_only: bool) -> (r:
    bool)
    ensures
        r == is_compared(
            *entry,
            match types {
                Some(t) => Some(views(t@)),
                None => None,
            },
            human_prompts_only,
        ),
{
    let wanted: bool = match types {
        Some(t) => {
            let name = text::to_lowercase(entry.message_type.as_str());
            names::holds_name(t, name.as_str())
        },
        None => true,
    };
    if !wanted {
        return false;
    }
    if human_prompts_only && text::same(entry.message_type.as_str(), "user") {
        match &entry.semantics {
            Some(semantics) => match semantics.prompt {
                Some(PromptAuthorship::Human) => true,
                _ => false,
            },
            None => entry.human_prompt,
        }
    } else {
        true
    }
}

/// The places of the entries that are compared.
pub open spec fn compared_places(
    entries: Seq<ComparisonEntry>,
    types: Option<Seq<Seq<char>>>,
    human_prompts_only: bool,
) -> Seq<int>
    decreases entries.len(),
{
    if entries.len() == 0 {
        Seq::empty()
    } else {
        let before = compared_places(entries.drop_last(), types, human_prompts_only);
        if is_compared(entries.last(), types, human_prompts_only) {
            before.push(entries.len() - 1)
        } else {
            before
        }
    }
}

spec fn places(v: Seq<usize>) -> Seq<int> {
    Seq::new(v.len(), |i: int| v[i] as int)
}

/// The places of the entries of a conversation that are compared.
fn comparison_entries(
    entries: &Vec<ComparisonEntry>,
    types: Option<&Vec<String>>,
    human_prompts_only: bool,
) -> (r: Vec<usize>)
    ensures
        places(r@) == compared_places(
            entries@,
            match types {
                Some(t) => Some(views(t@)),
                None => None,
            },
            human_prompts_only,
        ),
        forall|k: int| 0 <= k < r@.len() ==> #[trigger] r@[k] < entries@.len(),
{
    let ghost wanted = match types {
        Some(t) => Some(views(t@)),
        None => None,
    };
    let mut out: Vec<usize> = Vec::new();
    let mut i: usize = 0;
    proof {
        assert(places(out@) =~= Seq::empty());
        assert(entries@.take(0) =~= Seq::empty());
    }
    while i < entries.len()
        invariant
            i <= entries@.len(),
            wanted == (match types {
                Some(t) => Some(views(t@)),
                None => None,
            }),
            places(out@) == compared_places(entries@.take(i as int), wanted, human_prompts_only),
            forall|k: int| 0 <= k < out@.len() ==> #[trigger] out@[k] < entries@.len(),
        decreases entries@.len() - i,
    {
        proof {
            let next = entries@.take(i + 1);
            assert(next.drop_last() =~= entries@.take(i as int));
            assert(next.last() == entries@[i as int]);
        }
        if compares(&entries[i], types, human_prompts_only) {
            proof {
                assert(places(out@.push(i)) =~= places(out@).push(i as int));
            }
            out.push(i);
        }
        i = i + 1;
    }
    proof {
        assert(entries@.take(i as int) =~= entries@);
    }
    out
}

// ---------------------------------------------------------------------------
// Fingerprints
// ---------------------------------------------------------------------------

/// A set of fields that say nothing of what a message means.
#[derive(Debug, Clone, Copy, PartialEq, Eq, Structural)]
pub enum FieldSet {
    /// Where and when an entry was logged.
    Transport,
    /// How an answer of the assistant came about.
    Answer,
    /// What a message of the system refers to.
    System,
    /// What a summary refers to.
    Summary,
    /// What a snapshot refers to.
    Snapshot,
    /// What the record inside a snapshot refers to.
    SnapshotRecord,
    /// The id of a tool call.
    ToolUse,
    /// The tool call that a result belongs to.
    ToolResult,
    /// The signature of a thought.
    Thinking,
}

/// The field belongs to the set.
pub open spec fn is_in_set(set: FieldSet, name: Seq<char>) -> bool {
    match set {
        FieldSet::Transport => {
            ||| name == "uuid"@
            ||| name == "parentUuid"@
            ||| name == "logicalParentUuid"@
            ||| name == "timestamp"@
            ||| name == "sessionId"@
            ||| name == "version"@
            ||| name == "cwd"@
            ||| name == "gitBranch"@
            ||| name == "userType"@
            ||| name == "isSidechain"@
            ||| name == "isTeammate"@
            ||| name == "agentId"@
            ||| name == "slug"@
            ||| name == "requestId"@
        },
        FieldSet::Answer => {
            ||| name == "id"@
            ||| name == "model"@
            ||| name == "usage"@
            ||| name == "stop_reason"@
            ||| name == "stop_sequence"@
            ||| name == "container"@
            ||| name == "context_management"@
        },
        FieldSet::System => {
            ||| name == "toolUseId"@
            ||| name == "checkpointId"@
            ||| name == "targetUuid"@
            ||| name == "retryInMs"@
            ||| name == "retryAttempt"@
            ||| name == "maxRetries"@
        },
        FieldSet::Summary => name == "leafUuid"@,
        FieldSet::Snapshot => name == "messageId"@,
        FieldSet::SnapshotRecord => name == "messageId"@ || name == "timestamp"@,
        FieldSet::ToolUse => name == "id"@,
        FieldSet::ToolResult => name == "tool_use_id"@ || name == "toolUseId"@,
        FieldSet::Thinking => name == "signature"@,
    }
}

fn in_set(set: FieldSet, name: &str) -> (r: bool)
    ensures
        r == is_in_set(set, name@),
{
    match set {
        FieldSet::Transport => {
            text::same(name, "uuid") || text::same(name, "parentUuid") || text::same(
                name,
                "logicalParentUuid",
            ) || text::same(name, "timestamp") || text::same(name, "sessionId") || text::same(
                name,
                "version",
            ) || text::same(name, "cwd") || text::same(name, "gitBranch") || text::same(
                name,
                "userType",
            ) || text::same(name, "isSidechain") || text::same(name, "isTeammate") || text::same(
                name,
                "agentId",
            ) || text::same(name, "slug") || text::same(name, "requestId")
        },
        FieldSet::Answer => {
            text::same(name, "id") || text::same(name, "model") || text::same(name, "usage")
                || text::same(name, "stop_reason") || text::same(name, "stop_sequence")
                || text::same(name, "container") || text::same(name, "context_management")
        },
        FieldSet::System => {
            text::same(name, "toolUseId") || text::same(name, "checkpointId") || text::same(
                name,
                "targetUuid",
            ) || text::same(name, "retryInMs") || text::same(name, "retryAttempt") || text::same(
                name,
                "maxRetries",
            )
        },
        FieldSet::Summary => text::same(name, "leafUuid"),
        FieldSet::Snapshot => text::same(name, "messageId"),
        FieldSet::SnapshotRecord => text::same(name, "messageId") || text::same(name, "timestamp"),
        FieldSet::ToolUse => text::same(name, "id"),
        FieldSet::ToolResult => text::same(name, "tool_use_id") || text::same(name, "toolUseId"),
        FieldSet::Thinking => text::same(name, "signature"),
    }
}

/// The fields that are not in a set.
pub open spec fn without(fields: Seq<(Seq<char>, JsonView)>, set: FieldSet) -> Seq<
    (Seq<char>, JsonView),
>
    decreases fields.len(),
{
    if fields.len() == 0 {
        Seq::empty()
    } else {
        let before = without(fields.drop_last(), set);
        if is_in_set(set, fields.last().0) {
            before
        } else {
            before.push(fields.last())
        }
    }
}

fn remove_set(fields: &Vec<(String, Json)>, set: FieldSet) -> (r: Vec<(String, Json)>)
    ensures
        fields_view(r@) == without(fields_view(fields@), set),
{
    let mut out: Vec<(String, Json)> = Vec::new();
    let mut i: usize = 0;
    proof {
        assert(fields@.take(0) =~= Seq::empty());
    }
    while i < fields.len()
        invariant
            i <= fields@.len(),
            fields_view(out@) == without(fields_view(fields@.take(i as int)), set),
        decreases fields@.len() - i,
    {
        let ghost part = fields@.take(i as int);
        let ghost last = (fields@[i as int].0@, fields@[i as int].1@);
        proof {
            assert(fields@.take(i + 1) =~= part.push(fields@[i as int]));
            json::lemma_fields_push(part, fields@[i as int]);
            let view = fields_view(part);
            assert(view.push(last).drop_last() =~= view);
        }
        if !in_set(set, fields[i].0.as_str()) {
            let entry = (fields[i].0.clone(), fields[i].1.copy());
            proof {
                json::lemma_fields_push(out@, entry);
            }
            out.push(entry);
        }
        i = i + 1;
    }
    proof {
        assert(fields@.take(i as int) =~= fields@);
    }
    out
}

/// What a tool does, in one word.
pub open spec fn kind_label(kind: ToolKind) -> Seq<char> {
    match kind {
        ToolKind::Shell => "shell"@,
        ToolKind::FileRead => "file_read"@,
        ToolKind::FileWrite => "file_write"@,
        ToolKind::Search => "search"@,
        ToolKind::Web => "web"@,
        ToolKind::Subagent => "subagent"@,
        ToolKind::Mcp => "mcp"@,
        ToolKind::Orchestration => "orchestration"@,
        ToolKind::Other(name) => "other:"@ + name@,
    }
}

/// What a tool does, in one word.
pub fn tool_kind_label(kind: &ToolKind) -> (r: String)
    ensures
        r@ == kind_label(*kind),
{
    match kind {
        ToolKind::Shell => "shell".to_owned(),
        ToolKind::FileRead => "file_read".to_owned(),
        ToolKind::FileWrite => "file_write".to_owned(),
        ToolKind::Search => "search".to_owned(),
        ToolKind::Web => "web".to_owned(),
        ToolKind::Subagent => "subagent".to_owned(),
        ToolKind::Mcp => "mcp".to_owned(),
        ToolKind::Orchestration => "orchestration".to_owned(),
        ToolKind::Other(name) => text::cat2("other:", name.as_str()),
    }
}

/// What a tool of a given name does, in one word.
pub open spec fn native_label(name: Seq<char>) -> Seq<char> {
    if name == "Bash"@ || name == "shell"@ || name == "local_shell"@ || name == "exec_command"@
        || name == "write_stdin"@ {
        "shell"@
    } else if name == "Read"@ || name == "read_file"@ || name == "view_image"@ {
        "file_read"@
    } else if name == "Write"@ || name == "Edit"@ || name == "MultiEdit"@ || name
        == "NotebookEdit"@ || name == "apply_patch"@ {
        "file_write"@
    } else if name == "Glob"@ || name == "Grep"@ || name == "grep"@ || name == "find"@ || name
        == "search"@ {
        "search"@
    } else if name == "WebSearch"@ || name == "WebFetch"@ || name == "web_search"@ || name
        == "browser.search"@ || name == "web.run"@ {
        "web"@
    } else if name == "Task"@ || name == "Agent"@ {
        "subagent"@
    } else if name == "exec"@ || name == "wait"@ || name == "update_plan"@ {
        "orchestration"@
    } else if begins(name, "mcp__"@) || begins(name, "mcp"@) || has(name, "__"@) {
        "mcp"@
    } else {
        "other:"@ + name
    }
}

/// What a tool of a given name does.
pub fn classify_native_tool(name: &str) -> (r: ToolKind)
    ensures
        kind_label(r) == native_label(name@),
{
    if text::same(name, "Bash") || text::same(name, "shell") || text::same(name, "local_shell")
        || text::same(name, "exec_command") || text::same(name, "write_stdin") {
        ToolKind::Shell
    } else if text::same(name, "Read") || text::same(name, "read_file") || text::same(
        name,
        "view_image",
    ) {
        ToolKind::FileRead
    } else if text::same(name, "Write") || text::same(name, "Edit") || text::same(name, "MultiEdit")
        || text::same(name, "NotebookEdit") || text::same(name, "apply_patch") {
        ToolKind::FileWrite
    } else if text::same(name, "Glob") || text::same(name, "Grep") || text::same(name, "grep")
        || text::same(name, "find") || text::same(name, "search") {
        ToolKind::Search
    } else if text::same(name, "WebSearch") || text::same(name, "WebFetch") || text::same(
        name,
        "web_search",
    ) || text::same(name, "browser.search") || text::same(name, "web.run") {
        ToolKind::Web
    } else if text::same(name, "Task") || text::same(name, "Agent") {
        ToolKind::Subagent
    } else if text::same(name, "exec") || text::same(name, "wait") || text::same(
        name,
        "update_plan",
    ) {
        ToolKind::Orchestration
    } else if text::starts_with(name, "mcp__") || text::starts_with(name, "mcp") || text::contains(
        name,
        "__",
    ) {
        ToolKind::Mcp
    } else {
        ToolKind::Other(name.to_owned())
    }
}

/// What is known of the tool that a call used, in one word.
pub open spec fn known_label(tools: Seq<ToolSemantics>, call_id: Seq<char>) -> Option<Seq<char>>
    decreases tools.len(),
{
    if tools.len() == 0 {
        None
    } else if tools[0].call_id@ == call_id {
        Some(kind_label(tools[0].kind))
    } else {
        known_label(tools.drop_first(), call_id)
    }
}

fn find_label(tools: &Vec<ToolSemantics>, call_id: &str) -> (r: Option<String>)
    ensures
        match r {
            Some(label) => known_label(tools@, call_id@) == Some(label@),
            None => known_label(tools@, call_id@) is None,
        },
{
    let mut i: usize = 0;
    proof {
        assert(tools@.skip(0) =~= tools@);
    }
    while i < tools.len()
        invariant
            i <= tools@.len(),
            known_label(tools@.skip(i as int), call_id@) == known_label(tools@, call_id@),
        decreases tools@.len() - i,
    {
        proof {
            assert(tools@.skip(i as int)[0] == tools@[i as int]);
            assert(tools@.skip(i as int).drop_first() =~= tools@.skip(i + 1));
        }
        if text::same(tools[i].call_id.as_str(), call_id) {
            return Some(tool_kind_label(&tools[i].kind));
        }
        i = i + 1;
    }
    None
}

/// The tool calls that are known of an entry.
pub open spec fn tools_of(semantics: Option<EntrySemantics>) -> Seq<ToolSemantics> {
    match semantics {
        Some(s) => s.tools@,
        None => Seq::empty(),
    }
}

/// The word for what the tool of a call does: what is known of the call, else what its name
/// says, else none.
pub open spec fn call_label(
    fields: Seq<(Seq<char>, JsonView)>,
    tools: Seq<ToolSemantics>,
) -> Option<Seq<char>> {
    let known = match json::text_of(field(fields, "id"@)) {
        Some(call_id) => known_label(tools, call_id),
        None => None,
    };
    match known {
        Some(label) => Some(label),
        None => match json::text_of(field(fields, "name"@)) {
            Some(name) => Some(native_label(name)),
            None => None,
        },
    }
}

/// A content block without the ids that tie it to a provider. A tool call keeps what its tool
/// does in place of the tool's name.
pub open spec fn neutral_block(block: JsonView, tools: Seq<ToolSemantics>) -> JsonView {
    match block {
        JsonView::Object(fields) => {
            let kind = json::text_of(field(fields, "type"@));
            if kind == Some("tool_use"@) {
                let named = match call_label(fields, tools) {
                    Some(label) => with_field(fields, "name"@, JsonView::Text(label)),
                    None => fields,
                };
                JsonView::Object(without(named, FieldSet::ToolUse))
            } else if kind == Some("tool_result"@) {
                JsonView::Object(without(fields, FieldSet::ToolResult))
            } else if kind == Some("thinking"@) {
                JsonView::Object(without(fields, FieldSet::Thinking))
            } else {
                block
            }
        },
        _ => block,
    }
}

fn find_call_label(fields: &Vec<(String, Json)>, semantics: &Option<EntrySemantics>) -> (r: Option<
    String,
>)
    ensures
        match r {
            Some(label) => call_label(fields_view(fields@), tools_of(*semantics)) == Some(label@),
            None => call_label(fields_view(fields@), tools_of(*semantics)) is None,
        },
{
    match semantics {
        Some(known) => match json::get_text(fields, "id") {
            Some(call_id) => match find_label(&known.tools, call_id.as_str()) {
                Some(label) => {
                    return Some(label);
                },
                None => {},
            },
            None => {},
        },
        None => {},
    }
    match json::get_text(fields, "name") {
        Some(name) => {
            let kind = classify_native_tool(name.as_str());
            Some(tool_kind_label(&kind))
        },
        None => None,
    }
}

fn normalize_block(block: &Json, semantics: &Option<EntrySemantics>) -> (r: Json)
    ensures
        r@ == neutral_block(block@, tools_of(*semantics)),
{
    match block {
        Json::Object(fields) => {
            let kind = json::get_text(fields, "type");
            match kind {
                Some(name) => {
                    if text::same(name.as_str(), "tool_use") {
                        match find_call_label(fields, semantics) {
                            Some(label) => {
                                match block.copy() {
                                    Json::Object(named) => {
                                        let mut named = named;
                                        json::set_field(&mut named, "name", Json::Text(label));
                                        Json::Object(remove_set(&named, FieldSet::ToolUse))
                                    },
                                    other => other,
                                }
                            },
                            None => Json::Object(remove_set(fields, FieldSet::ToolUse)),
                        }
                    } else if text::same(name.as_str(), "tool_result") {
                        Json::Object(remove_set(fields, FieldSet::ToolResult))
                    } else if text::same(name.as_str(), "thinking") {
                        Json::Object(remove_set(fields, FieldSet::Thinking))
                    } else {
                        block.copy()
                    }
                },
                None => block.copy(),
            }
        },
        _ => block.copy(),
    }
}

/// The blocks of a message, each without what ties it to a provider.
pub open spec fn neutral_blocks(blocks: Seq<JsonView>, tools: Seq<ToolSemantics>) -> Seq<JsonView> {
    Seq::new(blocks.len(), |i: int| neutral_block(blocks[i], tools))
}

/// The content of a message without what ties it to a provider.
pub open spec fn neutral_content(content: JsonView, tools: Seq<ToolSemantics>) -> JsonView {
    match content {
        JsonView::Array(blocks) => JsonView::Array(neutral_blocks(blocks, tools)),
        _ => content,
    }
}

fn normalize_content_blocks(content: &Json, semantics: &Option<EntrySemantics>) -> (r: Json)
    ensures
        r@ == neutral_content(content@, tools_of(*semantics)),
{
    match content {
        Json::Array(blocks) => {
            let mut out: Vec<Json> = Vec::new();
            let mut i: usize = 0;
            proof {
                json::lemma_items_view(blocks@);
            }
            while i < blocks.len()
                invariant
                    i <= blocks@.len(),
                    out@.len() == i,
                    forall|k: int|
                        0 <= k < i ==> (#[trigger] out@[k])@ == neutral_block(
                            blocks@[k]@,
                            tools_of(*semantics),
                        ),
                decreases blocks@.len() - i,
            {
                out.push(normalize_block(&blocks[i], semantics));
                i = i + 1;
            }
            proof {
                json::lemma_items_view(out@);
                json::lemma_items_view(blocks@);
                assert(items_view(out@) =~= neutral_blocks(
                    items_view(blocks@),
                    tools_of(*semantics),
                ));
            }
            Json::Array(out)
        },
        _ => content.copy(),
    }
}

/// The fields of a message with its content neutral.
pub open spec fn neutral_message(
    fields: Seq<(Seq<char>, JsonView)>,
    tools: Seq<ToolSemantics>,
) -> Seq<(Seq<char>, JsonView)> {
    match field(fields, "content"@) {
        Some(content) => with_field(fields, "content"@, neutral_content(content, tools)),
        None => fields,
    }
}

/// The fields of an entry without what identifies it.
pub open spec fn neutral_fields(
    kind: EntryKind,
    fields: Seq<(Seq<char>, JsonView)>,
    tools: Seq<ToolSemantics>,
) -> Seq<(Seq<char>, JsonView)> {
    let top = without(fields, FieldSet::Transport);
    match kind {
        EntryKind::Assistant => match field(top, "message"@) {
            Some(JsonView::Object(message)) => with_field(
                top,
                "message"@,
                JsonView::Object(neutral_message(without(message, FieldSet::Answer), tools)),
            ),
            _ => top,
        },
        EntryKind::User => match field(top, "message"@) {
            Some(JsonView::Object(message)) => with_field(
                top,
                "message"@,
                JsonView::Object(neutral_message(message, tools)),
            ),
            _ => top,
        },
        EntryKind::System => without(top, FieldSet::System),
        EntryKind::Summary => without(top, FieldSet::Summary),
        EntryKind::FileHistorySnapshot => {
            let outer = without(top, FieldSet::Snapshot);
            match field(outer, "snapshot"@) {
                Some(JsonView::Object(record)) => with_field(
                    outer,
                    "snapshot"@,
                    JsonView::Object(without(record, FieldSet::SnapshotRecord)),
                ),
                _ => outer,
            }
        },
        EntryKind::Other => top,
    }
}

/// What an entry says, without what identifies it: the fields of every object in order.
pub open spec fn payload(
    kind: EntryKind,
    value: JsonView,
    tools: Seq<ToolSemantics>,
) -> JsonView {
    match value {
        JsonView::Object(fields) => sorted_json(
            JsonView::Object(neutral_fields(kind, fields, tools)),
        ),
        _ => value,
    }
}

/// The key by which an entry is compared.
pub open spec fn fingerprint(entry: ComparisonEntry) -> Seq<char> {
    rendered(payload(entry.kind, entry.value@, tools_of(entry.semantics)))
}

fn normalize_message(
    message: &Vec<(String, Json)>,
    semantics: &Option<EntrySemantics>,
) -> (r: Json)
    ensures
        r@ == JsonView::Object(neutral_message(fields_view(message@), tools_of(*semantics))),
{
    let neutral: Option<Json> = match json::get(message, "content") {
        Some(content) => Some(normalize_content_blocks(content, semantics)),
        None => None,
    };
    let mut fields = copy_fields(message);
    match neutral {
        Some(content) => json::set_field(&mut fields, "content", content),
        None => {},
    }
    Json::Object(fields)
}

fn copy_fields(fields: &Vec<(String, Json)>) -> (r: Vec<(String, Json)>)
    ensures
        fields_view(r@) == fields_view(fields@),
{
    let mut out: Vec<(String, Json)> = Vec::new();
    let mut i: usize = 0;
    proof {
        assert(fields@.take(0) =~= Seq::empty());
    }
    while i < fields.len()
        invariant
            i <= fields@.len(),
            fields_view(out@) == fields_view(fields@.take(i as int)),
        decreases fields@.len() - i,
    {
        let entry = (fields[i].0.clone(), fields[i].1.copy());
        proof {
            let part = fields@.take(i as int);
            assert(fields@.take(i + 1) =~= part.push(fields@[i as int]));
            json::lemma_fields_push(part, fields@[i as int]);
            json::lemma_fields_push(out@, entry);
        }
        out.push(entry);
        i = i + 1;
    }
    proof {
        assert(fields@.take(i as int) =~= fields@);
    }
    out
}

fn normalize_fields(
    kind: EntryKind,
    fields: &Vec<(String, Json)>,
    semantics: &Option<EntrySemantics>,
) -> (r: Vec<(String, Json)>)
    ensures
        fields_view(r@) == neutral_fields(kind, fields_view(fields@), tools_of(*semantics)),
{
    let mut top = remove_set(fields, FieldSet::Transport);
    match kind {
        EntryKind::Assistant => {
            let message: Option<Json> = match json::get(&top, "message") {
                Some(Json::Object(message)) => {
                    let kept = remove_set(message, FieldSet::Answer);
                    Some(normalize_message(&kept, semantics))
                },
                _ => None,
            };
            match message {
                Some(message) => json::set_field(&mut top, "message", message),
                None => {},
            }
            top
        },
        EntryKind::User => {
            let message: Option<Json> = match json::get(&top, "message") {
                Some(Json::Object(message)) => Some(normalize_message(message, semantics)),
                _ => None,
            };
            match message {
                Some(message) => json::set_field(&mut top, "message", message),
                None => {},
            }
            top
        },
        EntryKind::System => remove_set(&top, FieldSet::System),
        EntryKind::Summary => remove_set(&top, FieldSet::Summary),
        EntryKind::FileHistorySnapshot => {
            let mut outer = remove_set(&top, FieldSet::Snapshot);
            let record: Option<Json> = match json::get(&outer, "snapshot") {
                Some(Json::Object(record)) => Some(
                    Json::Object(remove_set(record, FieldSet::SnapshotRecord)),
                ),
                _ => None,
            };
            match record {
                Some(record) => json::set_field(&mut outer, "snapshot", record),
                None => {},
            }
            outer
        },
        EntryKind::Other => top,
    }
}

/// The key by which an entry is compared: what it says, without what identifies it.
pub fn semantic_fingerprint(entry: &ComparisonEntry) -> (r: String)
    ensures
        r@ == fingerprint(*entry),
{
    match &entry.value {
        Json::Object(fields) => {
            let neutral = normalize_fields(entry.kind, fields, &entry.semantics);
            let value = Json::Object(neutral);
            let sorted = json::sort_json_objects(&value);
            json::render(&sorted)
        },
        other => json::render(other),
    }
}

// ---------------------------------------------------------------------------
// The comparison
// ---------------------------------------------------------------------------

/// What becomes of a run of messages.
#[derive(Debug, Clone, Copy, PartialEq, Eq, Structural)]
pub enum Change {
    /// It is in both.
    Keep,
    /// It is only in the first.
    Remove,
    /// It is only in the second.
    Insert,
}

/// The steps lead from the first list to the second: runs that are kept stand in both, runs
/// that are removed in the first and runs that are inserted in the second, in order and with
/// nothing left over.
pub open spec fn leads(
    first: Seq<Seq<char>>,
    second: Seq<Seq<char>>,
    steps: Seq<(Change, usize)>,
) -> bool
    decreases steps.len(),
{
    if steps.len() == 0 {
        first.len() == 0 && second.len() == 0
    } else {
        let n = steps[0].1 as int;
        match steps[0].0 {
            Change::Keep => {
                &&& n <= first.len()
                &&& n <= second.len()
                &&& first.take(n) == second.take(n)
                &&& leads(first.skip(n), second.skip(n), steps.drop_first())
            },
            Change::Remove => n <= first.len() && leads(first.skip(n), second, steps.drop_first()),
            Change::Insert => n <= second.len() && leads(first, second.skip(n), steps.drop_first()),
        }
    }
}

/// The number of elements in the steps of one sort.
pub open spec fn amount(steps: Seq<(Change, usize)>, change: Change) -> int
    decreases steps.len(),
{
    if steps.len() == 0 {
        0
    } else {
        amount(steps.drop_first(), change) + (if steps[0].0 == change {
            steps[0].1 as int
        } else {
            0
        })
    }
}

/// The length of a longest list that is left of both lists when elements are taken out.
pub open spec fn common_length(first: Seq<Seq<char>>, second: Seq<Seq<char>>) -> int
    decreases first.len() + second.len(),
{
    if first.len() == 0 || second.len() == 0 {
        0
    } else if first.last() == second.last() {
        common_length(first.drop_last(), second.drop_last()) + 1
    } else {
        let a = common_length(first.drop_last(), second);
        let b = common_length(first, second.drop_last());
        if a < b {
            b
        } else {
            a
        }
    }
}

/// The steps that `similar::utils::diff_slices` finds with Myers' algorithm.
pub uninterp spec fn myers_steps(first: Seq<Seq<char>>, second: Seq<Seq<char>>) -> Seq<
    (Change, usize),
>;

/// `similar::utils::diff_slices` with Myers' algorithm: the runs of a diff of two lists, each
/// with its tag and its length. The runs lead from the first list to the second, keep as many
/// elements as a longest common subsequence has, and of two equal lists every run is kept. Which
/// of the diffs of that length comes out is a function of the two lists, and is not said here.
#[verifier::external_body]
pub(crate) fn diff_slices(first: &Vec<String>, second: &Vec<String>) -> (r: Vec<(Change, usize)>)
    ensures
        r@ == myers_steps(views(first@), views(second@)),
        leads(views(first@), views(second@), r@),
        amount(r@, Change::Keep) == common_length(views(first@), views(second@)),
        views(first@) == views(second@) ==> forall|i: int|
            0 <= i < r@.len() ==> (#[trigger] r@[i]).0 == Change::Keep,
{
    similar::utils::diff_slices(similar::Algorithm::Myers, first, second)
        .into_iter()
        .map(|(tag, run)| match tag {
            similar::ChangeTag::Equal => (Change::Keep, run.len()),
            similar::ChangeTag::Delete => (Change::Remove, run.len()),
            similar::ChangeTag::Insert => (Change::Insert, run.len()),
        })
        .collect()
}

/// The sizes of a diff.
pub proof fn lemma_leads(
    first: Seq<Seq<char>>,
    second: Seq<Seq<char>>,
    steps: Seq<(Change, usize)>,
)
    requires
        leads(first, second, steps),
    ensures
        amount(steps, Change::Keep) + amount(steps, Change::Remove) == first.len(),
        amount(steps, Change::Keep) + amount(steps, Change::Insert) == second.len(),
        amount(steps, Change::Keep) >= 0,
        amount(steps, Change::Remove) >= 0,
        amount(steps, Change::Insert) >= 0,
        amount(steps, Change::Remove) == 0 && amount(steps, Change::Insert) == 0 ==> first == second,
    decreases steps.len(),
{
    if steps.len() == 0 {
        assert(first =~= second);
    } else {
        let n = steps[0].1 as int;
        let rest = steps.drop_first();
        match steps[0].0 {
            Change::Keep => {
                lemma_leads(first.skip(n), second.skip(n), rest);
                assert(first =~= first.take(n) + first.skip(n));
                assert(second =~= second.take(n) + second.skip(n));
            },
            Change::Remove => {
                lemma_leads(first.skip(n), second, rest);
                if n == 0 {
                    assert(first.skip(n) =~= first);
                }
            },
            Change::Insert => {
                lemma_leads(first, second.skip(n), rest);
                if n == 0 {
                    assert(second.skip(n) =~= second);
                }
            },
        }
    }
}

proof fn lemma_all_kept(steps: Seq<(Change, usize)>)
    requires
        forall|i: int| 0 <= i < steps.len() ==> (#[trigger] steps[i]).0 == Change::Keep,
    ensures
        amount(steps, Change::Remove) == 0,
        amount(steps, Change::Insert) == 0,
    decreases steps.len(),
{
    if steps.len() > 0 {
        let rest = steps.drop_first();
        assert forall|i: int| 0 <= i < rest.len() implies (#[trigger] rest[i]).0
            == Change::Keep by {
            assert(rest[i] == steps[i + 1]);
        }
        lemma_all_kept(rest);
    }
}

/// The result of comparing two conversations.
#[derive(Debug, Clone, Copy, PartialEq, Eq, Structural)]
pub struct ConversationDiff {
    /// Message count in first conversation.
    pub first_message_count: usize,
    /// Message count in second conversation.
    pub second_message_count: usize,
    /// Messages added in second.
    pub added_messages: usize,
    /// Messages removed from first.
    pub removed_messages: usize,
    /// Common messages in the ordered identity-neutral payload diff.
    pub common_messages: usize,
    /// User message count in first.
    pub first_user_count: usize,
    /// Assistant message count in first.
    pub first_assistant_count: usize,
    /// User message count in second.
    pub second_user_count: usize,
    /// Assistant message count in second.
    pub second_assistant_count: usize,
    /// Branch count in first.
    pub first_branch_count: usize,
    /// Branch count in second.
    pub second_branch_count: usize,
}

impl Default for ConversationDiff {
    fn default() -> (r: ConversationDiff)
        ensures
            r == (ConversationDiff {
                first_message_count: 0,
                second_message_count: 0,
                added_messages: 0,
                removed_messages: 0,
                common_messages: 0,
                first_user_count: 0,
                first_assistant_count: 0,
                second_user_count: 0,
                second_assistant_count: 0,
                first_branch_count: 0,
                second_branch_count: 0,
            }),
    {
        ConversationDiff {
            first_message_count: 0,
            second_message_count: 0,
            added_messages: 0,
            removed_messages: 0,
            common_messages: 0,
            first_user_count: 0,
            first_assistant_count: 0,
            second_user_count: 0,
            second_assistant_count: 0,
            first_branch_count: 0,
            second_branch_count: 0,
        }
    }
}

impl ConversationDiff {
    /// Nothing was added and nothing removed.
    pub open spec fn identical(&self) -> bool {
        self.added_messages == 0 && self.removed_messages == 0
    }

    /// Whether the conversations say the same.
    #[must_use]
    pub fn is_identical(&self) -> (r: bool)
        ensures
            r == self.identical(),
    {
        self.added_messages == 0 && self.removed_messages == 0
    }
}

/// The fingerprints of the compared entries.
pub open spec fn fingerprints(entries: Seq<ComparisonEntry>, chosen: Seq<int>) -> Seq<Seq<char>> {
    Seq::new(chosen.len(), |i: int| fingerprint(entries[chosen[i]]))
}

/// The number of messages of the user.
pub open spec fn user_count(entries: Seq<ComparisonEntry>, chosen: Seq<int>) -> int
    decreases chosen.len(),
{
    if chosen.len() == 0 {
        0
    } else {
        user_count(entries, chosen.drop_last()) + (if entries[chosen.last()].message_type@
            == "user"@ {
            1int
        } else {
            0int
        })
    }
}

/// The ids of the assistant's messages, each once.
pub open spec fn answer_ids(entries: Seq<ComparisonEntry>, chosen: Seq<int>) -> Seq<Seq<char>>
    decreases chosen.len(),
{
    if chosen.len() == 0 {
        Seq::empty()
    } else {
        let before = answer_ids(entries, chosen.drop_last());
        let entry = entries[chosen.last()];
        match entry.message_id {
            Some(id) if entry.kind == EntryKind::Assistant => with_name(before, id@),
            _ => before,
        }
    }
}

fn fingerprint_entries(entries: &Vec<ComparisonEntry>, chosen: &Vec<usize>) -> (r: Vec<String>)
    requires
        forall|k: int| 0 <= k < chosen@.len() ==> #[trigger] chosen@[k] < entries@.len(),
    ensures
        views(r@) == fingerprints(entries@, places(chosen@)),
{
    let mut out: Vec<String> = Vec::new();
    let mut i: usize = 0;
    while i < chosen.len()
        invariant
            forall|k: int| 0 <= k < chosen@.len() ==> #[trigger] chosen@[k] < entries@.len(),
            i <= chosen@.len(),
            out@.len() == i,
            forall|k: int|
                0 <= k < i ==> (#[trigger] out@[k])@ == fingerprint(entries@[chosen@[k] as int]),
        decreases chosen@.len() - i,
    {
        out.push(semantic_fingerprint(&entries[chosen[i]]));
        i = i + 1;
    }
    proof {
        assert(views(out@) =~= fingerprints(entries@, places(chosen@)));
    }
    out
}

fn count_users(entries: &Vec<ComparisonEntry>, chosen: &Vec<usize>) -> (r: usize)
    requires
        forall|k: int| 0 <= k < chosen@.len() ==> #[trigger] chosen@[k] < entries@.len(),
    ensures
        r == user_count(entries@, places(chosen@)),
{
    let mut n: usize = 0;
    let mut i: usize = 0;
    proof {
        assert(places(chosen@).take(0) =~= Seq::empty());
    }
    while i < chosen.len()
        invariant
            forall|k: int| 0 <= k < chosen@.len() ==> #[trigger] chosen@[k] < entries@.len(),
            i <= chosen@.len(),
            n <= i,
            n == user_count(entries@, places(chosen@).take(i as int)),
        decreases chosen@.len() - i,
    {
        proof {
            let next = places(chosen@).take(i + 1);
            assert(next.drop_last() =~= places(chosen@).take(i as int));
            assert(next.last() == chosen@[i as int]);
        }
        if text::same(entries[chosen[i]].message_type.as_str(), "user") {
            n = n + 1;
        }
        i = i + 1;
    }
    proof {
        assert(places(chosen@).take(i as int) =~= places(chosen@));
    }
    n
}

/// The number of turns of the assistant: the parts of one message are one turn.
fn assistant_group_count(entries: &Vec<ComparisonEntry>, chosen: &Vec<usize>) -> (r: usize)
    requires
        forall|k: int| 0 <= k < chosen@.len() ==> #[trigger] chosen@[k] < entries@.len(),
    ensures
        r == answer_ids(entries@, places(chosen@)).len(),
{
    let mut ids: Vec<String> = Vec::new();
    let mut i: usize = 0;
    proof {
        assert(places(chosen@).take(0) =~= Seq::empty());
        assert(views(ids@) =~= Seq::empty());
    }
    while i < chosen.len()
        invariant
            forall|k: int| 0 <= k < chosen@.len() ==> #[trigger] chosen@[k] < entries@.len(),
            i <= chosen@.len(),
            views(ids@) == answer_ids(entries@, places(chosen@).take(i as int)),
        decreases chosen@.len() - i,
    {
        proof {
            let next = places(chosen@).take(i + 1);
            assert(next.drop_last() =~= places(chosen@).take(i as int));
            assert(next.last() == chosen@[i as int]);
        }
        let entry = &entries[chosen[i]];
        if entry.kind == EntryKind::Assistant {
            match &entry.message_id {
                Some(id) => names::insert_name(&mut ids, id.clone()),
                None => {},
            }
        }
        i = i + 1;
    }
    proof {
        assert(places(chosen@).take(i as int) =~= places(chosen@));
    }
    ids.len()
}

/// The comparison of two conversations, given the steps of the diff of their fingerprints.
pub open spec fn is_diff_of(
    diff: ConversationDiff,
    first: Conversation,
    second: Conversation,
    types: Option<Seq<Seq<char>>>,
    human_prompts_only: bool,
    steps: Seq<(Change, usize)>,
) -> bool {
    let a = compared_places(first.entries@, types, human_prompts_only);
    let b = compared_places(second.entries@, types, human_prompts_only);
    &&& diff.first_message_count == a.len()
    &&& diff.second_message_count == b.len()
    &&& diff.common_messages == amount(steps, Change::Keep)
    &&& diff.removed_messages == amount(steps, Change::Remove)
    &&& diff.added_messages == amount(steps, Change::Insert)
    &&& diff.first_user_count == user_count(first.entries@, a)
    &&& diff.second_user_count == user_count(second.entries@, b)
    &&& diff.first_assistant_count == answer_ids(first.entries@, a).len()
    &&& diff.second_assistant_count == answer_ids(second.entries@, b).len()
    &&& diff.first_branch_count == first.branch_count
    &&& diff.second_branch_count == second.branch_count
}

/// The fingerprints of what is compared of a conversation.
pub open spec fn compared_fingerprints(
    conversation: Conversation,
    types: Option<Seq<Seq<char>>>,
    human_prompts_only: bool,
) -> Seq<Seq<char>> {
    fingerprints(
        conversation.entries@,
        compared_places(conversation.entries@, types, human_prompts_only),
    )
}

/// The number of elements in the steps of each sort: kept, removed, inserted.
pub fn tally_steps(steps: &Vec<(Change, usize)>, total: usize, other: usize) -> (r: (
    usize,
    usize,
    usize,
))
    requires
        amount(steps@, Change::Keep) + amount(steps@, Change::Remove) <= total,
        amount(steps@, Change::Insert) <= other,
    ensures
        r.0 == amount(steps@, Change::Keep),
        r.1 == amount(steps@, Change::Remove),
        r.2 == amount(steps@, Change::Insert),
{
    let mut keep: usize = 0;
    let mut remove: usize = 0;
    let mut insert: usize = 0;
    let mut i: usize = steps.len();
    proof {
        assert(steps@.skip(i as int) =~= Seq::empty());
    }
    while i > 0
        invariant
            i <= steps@.len(),
            amount(steps@, Change::Keep) + amount(steps@, Change::Remove) <= total,
            amount(steps@, Change::Insert) <= other,
            keep == amount(steps@.skip(i as int), Change::Keep),
            remove == amount(steps@.skip(i as int), Change::Remove),
            insert == amount(steps@.skip(i as int), Change::Insert),
        decreases i,
    {
        proof {
            let part = steps@.skip(i - 1);
            assert(part[0] == steps@[i - 1]);
            assert(part.drop_first() =~= steps@.skip(i as int));
            lemma_amount_part(steps@, i - 1, Change::Keep);
            lemma_amount_part(steps@, i - 1, Change::Remove);
            lemma_amount_part(steps@, i - 1, Change::Insert);
            lemma_amount_part(steps@, i as int, Change::Keep);
            lemma_amount_part(steps@, i as int, Change::Remove);
        }
        let (change, n) = steps[i - 1];
        match change {
            Change::Keep => {
                keep = keep + n;
            },
            Change::Remove => {
                remove = remove + n;
            },
            Change::Insert => {
                insert = insert + n;
            },
        }
        i = i - 1;
    }
    proof {
        assert(steps@.skip(0) =~= steps@);
    }
    (keep, remove, insert)
}

proof fn lemma_amount_part(steps: Seq<(Change, usize)>, k: int, change: Change)
    requires
        0 <= k <= steps.len(),
    ensures
        0 <= amount(steps.skip(k), change) <= amount(steps, change),
    decreases steps.len(),
{
    if k == 0 {
        assert(steps.skip(0) =~= steps);
        if steps.len() > 0 {
            lemma_amount_part(steps.drop_first(), 0, change);
            assert(steps.drop_first().skip(0) =~= steps.drop_first());
        }
    } else {
        lemma_amount_part(steps.drop_first(), k - 1, change);
        assert(steps.drop_first().skip(k - 1) =~= steps.skip(k));
    }
}

/// Compares what two conversations say, in order, of the messages that are asked for.
pub fn compare_conversations_filtered(
    first: &Conversation,
    second: &Conversation,
    types: Option<&Vec<String>>,
    human_prompts_only: bool,
) -> (r: ConversationDiff)
    ensures
        ({
            let wanted = match types {
                Some(t) => Some(views(t@)),
                None => None,
            };
            let a = compared_fingerprints(*first, wanted, human_prompts_only);
            let b = compared_fingerprints(*second, wanted, human_prompts_only);
            &&& is_diff_of(r, *first, *second, wanted, human_prompts_only, myers_steps(a, b))
            &&& compares_as(r, *first, *second, wanted, human_prompts_only)
            &&& r.identical() <==> a == b
        }),
{
    let chosen_first = comparison_entries(&first.entries, types, human_prompts_only);
    let chosen_second = comparison_entries(&second.entries, types, human_prompts_only);
    let prints_first = fingerprint_entries(&first.entries, &chosen_first);
    let prints_second = fingerprint_entries(&second.entries, &chosen_second);
    let steps = diff_slices(&prints_first, &prints_second);
    proof {
        lemma_leads(views(prints_first@), views(prints_second@), steps@);
        if views(prints_first@) == views(prints_second@) {
            lemma_all_kept(steps@);
        }
    }
    let (common, removed, added) = tally_steps(&steps, prints_first.len(), prints_second.len());
    ConversationDiff {
        first_message_count: chosen_first.len(),
        second_message_count: chosen_second.len(),
        added_messages: added,
        removed_messages: removed,
        common_messages: common,
        first_user_count: count_users(&first.entries, &chosen_first),
        first_assistant_count: assistant_group_count(&first.entries, &chosen_first),
        second_user_count: count_users(&second.entries, &chosen_second),
        second_assistant_count: assistant_group_count(&second.entries, &chosen_second),
        first_branch_count: first.branch_count,
        second_branch_count: second.branch_count,
    }
}

/// Compares what two conversations say, in order.
pub fn compare_conversations(first: &Conversation, second: &Conversation) -> (r: ConversationDiff)
    ensures
        ({
            let a = compared_fingerprints(*first, None, false);
            let b = compared_fingerprints(*second, None, false);
            &&& is_diff_of(r, *first, *second, None, false, myers_steps(a, b))
            &&& compares_as(r, *first, *second, None, false)
            &&& r.identical() <==> a == b
        }),
{
    compare_conversations_filtered(first, second, None, false)
}

// ---------------------------------------------------------------------------
// What holds of every comparison
// ---------------------------------------------------------------------------

/// One list is left of another when elements are taken out.
pub open spec fn is_left_of(part: Seq<Seq<char>>, whole: Seq<Seq<char>>) -> bool
    decreases whole.len(),
{
    if part.len() == 0 {
        true
    } else if whole.len() == 0 {
        false
    } else {
        ||| is_left_of(part, whole.drop_last())
        ||| part.last() == whole.last() && is_left_of(part.drop_last(), whole.drop_last())
    }
}

proof fn lemma_left_shorter(part: Seq<Seq<char>>, whole: Seq<Seq<char>>)
    requires
        part.len() > 0,
        is_left_of(part, whole),
    ensures
        is_left_of(part.drop_last(), whole),
        is_left_of(part.drop_last(), whole.drop_last()),
    decreases whole.len(),
{
    if is_left_of(part, whole.drop_last()) {
        lemma_left_shorter(part, whole.drop_last());
    }
    if part.drop_last().len() > 0 && !is_left_of(part.drop_last(), whole) {
        assert(is_left_of(part.drop_last(), whole.drop_last()));
    }
}

/// As many messages as possible are common: no list that is left of both when messages are taken
/// out is longer, and one is as long.
pub proof fn common_messages_are_most(first: Seq<Seq<char>>, second: Seq<Seq<char>>)
    ensures
        forall|part: Seq<Seq<char>>|
            is_left_of(part, first) && #[trigger] is_left_of(part, second) ==> part.len()
                <= common_length(first, second),
        exists|part: Seq<Seq<char>>|
            is_left_of(part, first) && #[trigger] is_left_of(part, second) && part.len()
                == common_length(first, second),
    decreases first.len() + second.len(),
{
    if first.len() == 0 || second.len() == 0 {
        assert(is_left_of(Seq::<Seq<char>>::empty(), first));
        assert(is_left_of(Seq::<Seq<char>>::empty(), second));
    } else if first.last() == second.last() {
        let a = first.drop_last();
        let b = second.drop_last();
        common_messages_are_most(a, b);
        assert forall|part: Seq<Seq<char>>|
            is_left_of(part, first) && #[trigger] is_left_of(part, second) implies part.len()
            <= common_length(first, second) by {
            if part.len() > 0 {
                lemma_left_shorter(part, first);
                lemma_left_shorter(part, second);
                assert(is_left_of(part.drop_last(), a) && is_left_of(part.drop_last(), b));
            }
        }
        let part = choose|part: Seq<Seq<char>>|
            is_left_of(part, a) && #[trigger] is_left_of(part, b) && part.len() == common_length(
                a,
                b,
            );
        let longer = part.push(first.last());
        assert(longer.drop_last() =~= part);
        assert(is_left_of(longer, first) && is_left_of(longer, second));
    } else {
        let a = first.drop_last();
        let b = second.drop_last();
        common_messages_are_most(a, second);
        common_messages_are_most(first, b);
        assert forall|part: Seq<Seq<char>>|
            is_left_of(part, first) && #[trigger] is_left_of(part, second) implies part.len()
            <= common_length(first, second) by {
            if part.len() > 0 {
                if part.last() != first.last() {
                    assert(is_left_of(part, a));
                } else {
                    assert(is_left_of(part, b));
                }
            } else {
                lemma_common_not_negative(first, second);
            }
        }
        if common_length(a, second) >= common_length(first, b) {
            let part = choose|part: Seq<Seq<char>>|
                is_left_of(part, a) && #[trigger] is_left_of(part, second) && part.len()
                    == common_length(a, second);
            assert(is_left_of(part, first) && is_left_of(part, second));
        } else {
            let part = choose|part: Seq<Seq<char>>|
                is_left_of(part, first) && #[trigger] is_left_of(part, b) && part.len()
                    == common_length(first, b);
            assert(is_left_of(part, first) && is_left_of(part, second));
        }
    }
}

proof fn lemma_common_not_negative(first: Seq<Seq<char>>, second: Seq<Seq<char>>)
    ensures
        0 <= common_length(first, second),
    decreases first.len() + second.len(),
{
    if first.len() > 0 && second.len() > 0 {
        lemma_common_not_negative(first.drop_last(), second.drop_last());
        lemma_common_not_negative(first.drop_last(), second);
        lemma_common_not_negative(first, second.drop_last());
    }
}

proof fn lemma_common_swaps(first: Seq<Seq<char>>, second: Seq<Seq<char>>)
    ensures
        common_length(first, second) == common_length(second, first),
    decreases first.len() + second.len(),
{
    if first.len() > 0 && second.len() > 0 {
        lemma_common_swaps(first.drop_last(), second.drop_last());
        lemma_common_swaps(first.drop_last(), second);
        lemma_common_swaps(first, second.drop_last());
    }
}

/// What a comparison says of two conversations, whichever steps lead from one to the other: the
/// numbers of messages, of their kinds and of branches, and as many common messages as possible.
pub open spec fn compares_as(
    diff: ConversationDiff,
    first: Conversation,
    second: Conversation,
    types: Option<Seq<Seq<char>>>,
    human_prompts_only: bool,
) -> bool {
    let a = compared_places(first.entries@, types, human_prompts_only);
    let b = compared_places(second.entries@, types, human_prompts_only);
    &&& diff.common_messages == common_length(
        compared_fingerprints(first, types, human_prompts_only),
        compared_fingerprints(second, types, human_prompts_only),
    )
    &&& diff.common_messages + diff.removed_messages == diff.first_message_count
    &&& diff.common_messages + diff.added_messages == diff.second_message_count
    &&& diff.first_message_count == a.len()
    &&& diff.second_message_count == b.len()
    &&& diff.first_user_count == user_count(first.entries@, a)
    &&& diff.second_user_count == user_count(second.entries@, b)
    &&& diff.first_assistant_count == answer_ids(first.entries@, a).len()
    &&& diff.second_assistant_count == answer_ids(second.entries@, b).len()
    &&& diff.first_branch_count == first.branch_count
    &&& diff.second_branch_count == second.branch_count
}

/// The same comparison seen from the other side.
pub open spec fn turned(diff: ConversationDiff) -> ConversationDiff {
    ConversationDiff {
        first_message_count: diff.second_message_count,
        second_message_count: diff.first_message_count,
        added_messages: diff.removed_messages,
        removed_messages: diff.added_messages,
        common_messages: diff.common_messages,
        first_user_count: diff.second_user_count,
        first_assistant_count: diff.second_assistant_count,
        second_user_count: diff.first_user_count,
        second_assistant_count: diff.first_assistant_count,
        first_branch_count: diff.second_branch_count,
        second_branch_count: diff.first_branch_count,
    }
}

/// Comparing the other way round swaps the sides, and nothing else; and a conversation compared
/// with itself is the same.
pub proof fn comparisons_turn(
    there: ConversationDiff,
    back: ConversationDiff,
    own: ConversationDiff,
    first: Conversation,
    second: Conversation,
    types: Option<Seq<Seq<char>>>,
    human_prompts_only: bool,
)
    requires
        compares_as(there, first, second, types, human_prompts_only),
        compares_as(back, second, first, types, human_prompts_only),
        compares_as(own, first, first, types, human_prompts_only),
    ensures
        back == turned(there),
        own.identical(),
{
    let a = compared_fingerprints(first, types, human_prompts_only);
    let b = compared_fingerprints(second, types, human_prompts_only);
    lemma_common_swaps(a, b);
    lemma_common_with_itself(a);
}

proof fn lemma_common_with_itself(list: Seq<Seq<char>>)
    ensures
        common_length(list, list) == list.len(),
    decreases list.len(),
{
    if list.len() > 0 {
        lemma_common_with_itself(list.drop_last());
    }
}

/// The kind of an entry and the name of its type, which is written in lower case, agree.
pub open spec fn is_valid_entry(e: ComparisonEntry) -> bool {
    &&& e.kind == EntryKind::User <==> e.message_type@ == "user"@
    &&& e.kind == EntryKind::Assistant <==> e.message_type@ == "assistant"@
    &&& lowercase(e.message_type@) == e.message_type@
}

/// Every entry of the conversation is valid.
pub open spec fn is_valid_conversation(c: Conversation) -> bool {
    forall|i: int| 0 <= i < c.entries@.len() ==> is_valid_entry(#[trigger] c.entries@[i])
}

proof fn lemma_places_in_range(
    entries: Seq<ComparisonEntry>,
    types: Option<Seq<Seq<char>>>,
    human_prompts_only: bool,
)
    ensures
        forall|k: int|
            0 <= k < compared_places(entries, types, human_prompts_only).len() ==> 0
                <= #[trigger] compared_places(entries, types, human_prompts_only)[k]
                < entries.len() && is_compared(
                entries[compared_places(entries, types, human_prompts_only)[k]],
                types,
                human_prompts_only,
            ),
    decreases entries.len(),
{
    if entries.len() > 0 {
        let front = entries.drop_last();
        lemma_places_in_range(front, types, human_prompts_only);
        let before = compared_places(front, types, human_prompts_only);
        let all = compared_places(entries, types, human_prompts_only);
        assert forall|k: int| 0 <= k < all.len() implies 0 <= #[trigger] all[k] < entries.len()
            && is_compared(entries[all[k]], types, human_prompts_only) by {
            if k < before.len() {
                assert(all[k] == before[k]);
                assert(entries[before[k]] == front[before[k]]);
            }
        }
    }
}

proof fn lemma_name_adds_one(sorted: Seq<Seq<char>>, name: Seq<char>)
    ensures
        with_name(sorted, name).len() <= sorted.len() + 1,
    decreases sorted.len(),
{
    if sorted.len() > 0 {
        lemma_name_adds_one(sorted.drop_last(), name);
    }
}

proof fn lemma_kinds_of(entries: Seq<ComparisonEntry>, chosen: Seq<int>)
    requires
        forall|k: int|
            0 <= k < chosen.len() ==> 0 <= #[trigger] chosen[k] < entries.len() && is_valid_entry(
                entries[chosen[k]],
            ),
    ensures
        user_count(entries, chosen) + answer_ids(entries, chosen).len() <= chosen.len(),
    decreases chosen.len(),
{
    reveal_strlit("user");
    reveal_strlit("assistant");
    if chosen.len() > 0 {
        let front = chosen.drop_last();
        assert forall|k: int| 0 <= k < front.len() implies 0 <= #[trigger] front[k]
            < entries.len() && is_valid_entry(entries[front[k]]) by {
            assert(front[k] == chosen[k]);
        }
        lemma_kinds_of(entries, front);
        assert(chosen.last() == chosen[chosen.len() - 1]);
        let e = entries[chosen.last()];
        match e.message_id {
            Some(id) => {
                lemma_name_adds_one(answer_ids(entries, front), id@);
            },
            None => {},
        }
    }
}

/// The messages of the user and the turns of the assistant are together no more than the messages.
pub proof fn kinds_are_among_messages(
    diff: ConversationDiff,
    first: Conversation,
    second: Conversation,
    types: Option<Seq<Seq<char>>>,
    human_prompts_only: bool,
)
    requires
        is_valid_conversation(first),
        is_valid_conversation(second),
        compares_as(diff, first, second, types, human_prompts_only),
    ensures
        diff.first_user_count + diff.first_assistant_count <= diff.first_message_count,
        diff.second_user_count + diff.second_assistant_count <= diff.second_message_count,
{
    lemma_places_in_range(first.entries@, types, human_prompts_only);
    lemma_places_in_range(second.entries@, types, human_prompts_only);
    lemma_kinds_of(
        first.entries@,
        compared_places(first.entries@, types, human_prompts_only),
    );
    lemma_kinds_of(
        second.entries@,
        compared_places(second.entries@, types, human_prompts_only),
    );
}

proof fn lemma_only_users(entries: Seq<ComparisonEntry>, chosen: Seq<int>)
    requires
        forall|k: int|
            0 <= k < chosen.len() ==> 0 <= #[trigger] chosen[k] < entries.len() && is_valid_entry(
                entries[chosen[k]],
            ) && entries[chosen[k]].message_type@ == "user"@,
    ensures
        user_count(entries, chosen) == chosen.len(),
        answer_ids(entries, chosen).len() == 0,
    decreases chosen.len(),
{
    if chosen.len() > 0 {
        let front = chosen.drop_last();
        assert forall|k: int| 0 <= k < front.len() implies 0 <= #[trigger] front[k]
            < entries.len() && is_valid_entry(entries[front[k]]) && entries[front[k]].message_type@
            == "user"@ by {
            assert(front[k] == chosen[k]);
        }
        lemma_only_users(entries, front);
        assert(chosen.last() == chosen[chosen.len() - 1]);
    }
}

proof fn lemma_users_agree(entries: Seq<ComparisonEntry>, human_prompts_only: bool)
    requires
        forall|i: int| 0 <= i < entries.len() ==> is_valid_entry(#[trigger] entries[i]),
    ensures
        user_count(
            entries,
            compared_places(entries, Some(seq!["user"@]), human_prompts_only),
        ) <= user_count(entries, compared_places(entries, None, false)),
        !human_prompts_only ==> user_count(
            entries,
            compared_places(entries, Some(seq!["user"@]), human_prompts_only),
        ) == user_count(entries, compared_places(entries, None, false)),
    decreases entries.len(),
{
    if entries.len() > 0 {
        let front = entries.drop_last();
        let e = entries.last();
        assert(e == entries[entries.len() - 1]);
        assert forall|i: int| 0 <= i < front.len() implies is_valid_entry(#[trigger] front[i]) by {
            assert(front[i] == entries[i]);
        }
        lemma_users_agree(front, human_prompts_only);
        let users = Some(seq!["user"@]);
        lemma_places_in_range(front, users, human_prompts_only);
        lemma_places_in_range(front, None, false);
        let few = compared_places(front, users, human_prompts_only);
        let all = compared_places(front, None, false);
        lemma_count_in_front(entries, few);
        lemma_count_in_front(entries, all);
        let last = entries.len() - 1;
        assert(few.push(last).drop_last() =~= few);
        assert(all.push(last).drop_last() =~= all);
        assert(seq!["user"@].contains(e.message_type@) <==> e.message_type@ == "user"@) by {
            assert(seq!["user"@][0] == "user"@);
        }
    }
}

proof fn lemma_count_in_front(entries: Seq<ComparisonEntry>, chosen: Seq<int>)
    requires
        entries.len() > 0,
        forall|k: int| 0 <= k < chosen.len() ==> 0 <= #[trigger] chosen[k] < entries.len() - 1,
    ensures
        user_count(entries, chosen) == user_count(entries.drop_last(), chosen),
    decreases chosen.len(),
{
    if chosen.len() > 0 {
        let front = chosen.drop_last();
        assert forall|k: int| 0 <= k < front.len() implies 0 <= #[trigger] front[k]
            < entries.len() - 1 by {
            assert(front[k] == chosen[k]);
        }
        lemma_count_in_front(entries, front);
        assert(chosen.last() == chosen[chosen.len() - 1]);
    }
}

proof fn lemma_user_side(c: Conversation, human_prompts_only: bool)
    requires
        is_valid_conversation(c),
    ensures
        ({
            let few = compared_places(c.entries@, Some(seq!["user"@]), human_prompts_only);
            let all = compared_places(c.entries@, None, false);
            &&& user_count(c.entries@, few) == few.len()
            &&& answer_ids(c.entries@, few).len() == 0
            &&& few.len() <= user_count(c.entries@, all)
            &&& !human_prompts_only ==> few.len() == user_count(c.entries@, all)
        }),
{
    let users = Some(seq!["user"@]);
    let few = compared_places(c.entries@, users, human_prompts_only);
    lemma_places_in_range(c.entries@, users, human_prompts_only);
    assert forall|k: int| 0 <= k < few.len() implies 0 <= #[trigger] few[k] < c.entries@.len()
        && is_valid_entry(c.entries@[few[k]]) && c.entries@[few[k]].message_type@ == "user"@ by {
        let e = c.entries@[few[k]];
        assert(is_compared(e, users, human_prompts_only));
        assert(is_valid_entry(e));
    }
    lemma_only_users(c.entries@, few);
    lemma_users_agree(c.entries@, human_prompts_only);
}

/// Of a comparison of the messages of the user alone, every message is the user's and none the
/// assistant's; the branches are those of the whole conversations. Without regard to who wrote
/// them, all messages of the user are compared, else no more than those.
pub proof fn user_comparisons_hold_users(
    users: ConversationDiff,
    whole: ConversationDiff,
    first: Conversation,
    second: Conversation,
    human_prompts_only: bool,
)
    requires
        is_valid_conversation(first),
        is_valid_conversation(second),
        compares_as(users, first, second, Some(seq!["user"@]), human_prompts_only),
        compares_as(whole, first, second, None, false),
    ensures
        users.first_user_count == users.first_message_count,
        users.second_user_count == users.second_message_count,
        users.first_assistant_count == 0,
        users.second_assistant_count == 0,
        users.first_branch_count == whole.first_branch_count,
        users.second_branch_count == whole.second_branch_count,
        users.first_user_count <= whole.first_user_count,
        users.second_user_count <= whole.second_user_count,
        !human_prompts_only ==> users.first_user_count == whole.first_user_count,
        !human_prompts_only ==> users.second_user_count == whole.second_user_count,
{
    lemma_user_side(first, human_prompts_only);
    lemma_user_side(second, human_prompts_only);
}

// ---------------------------------------------------------------------------
// What fingerprints keep and what they leave out
// ---------------------------------------------------------------------------

proof fn lemma_without_ok(fields: Seq<(Seq<char>, JsonView)>, set: FieldSet)
    requires
        json::fields_ok(fields),
    ensures
        json::fields_ok(without(fields, set)),
    decreases fields.len(),
{
    if fields.len() > 0 {
        lemma_without_ok(fields.drop_last(), set);
        let before = without(fields.drop_last(), set);
        assert(before.push(fields.last()).drop_last() =~= before);
    }
}

proof fn lemma_field_ok(fields: Seq<(Seq<char>, JsonView)>, name: Seq<char>)
    requires
        json::fields_ok(fields),
    ensures
        match field(fields, name) {
            Some(value) => json::numbers_ok(value),
            None => true,
        },
    decreases fields.len(),
{
    json::lemma_fields_ok(fields);
    if fields.len() > 0 {
        assert(json::numbers_ok(fields[0].1));
        let rest = fields.drop_first();
        assert forall|i: int| 0 <= i < rest.len() implies json::numbers_ok(
            (#[trigger] rest[i]).1,
        ) by {
            assert(rest[i] == fields[i + 1]);
        }
        json::lemma_fields_ok(rest);
        lemma_field_ok(rest, name);
    }
}

proof fn lemma_with_field_ok(
    fields: Seq<(Seq<char>, JsonView)>,
    name: Seq<char>,
    value: JsonView,
)
    requires
        json::fields_ok(fields),
        json::numbers_ok(value),
    ensures
        json::fields_ok(with_field(fields, name, value)),
{
    let set = with_field(fields, name, value);
    json::lemma_fields_ok(fields);
    json::lemma_fields_ok(set);
    lemma_place_not_negative(fields, name);
    assert forall|i: int| 0 <= i < set.len() implies json::numbers_ok((#[trigger] set[i]).1) by {
        if i < fields.len() {
            assert(json::numbers_ok(fields[i].1));
        }
    }
}

proof fn lemma_place_not_negative(fields: Seq<(Seq<char>, JsonView)>, name: Seq<char>)
    ensures
        0 <= json::field_place(fields, name) <= fields.len(),
        json::field_place(fields, name) < fields.len() ==> fields[json::field_place(
            fields,
            name,
        )].0 == name,
    decreases fields.len(),
{
    if fields.len() > 0 && fields[0].0 != name {
        lemma_place_not_negative(fields.drop_first(), name);
    }
}

proof fn lemma_neutral_content_ok(content: JsonView, tools: Seq<ToolSemantics>)
    requires
        json::numbers_ok(content),
    ensures
        json::numbers_ok(neutral_content(content, tools)),
{
    match content {
        JsonView::Array(blocks) => {
            let neutral = neutral_blocks(blocks, tools);
            json::lemma_items_ok(blocks);
            json::lemma_items_ok(neutral);
            assert forall|i: int| 0 <= i < neutral.len() implies json::numbers_ok(
                #[trigger] neutral[i],
            ) by {
                assert(json::numbers_ok(blocks[i]));
                lemma_neutral_block_ok(blocks[i], tools);
            }
        },
        _ => {},
    }
}

proof fn lemma_neutral_block_ok(block: JsonView, tools: Seq<ToolSemantics>)
    requires
        json::numbers_ok(block),
    ensures
        json::numbers_ok(neutral_block(block, tools)),
{
    match block {
        JsonView::Object(fields) => {
            match call_label(fields, tools) {
                Some(label) => {
                    let name = JsonView::Text(label);
                    assert(json::numbers_ok(name));
                    lemma_with_field_ok(fields, "name"@, name);
                    lemma_without_ok(with_field(fields, "name"@, name), FieldSet::ToolUse);
                },
                None => {
                    lemma_without_ok(fields, FieldSet::ToolUse);
                },
            }
            lemma_without_ok(fields, FieldSet::ToolResult);
            lemma_without_ok(fields, FieldSet::Thinking);
        },
        _ => {},
    }
}

proof fn lemma_neutral_message_ok(fields: Seq<(Seq<char>, JsonView)>, tools: Seq<ToolSemantics>)
    requires
        json::fields_ok(fields),
    ensures
        json::fields_ok(neutral_message(fields, tools)),
{
    lemma_field_ok(fields, "content"@);
    match field(fields, "content"@) {
        Some(content) => {
            lemma_neutral_content_ok(content, tools);
            lemma_with_field_ok(fields, "content"@, neutral_content(content, tools));
        },
        None => {},
    }
}

proof fn lemma_neutral_fields_ok(
    kind: EntryKind,
    fields: Seq<(Seq<char>, JsonView)>,
    tools: Seq<ToolSemantics>,
)
    requires
        json::fields_ok(fields),
    ensures
        json::fields_ok(neutral_fields(kind, fields, tools)),
{
    lemma_without_ok(fields, FieldSet::Transport);
    let top = without(fields, FieldSet::Transport);
    lemma_field_ok(top, "message"@);
    match field(top, "message"@) {
        Some(JsonView::Object(message)) => {
            lemma_without_ok(message, FieldSet::Answer);
            lemma_neutral_message_ok(without(message, FieldSet::Answer), tools);
            lemma_neutral_message_ok(message, tools);
            lemma_with_field_ok(
                top,
                "message"@,
                JsonView::Object(neutral_message(without(message, FieldSet::Answer), tools)),
            );
            lemma_with_field_ok(
                top,
                "message"@,
                JsonView::Object(neutral_message(message, tools)),
            );
        },
        _ => {},
    }
    lemma_without_ok(top, FieldSet::System);
    lemma_without_ok(top, FieldSet::Summary);
    lemma_without_ok(top, FieldSet::Snapshot);
    let outer = without(top, FieldSet::Snapshot);
    lemma_field_ok(outer, "snapshot"@);
    match field(outer, "snapshot"@) {
        Some(JsonView::Object(record)) => {
            lemma_without_ok(record, FieldSet::SnapshotRecord);
            lemma_with_field_ok(
                outer,
                "snapshot"@,
                JsonView::Object(without(record, FieldSet::SnapshotRecord)),
            );
        },
        _ => {},
    }
}

/// The key of an entry is the same as that of another exactly where both say the same: no
/// part of what an entry says is lost in its key.
pub proof fn fingerprints_tell_payloads_apart(a: ComparisonEntry, b: ComparisonEntry)
    requires
        json::numbers_ok(a.value@),
        json::numbers_ok(b.value@),
    ensures
        fingerprint(a) == fingerprint(b) <==> payload(a.kind, a.value@, tools_of(a.semantics))
            == payload(b.kind, b.value@, tools_of(b.semantics)),
{
    lemma_payload_ok(a.kind, a.value@, tools_of(a.semantics));
    lemma_payload_ok(b.kind, b.value@, tools_of(b.semantics));
    json::text_tells_values_apart(
        payload(a.kind, a.value@, tools_of(a.semantics)),
        payload(b.kind, b.value@, tools_of(b.semantics)),
    );
}

proof fn lemma_payload_ok(kind: EntryKind, value: JsonView, tools: Seq<ToolSemantics>)
    requires
        json::numbers_ok(value),
    ensures
        json::numbers_ok(payload(kind, value, tools)),
{
    match value {
        JsonView::Object(fields) => {
            lemma_neutral_fields_ok(kind, fields, tools);
            json::lemma_sorted_ok(JsonView::Object(neutral_fields(kind, fields, tools)));
        },
        _ => {},
    }
}

proof fn lemma_without_update(
    fields: Seq<(Seq<char>, JsonView)>,
    k: int,
    value: JsonView,
    set: FieldSet,
)
    requires
        0 <= k < fields.len(),
        is_in_set(set, fields[k].0),
    ensures
        without(fields.update(k, (fields[k].0, value)), set) == without(fields, set),
    decreases fields.len(),
{
    let changed = fields.update(k, (fields[k].0, value));
    if k == fields.len() - 1 {
        assert(changed.drop_last() =~= fields.drop_last());
    } else {
        lemma_without_update(fields.drop_last(), k, value, set);
        assert(changed.drop_last() =~= fields.drop_last().update(k, (fields[k].0, value)));
    }
}

proof fn lemma_without_set(
    fields: Seq<(Seq<char>, JsonView)>,
    name: Seq<char>,
    value: JsonView,
    set: FieldSet,
)
    requires
        is_in_set(set, name),
    ensures
        without(with_field(fields, name, value), set) == without(fields, set),
{
    lemma_place_not_negative(fields, name);
    let k = json::field_place(fields, name);
    if k < fields.len() {
        lemma_without_update(fields, k, value, set);
    } else {
        assert(fields.push((name, value)).drop_last() =~= fields);
    }
}

/// Where and when an entry was logged makes no difference to its key: setting such a field,
/// to any value, leaves what the entry says unchanged.
pub proof fn transport_makes_no_difference(
    kind: EntryKind,
    fields: Seq<(Seq<char>, JsonView)>,
    tools: Seq<ToolSemantics>,
    name: Seq<char>,
    value: JsonView,
)
    requires
        is_in_set(FieldSet::Transport, name),
    ensures
        payload(kind, JsonView::Object(with_field(fields, name, value)), tools) == payload(
            kind,
            JsonView::Object(fields),
            tools,
        ),
{
    lemma_without_set(fields, name, value, FieldSet::Transport);
}

/// Which model gave an answer, under which id and at what cost makes no difference to what
/// the message says.
pub proof fn answer_details_make_no_difference(
    message: Seq<(Seq<char>, JsonView)>,
    name: Seq<char>,
    value: JsonView,
)
    requires
        is_in_set(FieldSet::Answer, name),
    ensures
        without(with_field(message, name, value), FieldSet::Answer) == without(
            message,
            FieldSet::Answer,
        ),
{
    lemma_without_set(message, name, value, FieldSet::Answer);
}

proof fn lemma_without_front(fields: Seq<(Seq<char>, JsonView)>, set: FieldSet)
    requires
        fields.len() > 0,
    ensures
        without(fields, set) == (if is_in_set(set, fields[0].0) {
            without(fields.drop_first(), set)
        } else {
            seq![fields[0]] + without(fields.drop_first(), set)
        }),
    decreases fields.len(),
{
    let front = fields.drop_last();
    if front.len() > 0 {
        lemma_without_front(front, set);
        assert(front[0] == fields[0]);
        assert(front.drop_first() =~= fields.drop_first().drop_last());
        assert(fields.drop_first().last() == fields.last());
        let rest = without(front.drop_first(), set);
        assert((seq![fields[0]] + rest).push(fields.last()) =~= seq![fields[0]] + rest.push(
            fields.last(),
        ));
    } else {
        assert(fields.drop_first() =~= Seq::empty());
        assert(fields.drop_last() =~= Seq::empty());
        assert(fields.last() == fields[0]);
        assert(Seq::<(Seq<char>, JsonView)>::empty().push(fields[0]) =~= seq![fields[0]]
            + Seq::<(Seq<char>, JsonView)>::empty());
    }
}

proof fn lemma_with_field_front(
    fields: Seq<(Seq<char>, JsonView)>,
    name: Seq<char>,
    value: JsonView,
)
    requires
        fields.len() > 0,
    ensures
        with_field(fields, name, value) == (if fields[0].0 == name {
            seq![(name, value)] + fields.drop_first()
        } else {
            seq![fields[0]] + with_field(fields.drop_first(), name, value)
        }),
{
    lemma_place_not_negative(fields, name);
    lemma_place_not_negative(fields.drop_first(), name);
    if fields[0].0 == name {
        assert(with_field(fields, name, value) =~= seq![(name, value)] + fields.drop_first());
    } else {
        assert(with_field(fields, name, value) =~= seq![fields[0]] + with_field(
            fields.drop_first(),
            name,
            value,
        ));
    }
}

proof fn lemma_set_outside(
    fields: Seq<(Seq<char>, JsonView)>,
    name: Seq<char>,
    value: JsonView,
    set: FieldSet,
)
    requires
        !is_in_set(set, name),
    ensures
        without(with_field(fields, name, value), set) == with_field(
            without(fields, set),
            name,
            value,
        ),
        field(without(fields, set), name) == field(fields, name),
    decreases fields.len(),
{
    let after = with_field(fields, name, value);
    if fields.len() == 0 {
        assert(after =~= seq![(name, value)]);
        assert(after.drop_last() =~= fields);
        assert(without(after, set) =~= without(fields, set).push((name, value)));
        assert(fields =~= Seq::empty());
    } else {
        let rest = fields.drop_first();
        lemma_without_front(fields, set);
        lemma_with_field_front(fields, name, value);
        lemma_set_outside(rest, name, value, set);
        lemma_without_front(after, set);
        let kept = without(rest, set);
        if fields[0].0 == name {
            assert(after[0] == (name, value));
            assert(after.drop_first() =~= rest);
            let before = seq![fields[0]] + kept;
            assert(before.drop_first() =~= kept);
            lemma_with_field_front(before, name, value);
        } else {
            assert(after[0] == fields[0]);
            assert(after.drop_first() =~= with_field(rest, name, value));
            if !is_in_set(set, fields[0].0) {
                let before = seq![fields[0]] + kept;
                assert(before.drop_first() =~= kept);
                lemma_with_field_front(before, name, value);
            }
        }
    }
}

proof fn lemma_set_twice(
    fields: Seq<(Seq<char>, JsonView)>,
    name: Seq<char>,
    value: JsonView,
    other: JsonView,
)
    ensures
        with_field(with_field(fields, name, value), name, other) == with_field(fields, name, other),
    decreases fields.len(),
{
    let once = with_field(fields, name, value);
    if fields.len() == 0 {
        assert(once =~= seq![(name, value)]);
        lemma_with_field_front(once, name, other);
        assert(once.drop_first() =~= fields);
        assert(seq![(name, other)] + fields =~= fields.push((name, other)));
    } else {
        lemma_with_field_front(fields, name, value);
        lemma_with_field_front(fields, name, other);
        lemma_with_field_front(once, name, other);
        if fields[0].0 == name {
            assert(once.drop_first() =~= fields.drop_first());
        } else {
            assert(once.drop_first() =~= with_field(fields.drop_first(), name, value));
            lemma_set_twice(fields.drop_first(), name, value, other);
        }
    }
}

proof fn lemma_literals()
    ensures
        !is_in_set(FieldSet::Transport, "message"@),
        !is_in_set(FieldSet::Answer, "content"@),
        !is_in_set(FieldSet::ToolUse, "input"@),
        !is_in_set(FieldSet::ToolUse, "name"@),
        is_in_set(FieldSet::ToolUse, "id"@),
        "type"@ != "id"@,
        "name"@ != "id"@,
        "name"@ != "input"@,
        "type"@ != "input"@,
{
    reveal_strlit("message");
    reveal_strlit("content");
    reveal_strlit("input");
    reveal_strlit("name");
    reveal_strlit("type");
    reveal_strlit("id");
    reveal_strlit("uuid");
    reveal_strlit("parentUuid");
    reveal_strlit("logicalParentUuid");
    reveal_strlit("timestamp");
    reveal_strlit("sessionId");
    reveal_strlit("version");
    reveal_strlit("cwd");
    reveal_strlit("gitBranch");
    reveal_strlit("userType");
    reveal_strlit("isSidechain");
    reveal_strlit("isTeammate");
    reveal_strlit("agentId");
    reveal_strlit("slug");
    reveal_strlit("requestId");
    reveal_strlit("model");
    reveal_strlit("usage");
    reveal_strlit("stop_reason");
    reveal_strlit("stop_sequence");
    reveal_strlit("container");
    reveal_strlit("context_management");
    assert("version"@[0] != "message"@[0]);
    assert("userType"@.len() != "message"@.len());
    assert("content"@.len() == 7);
    assert("input"@.len() == 5);
    assert("id"@.len() == 2);
    assert("name"@[0] != "type"@[0]);
}

proof fn lemma_call_id(call: Seq<(Seq<char>, JsonView)>, id: JsonView)
    requires
        json::text_of(field(call, "type"@)) == Some("tool_use"@),
    ensures
        neutral_block(JsonView::Object(with_field(call, "id"@, id)), Seq::empty())
            == neutral_block(JsonView::Object(call), Seq::empty()),
{
    lemma_literals();
    let none = Seq::<ToolSemantics>::empty();
    let changed = with_field(call, "id"@, id);
    json::set_fields_are_kept(call, "id"@, id, "type"@);
    json::set_fields_are_kept(call, "id"@, id, "name"@);
    lemma_without_set(call, "id"@, id, FieldSet::ToolUse);
    match call_label(call, none) {
        Some(label) => {
            lemma_set_outside(call, "name"@, JsonView::Text(label), FieldSet::ToolUse);
            lemma_set_outside(changed, "name"@, JsonView::Text(label), FieldSet::ToolUse);
        },
        None => {},
    }
}

proof fn lemma_call_input(call: Seq<(Seq<char>, JsonView)>, input: JsonView)
    requires
        json::text_of(field(call, "type"@)) == Some("tool_use"@),
        field(call, "input"@) == Some(input),
    ensures
        neutral_block(JsonView::Object(call), Seq::empty()) matches JsonView::Object(neutral)
            && field(neutral, "input"@) == Some(input),
{
    lemma_literals();
    let none = Seq::<ToolSemantics>::empty();
    lemma_set_outside(call, "input"@, input, FieldSet::ToolUse);
    match call_label(call, none) {
        Some(label) => {
            let named = with_field(call, "name"@, JsonView::Text(label));
            json::set_fields_are_kept(call, "name"@, JsonView::Text(label), "input"@);
            lemma_set_outside(named, "input"@, input, FieldSet::ToolUse);
        },
        None => {},
    }
}

/// The value of a field of what a call is given, in what an answer says.
spec fn seen_value(said: JsonView, k: int, name: Seq<char>) -> Option<JsonView> {
    match said {
        JsonView::Object(top) => match field(top, "message"@) {
            Some(JsonView::Object(message)) => match field(message, "content"@) {
                Some(JsonView::Array(blocks)) => match blocks[k] {
                    JsonView::Object(call) => match field(call, "input"@) {
                        Some(JsonView::Object(input)) => field(input, name),
                        _ => None,
                    },
                    _ => None,
                },
                _ => None,
            },
            _ => None,
        },
        _ => None,
    }
}

proof fn lemma_input_seen(
    fields: Seq<(Seq<char>, JsonView)>,
    message: Seq<(Seq<char>, JsonView)>,
    blocks: Seq<JsonView>,
    k: int,
    name: Seq<char>,
)
    requires
        0 <= k < blocks.len(),
        blocks[k] is Object,
        field(blocks[k]->Object_0, "input"@) is Some,
        field(blocks[k]->Object_0, "input"@)->0 is Object,
        field(field(blocks[k]->Object_0, "input"@)->0->Object_0, name) is Some,
    ensures
        ({
            let body = with_field(
                without(message, FieldSet::Answer),
                "content"@,
                JsonView::Array(blocks),
            );
            let top = with_field(
                without(fields, FieldSet::Transport),
                "message"@,
                JsonView::Object(body),
            );
            let input = field(blocks[k]->Object_0, "input"@)->0->Object_0;
            seen_value(sorted_json(JsonView::Object(top)), k, name) == Some(
                sorted_json(field(input, name)->0),
            )
        }),
{
    let body = with_field(without(message, FieldSet::Answer), "content"@, JsonView::Array(blocks));
    let top = with_field(
        without(fields, FieldSet::Transport),
        "message"@,
        JsonView::Object(body),
    );
    let call = blocks[k]->Object_0;
    let input = field(call, "input"@)->0->Object_0;
    json::set_fields_are_kept(
        without(fields, FieldSet::Transport),
        "message"@,
        JsonView::Object(body),
        "message"@,
    );
    json::set_fields_are_kept(
        without(message, FieldSet::Answer),
        "content"@,
        JsonView::Array(blocks),
        "content"@,
    );
    json::sorting_keeps_fields(top, "message"@);
    json::sorting_keeps_fields(body, "content"@);
    json::lemma_sorted_items(blocks);
    json::sorting_keeps_fields(call, "input"@);
    json::sorting_keeps_fields(input, name);
}

/// Two blocks are the same, or calls of a tool that are the same but for their ids.
pub open spec fn same_but_call_id(x: JsonView, y: JsonView) -> bool {
    x == y || match (x, y) {
        (JsonView::Object(f), JsonView::Object(g)) => {
            &&& json::text_of(field(f, "type"@)) == Some("tool_use"@)
            &&& json::text_of(field(g, "type"@)) == Some("tool_use"@)
            &&& with_field(f, "id"@, JsonView::Null) == with_field(g, "id"@, JsonView::Null)
        },
        _ => false,
    }
}

/// Two messages of the assistant are the same but for their ids, their models, what they cost and
/// the like, and the ids of their calls of tools.
pub open spec fn same_message(
    f: Seq<(Seq<char>, JsonView)>,
    g: Seq<(Seq<char>, JsonView)>,
) -> bool {
    let (x, y) = (without(f, FieldSet::Answer), without(g, FieldSet::Answer));
    match (field(x, "content"@), field(y, "content"@)) {
        (Some(JsonView::Array(p)), Some(JsonView::Array(q))) => {
            &&& with_field(x, "content"@, JsonView::Null) == with_field(
                y,
                "content"@,
                JsonView::Null,
            )
            &&& p.len() == q.len()
            &&& forall|k: int| 0 <= k < p.len() ==> same_but_call_id(#[trigger] p[k], q[k])
        },
        _ => x == y,
    }
}

/// Two answers are the same but for where and when they were logged and what identifies their
/// messages and their calls of tools.
pub open spec fn same_answer(
    f: Seq<(Seq<char>, JsonView)>,
    g: Seq<(Seq<char>, JsonView)>,
) -> bool {
    let (x, y) = (without(f, FieldSet::Transport), without(g, FieldSet::Transport));
    match (field(x, "message"@), field(y, "message"@)) {
        (Some(JsonView::Object(m)), Some(JsonView::Object(n))) => {
            &&& with_field(x, "message"@, JsonView::Null) == with_field(
                y,
                "message"@,
                JsonView::Null,
            )
            &&& same_message(m, n)
        },
        _ => x == y,
    }
}

proof fn lemma_same_message(f: Seq<(Seq<char>, JsonView)>, g: Seq<(Seq<char>, JsonView)>)
    requires
        same_message(f, g),
    ensures
        neutral_message(without(f, FieldSet::Answer), Seq::empty()) == neutral_message(
            without(g, FieldSet::Answer),
            Seq::empty(),
        ),
{
    let none = Seq::<ToolSemantics>::empty();
    let (x, y) = (without(f, FieldSet::Answer), without(g, FieldSet::Answer));
    match (field(x, "content"@), field(y, "content"@)) {
        (Some(JsonView::Array(p)), Some(JsonView::Array(q))) => {
            assert forall|k: int| 0 <= k < p.len() implies #[trigger] neutral_block(p[k], none)
                == neutral_block(q[k], none) by {
                assert(same_but_call_id(p[k], q[k]));
                if p[k] != q[k] {
                    lemma_call_id(p[k]->Object_0, JsonView::Null);
                    lemma_call_id(q[k]->Object_0, JsonView::Null);
                }
            }
            assert(neutral_blocks(p, none) =~= neutral_blocks(q, none));
            let said = JsonView::Array(neutral_blocks(p, none));
            lemma_set_twice(x, "content"@, JsonView::Null, said);
            lemma_set_twice(y, "content"@, JsonView::Null, said);
        },
        _ => {},
    }
}

/// What identifies an answer of the assistant makes no difference to its key, where its provider
/// says nothing of its calls: two answers have the same key that differ but in their own ids and
/// those of what they answer to, of their session, their message and their calls of tools, in
/// when, where and by which version they were logged, and in the model that wrote them and what
/// that cost.
pub proof fn identity_makes_no_difference(a: ComparisonEntry, b: ComparisonEntry)
    requires
        a.kind is Assistant,
        b.kind is Assistant,
        a.semantics is None,
        b.semantics is None,
        a.value@ is Object,
        b.value@ is Object,
        same_answer(a.value@->Object_0, b.value@->Object_0),
    ensures
        fingerprint(a) == fingerprint(b),
{
    let (f, g) = (a.value@->Object_0, b.value@->Object_0);
    let (x, y) = (without(f, FieldSet::Transport), without(g, FieldSet::Transport));
    match (field(x, "message"@), field(y, "message"@)) {
        (Some(JsonView::Object(m)), Some(JsonView::Object(n))) => {
            lemma_same_message(m, n);
            let said = JsonView::Object(
                neutral_message(without(m, FieldSet::Answer), Seq::empty()),
            );
            lemma_set_twice(x, "message"@, JsonView::Null, said);
            lemma_set_twice(y, "message"@, JsonView::Null, said);
        },
        _ => {},
    }
    assert(neutral_fields(EntryKind::Assistant, f, Seq::empty()) == neutral_fields(
        EntryKind::Assistant,
        g,
        Seq::empty(),
    ));
}

/// The value of a field of what a call of a tool is given: the call is the block at some place of
/// the message of an answer.
pub open spec fn given_value(entry: JsonView, k: int, name: Seq<char>) -> Option<JsonView> {
    match entry {
        JsonView::Object(fields) => match field(fields, "message"@) {
            Some(JsonView::Object(message)) => match field(message, "content"@) {
                Some(JsonView::Array(blocks)) => if 0 <= k < blocks.len() {
                    match blocks[k] {
                        JsonView::Object(call) => match field(call, "input"@) {
                            Some(JsonView::Object(input)) => if json::text_of(
                                field(call, "type"@),
                            ) == Some("tool_use"@) {
                                field(input, name)
                            } else {
                                None
                            },
                            _ => None,
                        },
                        _ => None,
                    }
                } else {
                    None
                },
                _ => None,
            },
            _ => None,
        },
        _ => None,
    }
}

proof fn lemma_given_seen(entry: JsonView, k: int, name: Seq<char>)
    requires
        given_value(entry, k, name) is Some,
    ensures
        seen_value(payload(EntryKind::Assistant, entry, Seq::empty()), k, name) == Some(
            sorted_json(given_value(entry, k, name)->0),
        ),
{
    lemma_literals();
    let none = Seq::<ToolSemantics>::empty();
    let fields = entry->Object_0;
    let message = field(fields, "message"@)->0->Object_0;
    let blocks = field(message, "content"@)->0->Array_0;
    let call = blocks[k]->Object_0;
    let input = field(call, "input"@)->0->Object_0;
    lemma_set_outside(fields, "message"@, JsonView::Object(message), FieldSet::Transport);
    lemma_set_outside(message, "content"@, JsonView::Array(blocks), FieldSet::Answer);
    lemma_call_input(call, JsonView::Object(input));
    lemma_input_seen(fields, message, neutral_blocks(blocks, none), k, name);
}

/// What a tool is given makes a difference to the key, an id among it too: two answers have
/// different keys where a field of what their calls at the same place are given has different
/// values, apart from the order of fields within them. Whatever else the answers say does not
/// matter.
pub proof fn given_values_make_a_difference(
    a: ComparisonEntry,
    b: ComparisonEntry,
    k: int,
    name: Seq<char>,
)
    requires
        json::numbers_ok(a.value@),
        json::numbers_ok(b.value@),
        a.kind is Assistant,
        b.kind is Assistant,
        a.semantics is None,
        b.semantics is None,
        given_value(a.value@, k, name) is Some,
        given_value(b.value@, k, name) is Some,
        sorted_json(given_value(a.value@, k, name)->0) != sorted_json(
            given_value(b.value@, k, name)->0,
        ),
    ensures
        fingerprint(a) != fingerprint(b),
{
    fingerprints_tell_payloads_apart(a, b);
    lemma_given_seen(a.value@, k, name);
    lemma_given_seen(b.value@, k, name);
}

// ---------------------------------------------------------------------------
// What tells entries apart
// ---------------------------------------------------------------------------

/// The fields of an entry.
pub open spec fn fields_in(e: ComparisonEntry) -> Option<Seq<(Seq<char>, JsonView)>> {
    match e.value@ {
        JsonView::Object(fields) => Some(fields),
        _ => None,
    }
}

/// The fields of the message of an entry.
pub open spec fn message_in(e: ComparisonEntry) -> Option<Seq<(Seq<char>, JsonView)>> {
    match fields_in(e) {
        Some(fields) => match field(fields, "message"@) {
            Some(JsonView::Object(message)) => Some(message),
            _ => None,
        },
        None => None,
    }
}

/// The blocks of the message of an entry.
pub open spec fn blocks_in(e: ComparisonEntry) -> Option<Seq<JsonView>> {
    match message_in(e) {
        Some(message) => match field(message, "content"@) {
            Some(JsonView::Array(blocks)) => Some(blocks),
            _ => None,
        },
        None => None,
    }
}

/// The fields of the record inside a snapshot.
pub open spec fn record_in(e: ComparisonEntry) -> Option<Seq<(Seq<char>, JsonView)>> {
    match fields_in(e) {
        Some(fields) => match field(fields, "snapshot"@) {
            Some(JsonView::Object(record)) => Some(record),
            _ => None,
        },
        None => None,
    }
}

/// A field has different values in two objects, apart from the order of fields within the values;
/// or it is missing in one of them.
pub open spec fn field_differs(
    f: Seq<(Seq<char>, JsonView)>,
    g: Seq<(Seq<char>, JsonView)>,
    name: Seq<char>,
) -> bool {
    match (field(f, name), field(g, name)) {
        (Some(x), Some(y)) => sorted_json(x) != sorted_json(y),
        (None, None) => false,
        _ => true,
    }
}

/// A field of an entry that only says where and when it was logged, or what it refers to.
pub open spec fn is_detail_of(kind: EntryKind, name: Seq<char>) -> bool {
    ||| name == "uuid"@
    ||| name == "parentUuid"@
    ||| name == "logicalParentUuid"@
    ||| name == "timestamp"@
    ||| name == "sessionId"@
    ||| name == "version"@
    ||| name == "cwd"@
    ||| name == "gitBranch"@
    ||| name == "userType"@
    ||| name == "isSidechain"@
    ||| name == "isTeammate"@
    ||| name == "agentId"@
    ||| name == "slug"@
    ||| name == "requestId"@
    ||| kind is System && name == "toolUseId"@
    ||| kind is System && name == "checkpointId"@
    ||| kind is System && name == "targetUuid"@
    ||| kind is System && name == "retryInMs"@
    ||| kind is System && name == "retryAttempt"@
    ||| kind is System && name == "maxRetries"@
    ||| kind is Summary && name == "leafUuid"@
    ||| kind is FileHistorySnapshot && name == "messageId"@
}

/// A field of a message of the assistant that only says how it came about.
pub open spec fn is_answer_detail(name: Seq<char>) -> bool {
    ||| name == "id"@
    ||| name == "model"@
    ||| name == "usage"@
    ||| name == "stop_reason"@
    ||| name == "stop_sequence"@
    ||| name == "container"@
    ||| name == "context_management"@
}

/// A field of a block that only ties it to other blocks or to its provider.
pub open spec fn is_tie(block: Seq<(Seq<char>, JsonView)>, name: Seq<char>) -> bool {
    let kind = json::text_of(field(block, "type"@));
    ||| kind == Some("tool_use"@) && name == "id"@
    ||| kind == Some("tool_result"@) && (name == "tool_use_id"@ || name == "toolUseId"@)
    ||| kind == Some("thinking"@) && name == "signature"@
}

/// An entry is one of the user or of the assistant.
pub open spec fn is_said(kind: EntryKind) -> bool {
    kind is User || kind is Assistant
}

/// What a message says: without what identifies an answer, its content neutral.
spec fn said_in(
    kind: EntryKind,
    message: Seq<(Seq<char>, JsonView)>,
    tools: Seq<ToolSemantics>,
) -> Seq<(Seq<char>, JsonView)> {
    if kind is Assistant {
        neutral_message(without(message, FieldSet::Answer), tools)
    } else {
        neutral_message(message, tools)
    }
}

/// The value of a field of an object, its own fields in order.
spec fn sorted_field(fields: Seq<(Seq<char>, JsonView)>, name: Seq<char>) -> Option<JsonView> {
    match field(fields, name) {
        Some(v) => Some(sorted_json(v)),
        None => None,
    }
}

/// The value of a field of what an entry says.
spec fn said_field(said: JsonView, name: Seq<char>) -> Option<JsonView> {
    match said {
        JsonView::Object(fields) => field(fields, name),
        _ => None,
    }
}

/// The blocks in what an entry says.
spec fn seen_blocks(said: JsonView) -> Seq<JsonView> {
    said_field(said_field(said, "message"@)->0, "content"@)->0->Array_0
}

proof fn lemma_names()
    ensures
        "message"@ != "snapshot"@,
        "content"@ != "message"@,
        "type"@ != "tool_use_id"@,
        "type"@ != "toolUseId"@,
        "type"@ != "signature"@,
        "type"@ != "id"@,
        "type"@ != "name"@,
        "tool_use"@ != "tool_result"@,
        "tool_use"@ != "thinking"@,
        "tool_result"@ != "thinking"@,
        !is_in_set(FieldSet::Transport, "snapshot"@),
        !is_in_set(FieldSet::Snapshot, "snapshot"@),
{
    lemma_literals();
    reveal_strlit("message");
    reveal_strlit("snapshot");
    reveal_strlit("content");
    reveal_strlit("type");
    reveal_strlit("name");
    reveal_strlit("id");
    reveal_strlit("tool_use_id");
    reveal_strlit("toolUseId");
    reveal_strlit("signature");
    reveal_strlit("tool_use");
    reveal_strlit("tool_result");
    reveal_strlit("thinking");
    reveal_strlit("messageId");
    reveal_strlit("uuid");
    reveal_strlit("parentUuid");
    reveal_strlit("logicalParentUuid");
    reveal_strlit("timestamp");
    reveal_strlit("sessionId");
    reveal_strlit("version");
    reveal_strlit("cwd");
    reveal_strlit("gitBranch");
    reveal_strlit("userType");
    reveal_strlit("isSidechain");
    reveal_strlit("isTeammate");
    reveal_strlit("agentId");
    reveal_strlit("slug");
    reveal_strlit("requestId");
    assert("tool_use_id"@.len() == 11 && "type"@.len() == 4);
    assert("snapshot"@.len() == 8 && "message"@.len() == 7 && "userType"@.len() == 8);
    assert("snapshot"@[0] == 's' && "userType"@[0] == 'u');
    assert("signature"@.len() == 9 && "toolUseId"@.len() == 9 && "sessionId"@.len() == 9);
    assert("content"@[0] == 'c' && "message"@[0] == 'm');
    assert("type"@[0] == 't' && "name"@[0] == 'n');
    assert("tool_use"@.len() == 8 && "thinking"@.len() == 8);
    assert("tool_use"@[1] == 'o' && "thinking"@[1] == 'h');
}

proof fn lemma_kept_field(fields: Seq<(Seq<char>, JsonView)>, set: FieldSet, name: Seq<char>)
    requires
        !is_in_set(set, name),
    ensures
        field(without(fields, set), name) == field(fields, name),
{
    lemma_set_outside(fields, name, JsonView::Null, set);
}

/// A field of an entry that is no detail of it is seen in what it says.
proof fn lemma_field_seen(
    kind: EntryKind,
    fields: Seq<(Seq<char>, JsonView)>,
    tools: Seq<ToolSemantics>,
    name: Seq<char>,
)
    requires
        !is_detail_of(kind, name),
        is_said(kind) && name == "message"@ ==> !(field(fields, name) matches Some(
            JsonView::Object(_),
        )),
        kind is FileHistorySnapshot && name == "snapshot"@ ==> !(field(fields, name) matches Some(
            JsonView::Object(_),
        )),
    ensures
        said_field(payload(kind, JsonView::Object(fields), tools), name) == sorted_field(
            fields,
            name,
        ),
{
    lemma_names();
    lemma_kept_field(fields, FieldSet::Transport, name);
    let top = without(fields, FieldSet::Transport);
    let all = neutral_fields(kind, fields, tools);
    if is_said(kind) {
        lemma_literals();
        lemma_kept_field(fields, FieldSet::Transport, "message"@);
        match field(top, "message"@) {
            Some(JsonView::Object(message)) => {
                json::set_fields_are_kept(
                    top,
                    "message"@,
                    JsonView::Object(said_in(kind, message, tools)),
                    name,
                );
            },
            _ => {},
        }
    } else if kind is System {
        lemma_kept_field(top, FieldSet::System, name);
    } else if kind is Summary {
        lemma_kept_field(top, FieldSet::Summary, name);
    } else if kind is FileHistorySnapshot {
        lemma_kept_field(top, FieldSet::Snapshot, name);
        lemma_kept_field(fields, FieldSet::Transport, "snapshot"@);
        lemma_kept_field(top, FieldSet::Snapshot, "snapshot"@);
        let outer = without(top, FieldSet::Snapshot);
        match field(outer, "snapshot"@) {
            Some(JsonView::Object(record)) => {
                json::set_fields_are_kept(
                    outer,
                    "snapshot"@,
                    JsonView::Object(without(record, FieldSet::SnapshotRecord)),
                    name,
                );
            },
            _ => {},
        }
    }
    assert(field(all, name) == field(fields, name));
    json::sorting_keeps_fields(all, name);
}

/// The message of an entry is seen in what it says.
proof fn lemma_message_seen(
    kind: EntryKind,
    fields: Seq<(Seq<char>, JsonView)>,
    tools: Seq<ToolSemantics>,
)
    requires
        is_said(kind),
        field(fields, "message"@) is Some,
        field(fields, "message"@)->0 is Object,
    ensures
        ({
            let message = field(fields, "message"@)->0->Object_0;
            said_field(payload(kind, JsonView::Object(fields), tools), "message"@) == Some(
                sorted_json(JsonView::Object(said_in(kind, message, tools))),
            )
        }),
{
    lemma_literals();
    let message = field(fields, "message"@)->0->Object_0;
    let top = without(fields, FieldSet::Transport);
    let said = JsonView::Object(said_in(kind, message, tools));
    lemma_kept_field(fields, FieldSet::Transport, "message"@);
    json::set_fields_are_kept(top, "message"@, said, "message"@);
    json::sorting_keeps_fields(with_field(top, "message"@, said), "message"@);
}

/// A field of a message that is no detail of it is seen in what it says.
proof fn lemma_message_field_seen(
    kind: EntryKind,
    message: Seq<(Seq<char>, JsonView)>,
    tools: Seq<ToolSemantics>,
    name: Seq<char>,
)
    requires
        is_said(kind),
        kind is Assistant ==> !is_answer_detail(name),
        name == "content"@ ==> !(field(message, name) matches Some(JsonView::Array(_))),
    ensures
        said_field(sorted_json(JsonView::Object(said_in(kind, message, tools))), name)
            == sorted_field(message, name),
{
    lemma_literals();
    let all = said_in(kind, message, tools);
    let own = if kind is Assistant {
        without(message, FieldSet::Answer)
    } else {
        message
    };
    if kind is Assistant {
        lemma_kept_field(message, FieldSet::Answer, name);
        lemma_kept_field(message, FieldSet::Answer, "content"@);
    }
    match field(own, "content"@) {
        Some(content) => {
            json::set_fields_are_kept(
                own,
                "content"@,
                neutral_content(content, tools),
                name,
            );
        },
        None => {},
    }
    json::sorting_keeps_fields(all, name);
}

/// The blocks of a message are seen in what it says.
proof fn lemma_blocks_seen(
    kind: EntryKind,
    message: Seq<(Seq<char>, JsonView)>,
    tools: Seq<ToolSemantics>,
    blocks: Seq<JsonView>,
)
    requires
        is_said(kind),
        field(message, "content"@) == Some(JsonView::Array(blocks)),
    ensures
        ({
            let seen = said_field(
                sorted_json(JsonView::Object(said_in(kind, message, tools))),
                "content"@,
            );
            seen matches Some(JsonView::Array(s)) && s.len() == blocks.len() && forall|k: int|
                0 <= k < blocks.len() ==> #[trigger] s[k] == sorted_json(
                    neutral_block(blocks[k], tools),
                )
        }),
{
    lemma_literals();
    let own = if kind is Assistant {
        without(message, FieldSet::Answer)
    } else {
        message
    };
    if kind is Assistant {
        lemma_kept_field(message, FieldSet::Answer, "content"@);
    }
    let neutral = neutral_blocks(blocks, tools);
    json::set_fields_are_kept(own, "content"@, JsonView::Array(neutral), "content"@);
    json::sorting_keeps_fields(
        with_field(own, "content"@, JsonView::Array(neutral)),
        "content"@,
    );
    json::lemma_sorted_items(neutral);
}

/// A field of a block that does not only tie it to something is seen in what it says.
proof fn lemma_block_field_seen(
    block: Seq<(Seq<char>, JsonView)>,
    tools: Seq<ToolSemantics>,
    name: Seq<char>,
)
    requires
        !is_tie(block, name),
        json::text_of(field(block, "type"@)) == Some("tool_use"@) ==> name != "name"@,
    ensures
        said_field(sorted_json(neutral_block(JsonView::Object(block), tools)), name)
            == sorted_field(block, name),
{
    lemma_names();
    let kind = json::text_of(field(block, "type"@));
    let all = neutral_block(JsonView::Object(block), tools)->Object_0;
    if kind == Some("tool_use"@) {
        match call_label(block, tools) {
            Some(label) => {
                json::set_fields_are_kept(block, "name"@, JsonView::Text(label), name);
                lemma_kept_field(
                    with_field(block, "name"@, JsonView::Text(label)),
                    FieldSet::ToolUse,
                    name,
                );
            },
            None => {
                lemma_kept_field(block, FieldSet::ToolUse, name);
            },
        }
    } else if kind == Some("tool_result"@) {
        lemma_kept_field(block, FieldSet::ToolResult, name);
    } else if kind == Some("thinking"@) {
        lemma_kept_field(block, FieldSet::Thinking, name);
    }
    json::sorting_keeps_fields(all, name);
}

/// What an entry says beside its details makes a difference to its key: two entries of the same
/// kind have different keys where a field differs that is none of the details of that kind. Where
/// the field is an object that holds the message, or the record of a snapshot, the fields of that
/// object decide instead.
pub proof fn fields_make_a_difference(a: ComparisonEntry, b: ComparisonEntry, name: Seq<char>)
    requires
        json::numbers_ok(a.value@),
        json::numbers_ok(b.value@),
        a.kind == b.kind,
        fields_in(a) is Some,
        fields_in(b) is Some,
        !is_detail_of(a.kind, name),
        is_said(a.kind) && name == "message"@ ==> message_in(a) is None || message_in(b) is None,
        a.kind is FileHistorySnapshot && name == "snapshot"@ ==> record_in(a) is None || record_in(
            b,
        ) is None,
        field_differs(fields_in(a)->0, fields_in(b)->0, name),
    ensures
        fingerprint(a) != fingerprint(b),
{
    let (f, g) = (fields_in(a)->0, fields_in(b)->0);
    let (s, t) = (tools_of(a.semantics), tools_of(b.semantics));
    fingerprints_tell_payloads_apart(a, b);
    let nested_a = (is_said(a.kind) && name == "message"@ && message_in(a) is Some) || (
    a.kind is FileHistorySnapshot && name == "snapshot"@ && record_in(a) is Some);
    let nested_b = (is_said(a.kind) && name == "message"@ && message_in(b) is Some) || (
    a.kind is FileHistorySnapshot && name == "snapshot"@ && record_in(b) is Some);
    if !nested_a {
        lemma_field_seen(a.kind, f, s, name);
    }
    if !nested_b {
        lemma_field_seen(b.kind, g, t, name);
    }
    if nested_a || nested_b {
        lemma_nested_is_object(if nested_a { a } else { b }, name);
        let other = if nested_a { g } else { f };
        if field(other, name) is Some {
            lemma_sorted_shape(field(other, name)->0);
        }
    }
}

proof fn lemma_sorted_shape(j: JsonView)
    ensures
        sorted_json(j) is Object <==> j is Object,
        sorted_json(j) is Array <==> j is Array,
{
}

/// The message of an entry, or the record of a snapshot, is an object in what the entry says.
proof fn lemma_nested_is_object(e: ComparisonEntry, name: Seq<char>)
    requires
        fields_in(e) is Some,
        (is_said(e.kind) && name == "message"@ && message_in(e) is Some) || (
        e.kind is FileHistorySnapshot && name == "snapshot"@ && record_in(e) is Some),
    ensures
        said_field(payload(e.kind, e.value@, tools_of(e.semantics)), name) matches Some(v)
            && v is Object,
{
    let fields = fields_in(e)->0;
    lemma_names();
    if is_said(e.kind) {
        lemma_message_seen(e.kind, fields, tools_of(e.semantics));
        lemma_sorted_shape(
            JsonView::Object(said_in(e.kind, message_in(e)->0, tools_of(e.semantics))),
        );
    } else {
        lemma_record_seen(fields, tools_of(e.semantics));
        lemma_sorted_shape(
            JsonView::Object(without(record_in(e)->0, FieldSet::SnapshotRecord)),
        );
    }
}

/// The record of a snapshot is seen in what the entry says.
proof fn lemma_record_seen(fields: Seq<(Seq<char>, JsonView)>, tools: Seq<ToolSemantics>)
    requires
        field(fields, "snapshot"@) is Some,
        field(fields, "snapshot"@)->0 is Object,
    ensures
        ({
            let record = field(fields, "snapshot"@)->0->Object_0;
            said_field(
                payload(EntryKind::FileHistorySnapshot, JsonView::Object(fields), tools),
                "snapshot"@,
            ) == Some(sorted_json(JsonView::Object(without(record, FieldSet::SnapshotRecord))))
        }),
{
    lemma_names();
    let record = field(fields, "snapshot"@)->0->Object_0;
    let top = without(fields, FieldSet::Transport);
    let outer = without(top, FieldSet::Snapshot);
    let said = JsonView::Object(without(record, FieldSet::SnapshotRecord));
    lemma_kept_field(fields, FieldSet::Transport, "snapshot"@);
    lemma_kept_field(top, FieldSet::Snapshot, "snapshot"@);
    json::set_fields_are_kept(outer, "snapshot"@, said, "snapshot"@);
    json::sorting_keeps_fields(with_field(outer, "snapshot"@, said), "snapshot"@);
}

/// What a message says makes a difference to the key: two entries of the user, or two of the
/// assistant, have different keys where a field of their messages differs, of an answer one that
/// does not only say how it came about. Where the field is a list of blocks, the blocks decide
/// instead.
pub proof fn messages_make_a_difference(a: ComparisonEntry, b: ComparisonEntry, name: Seq<char>)
    requires
        json::numbers_ok(a.value@),
        json::numbers_ok(b.value@),
        a.kind == b.kind,
        is_said(a.kind),
        message_in(a) is Some,
        message_in(b) is Some,
        a.kind is Assistant ==> !is_answer_detail(name),
        name == "content"@ ==> blocks_in(a) is None || blocks_in(b) is None,
        field_differs(message_in(a)->0, message_in(b)->0, name),
    ensures
        fingerprint(a) != fingerprint(b),
{
    let (f, g) = (fields_in(a)->0, fields_in(b)->0);
    let (m, n) = (message_in(a)->0, message_in(b)->0);
    let (s, t) = (tools_of(a.semantics), tools_of(b.semantics));
    fingerprints_tell_payloads_apart(a, b);
    lemma_message_seen(a.kind, f, s);
    lemma_message_seen(b.kind, g, t);
    let array_a = name == "content"@ && blocks_in(a) is Some;
    let array_b = name == "content"@ && blocks_in(b) is Some;
    if !array_a {
        lemma_message_field_seen(a.kind, m, s, name);
    } else {
        lemma_blocks_seen(a.kind, m, s, blocks_in(a)->0);
    }
    if !array_b {
        lemma_message_field_seen(b.kind, n, t, name);
    } else {
        lemma_blocks_seen(b.kind, n, t, blocks_in(b)->0);
    }
    if array_a && field(n, name) is Some {
        lemma_sorted_shape(field(n, name)->0);
    }
    if array_b && field(m, name) is Some {
        lemma_sorted_shape(field(m, name)->0);
    }
}

/// What a block says makes a difference to the key, of every type of block and in messages of the
/// user as in those of the assistant: two entries have different keys where the blocks at one
/// place differ in a field that does not only tie the block to others. So what a tool is given
/// and what it gives back, what a text or a thought says, and what type a block has all tell
/// entries apart. For the names of tools see [`tools_make_a_difference`].
pub proof fn blocks_make_a_difference(
    a: ComparisonEntry,
    b: ComparisonEntry,
    k: int,
    f: Seq<(Seq<char>, JsonView)>,
    g: Seq<(Seq<char>, JsonView)>,
    name: Seq<char>,
)
    requires
        json::numbers_ok(a.value@),
        json::numbers_ok(b.value@),
        a.kind == b.kind,
        is_said(a.kind),
        blocks_in(a) is Some,
        blocks_in(b) is Some,
        0 <= k < blocks_in(a)->0.len(),
        0 <= k < blocks_in(b)->0.len(),
        blocks_in(a)->0[k] == JsonView::Object(f),
        blocks_in(b)->0[k] == JsonView::Object(g),
        !is_tie(f, name),
        !is_tie(g, name),
        json::text_of(field(f, "type"@)) == Some("tool_use"@) ==> name != "name"@,
        json::text_of(field(g, "type"@)) == Some("tool_use"@) ==> name != "name"@,
        field_differs(f, g, name),
    ensures
        fingerprint(a) != fingerprint(b),
{
    let (s, t) = (tools_of(a.semantics), tools_of(b.semantics));
    fingerprints_tell_payloads_apart(a, b);
    lemma_message_seen(a.kind, fields_in(a)->0, s);
    lemma_message_seen(b.kind, fields_in(b)->0, t);
    lemma_blocks_seen(a.kind, message_in(a)->0, s, blocks_in(a)->0);
    lemma_blocks_seen(b.kind, message_in(b)->0, t, blocks_in(b)->0);
    let x = seen_blocks(payload(a.kind, a.value@, s));
    let y = seen_blocks(payload(b.kind, b.value@, t));
    assert(x[k] == sorted_json(neutral_block(JsonView::Object(f), s)));
    assert(y[k] == sorted_json(neutral_block(JsonView::Object(g), t)));
    lemma_block_field_seen(f, s, name);
    lemma_block_field_seen(g, t, name);
}

/// How many blocks a message has, and what stands at a place where there is no object, makes a
/// difference to the key.
pub proof fn plain_blocks_make_a_difference(a: ComparisonEntry, b: ComparisonEntry, k: int)
    requires
        json::numbers_ok(a.value@),
        json::numbers_ok(b.value@),
        a.kind == b.kind,
        is_said(a.kind),
        blocks_in(a) is Some,
        blocks_in(b) is Some,
        blocks_in(a)->0.len() != blocks_in(b)->0.len() || (0 <= k < blocks_in(a)->0.len()
            && sorted_json(blocks_in(a)->0[k]) != sorted_json(blocks_in(b)->0[k]) && !(blocks_in(
            a,
        )->0[k] is Object && blocks_in(b)->0[k] is Object)),
    ensures
        fingerprint(a) != fingerprint(b),
{
    let (s, t) = (tools_of(a.semantics), tools_of(b.semantics));
    fingerprints_tell_payloads_apart(a, b);
    lemma_message_seen(a.kind, fields_in(a)->0, s);
    lemma_message_seen(b.kind, fields_in(b)->0, t);
    lemma_blocks_seen(a.kind, message_in(a)->0, s, blocks_in(a)->0);
    lemma_blocks_seen(b.kind, message_in(b)->0, t, blocks_in(b)->0);
    let x = seen_blocks(payload(a.kind, a.value@, s));
    let y = seen_blocks(payload(b.kind, b.value@, t));
    if blocks_in(a)->0.len() == blocks_in(b)->0.len() {
        let (p, q) = (blocks_in(a)->0[k], blocks_in(b)->0[k]);
        assert(x[k] == sorted_json(neutral_block(p, s)));
        assert(y[k] == sorted_json(neutral_block(q, t)));
        lemma_sorted_shape(p);
        lemma_sorted_shape(q);
        lemma_sorted_shape(neutral_block(p, s));
        lemma_sorted_shape(neutral_block(q, t));
    }
}

/// What a snapshot records makes a difference to the key: two snapshots have different keys where
/// a field of their records differs, other than the id of the message and the time.
pub proof fn records_make_a_difference(a: ComparisonEntry, b: ComparisonEntry, name: Seq<char>)
    requires
        json::numbers_ok(a.value@),
        json::numbers_ok(b.value@),
        a.kind is FileHistorySnapshot,
        b.kind is FileHistorySnapshot,
        record_in(a) is Some,
        record_in(b) is Some,
        name != "messageId"@,
        name != "timestamp"@,
        field_differs(record_in(a)->0, record_in(b)->0, name),
    ensures
        fingerprint(a) != fingerprint(b),
{
    fingerprints_tell_payloads_apart(a, b);
    lemma_record_seen(fields_in(a)->0, tools_of(a.semantics));
    lemma_record_seen(fields_in(b)->0, tools_of(b.semantics));
    lemma_kept_field(record_in(a)->0, FieldSet::SnapshotRecord, name);
    lemma_kept_field(record_in(b)->0, FieldSet::SnapshotRecord, name);
    json::sorting_keeps_fields(without(record_in(a)->0, FieldSet::SnapshotRecord), name);
    json::sorting_keeps_fields(without(record_in(b)->0, FieldSet::SnapshotRecord), name);
}

/// Setting a detail of an entry, to any value, makes no difference to its key.
pub proof fn details_make_no_difference(
    a: ComparisonEntry,
    b: ComparisonEntry,
    name: Seq<char>,
    value: JsonView,
)
    requires
        a.kind == b.kind,
        tools_of(a.semantics) == tools_of(b.semantics),
        fields_in(a) is Some,
        b.value@ == JsonView::Object(with_field(fields_in(a)->0, name, value)),
        is_detail_of(a.kind, name),
    ensures
        fingerprint(a) == fingerprint(b),
{
    let f = fields_in(a)->0;
    let g = with_field(f, name, value);
    if is_in_set(FieldSet::Transport, name) {
        lemma_without_set(f, name, value, FieldSet::Transport);
    } else {
        let top = without(f, FieldSet::Transport);
        lemma_set_outside(f, name, value, FieldSet::Transport);
        if a.kind is System {
            lemma_without_set(top, name, value, FieldSet::System);
        } else if a.kind is Summary {
            lemma_without_set(top, name, value, FieldSet::Summary);
        } else {
            lemma_without_set(top, name, value, FieldSet::Snapshot);
        }
    }
    assert(neutral_fields(a.kind, f, tools_of(a.semantics)) == neutral_fields(
        b.kind,
        g,
        tools_of(b.semantics),
    ));
}

proof fn lemma_message_swapped(
    kind: EntryKind,
    fields: Seq<(Seq<char>, JsonView)>,
    message: Seq<(Seq<char>, JsonView)>,
    tools: Seq<ToolSemantics>,
)
    requires
        is_said(kind),
        field(fields, "message"@) is Some,
        field(fields, "message"@)->0 is Object,
        said_in(kind, field(fields, "message"@)->0->Object_0, tools) == said_in(
            kind,
            message,
            tools,
        ),
    ensures
        neutral_fields(kind, with_field(fields, "message"@, JsonView::Object(message)), tools)
            == neutral_fields(kind, fields, tools),
{
    lemma_literals();
    let value = JsonView::Object(message);
    let top = without(fields, FieldSet::Transport);
    lemma_kept_field(fields, FieldSet::Transport, "message"@);
    lemma_set_outside(fields, "message"@, value, FieldSet::Transport);
    json::set_fields_are_kept(top, "message"@, value, "message"@);
    lemma_set_twice(top, "message"@, value, JsonView::Object(said_in(kind, message, tools)));
}

/// Setting a field of an answer that only says how it came about, to any value, makes no
/// difference to its key.
pub proof fn answers_of_any_origin_are_alike(
    a: ComparisonEntry,
    b: ComparisonEntry,
    name: Seq<char>,
    value: JsonView,
)
    requires
        a.kind is Assistant,
        b.kind is Assistant,
        tools_of(a.semantics) == tools_of(b.semantics),
        message_in(a) is Some,
        b.value@ == JsonView::Object(
            with_field(
                fields_in(a)->0,
                "message"@,
                JsonView::Object(with_field(message_in(a)->0, name, value)),
            ),
        ),
        is_answer_detail(name),
    ensures
        fingerprint(a) == fingerprint(b),
{
    lemma_without_set(message_in(a)->0, name, value, FieldSet::Answer);
    lemma_message_swapped(
        a.kind,
        fields_in(a)->0,
        with_field(message_in(a)->0, name, value),
        tools_of(a.semantics),
    );
}

proof fn lemma_content_swapped(
    kind: EntryKind,
    message: Seq<(Seq<char>, JsonView)>,
    p: Seq<JsonView>,
    q: Seq<JsonView>,
    tools: Seq<ToolSemantics>,
)
    requires
        is_said(kind),
        field(message, "content"@) == Some(JsonView::Array(p)),
        neutral_blocks(p, tools) == neutral_blocks(q, tools),
    ensures
        said_in(kind, with_field(message, "content"@, JsonView::Array(q)), tools) == said_in(
            kind,
            message,
            tools,
        ),
{
    lemma_literals();
    let own = if kind is Assistant {
        without(message, FieldSet::Answer)
    } else {
        message
    };
    if kind is Assistant {
        lemma_kept_field(message, FieldSet::Answer, "content"@);
        lemma_set_outside(message, "content"@, JsonView::Array(q), FieldSet::Answer);
    }
    json::set_fields_are_kept(own, "content"@, JsonView::Array(q), "content"@);
    lemma_set_twice(
        own,
        "content"@,
        JsonView::Array(q),
        JsonView::Array(neutral_blocks(q, tools)),
    );
}

/// One block of an entry is another, and all else is the same.
pub open spec fn differs_in_block(
    a: ComparisonEntry,
    b: ComparisonEntry,
    k: int,
    f: Seq<(Seq<char>, JsonView)>,
    g: Seq<(Seq<char>, JsonView)>,
) -> bool {
    &&& a.kind == b.kind
    &&& tools_of(a.semantics) == tools_of(b.semantics)
    &&& blocks_in(a) is Some
    &&& 0 <= k < blocks_in(a)->0.len()
    &&& blocks_in(a)->0[k] == JsonView::Object(f)
    &&& b.value@ == JsonView::Object(
        with_field(
            fields_in(a)->0,
            "message"@,
            JsonView::Object(
                with_field(
                    message_in(a)->0,
                    "content"@,
                    JsonView::Array(blocks_in(a)->0.update(k, JsonView::Object(g))),
                ),
            ),
        ),
    )
}

proof fn lemma_block_swapped(
    a: ComparisonEntry,
    b: ComparisonEntry,
    k: int,
    f: Seq<(Seq<char>, JsonView)>,
    g: Seq<(Seq<char>, JsonView)>,
)
    requires
        is_said(a.kind),
        differs_in_block(a, b, k, f, g),
        neutral_block(JsonView::Object(f), tools_of(a.semantics)) == neutral_block(
            JsonView::Object(g),
            tools_of(a.semantics),
        ),
    ensures
        fingerprint(a) == fingerprint(b),
{
    let tools = tools_of(a.semantics);
    let p = blocks_in(a)->0;
    let q = p.update(k, JsonView::Object(g));
    assert(neutral_blocks(p, tools) =~= neutral_blocks(q, tools));
    lemma_content_swapped(a.kind, message_in(a)->0, p, q, tools);
    lemma_message_swapped(
        a.kind,
        fields_in(a)->0,
        with_field(message_in(a)->0, "content"@, JsonView::Array(q)),
        tools,
    );
}

/// Setting what ties a block to others or to its provider, to any value, makes no difference to
/// the key of an entry: the call that a result of a tool belongs to, the signature of a thought,
/// and the id of a call of which the provider says nothing.
pub proof fn ties_make_no_difference(
    a: ComparisonEntry,
    b: ComparisonEntry,
    k: int,
    f: Seq<(Seq<char>, JsonView)>,
    name: Seq<char>,
    value: JsonView,
)
    requires
        is_said(a.kind),
        differs_in_block(a, b, k, f, with_field(f, name, value)),
        is_tie(f, name),
        json::text_of(field(f, "type"@)) == Some("tool_use"@) ==> a.semantics is None,
    ensures
        fingerprint(a) == fingerprint(b),
{
    lemma_names();
    let g = with_field(f, name, value);
    json::set_fields_are_kept(f, name, value, "type"@);
    let kind = json::text_of(field(f, "type"@));
    if kind == Some("tool_use"@) {
        lemma_call_id(f, value);
    } else if kind == Some("tool_result"@) {
        lemma_without_set(f, name, value, FieldSet::ToolResult);
    } else {
        lemma_without_set(f, name, value, FieldSet::Thinking);
    }
    lemma_block_swapped(a, b, k, f, g);
}

/// Setting the id of the message or the time of the record of a snapshot, to any value, makes no
/// difference to its key.
pub proof fn record_details_make_no_difference(
    a: ComparisonEntry,
    b: ComparisonEntry,
    name: Seq<char>,
    value: JsonView,
)
    requires
        a.kind is FileHistorySnapshot,
        b.kind is FileHistorySnapshot,
        record_in(a) is Some,
        b.value@ == JsonView::Object(
            with_field(
                fields_in(a)->0,
                "snapshot"@,
                JsonView::Object(with_field(record_in(a)->0, name, value)),
            ),
        ),
        name == "messageId"@ || name == "timestamp"@,
    ensures
        fingerprint(a) == fingerprint(b),
{
    lemma_names();
    let f = fields_in(a)->0;
    let r = record_in(a)->0;
    let new = JsonView::Object(with_field(r, name, value));
    let top = without(f, FieldSet::Transport);
    let outer = without(top, FieldSet::Snapshot);
    lemma_kept_field(f, FieldSet::Transport, "snapshot"@);
    lemma_kept_field(top, FieldSet::Snapshot, "snapshot"@);
    lemma_set_outside(f, "snapshot"@, new, FieldSet::Transport);
    lemma_set_outside(top, "snapshot"@, new, FieldSet::Snapshot);
    json::set_fields_are_kept(outer, "snapshot"@, new, "snapshot"@);
    lemma_without_set(r, name, value, FieldSet::SnapshotRecord);
    lemma_set_twice(
        outer,
        "snapshot"@,
        new,
        JsonView::Object(without(r, FieldSet::SnapshotRecord)),
    );
}

/// A tool that runs commands.
pub open spec fn runs_commands(n: Seq<char>) -> bool {
    n == "Bash"@ || n == "shell"@ || n == "local_shell"@ || n == "exec_command"@ || n
        == "write_stdin"@
}

/// A tool that reads files.
pub open spec fn reads_files(n: Seq<char>) -> bool {
    n == "Read"@ || n == "read_file"@ || n == "view_image"@
}

/// A tool that writes files.
pub open spec fn writes_to_files(n: Seq<char>) -> bool {
    n == "Write"@ || n == "Edit"@ || n == "MultiEdit"@ || n == "NotebookEdit"@ || n
        == "apply_patch"@
}

/// A tool that searches files.
pub open spec fn searches_files(n: Seq<char>) -> bool {
    n == "Glob"@ || n == "Grep"@ || n == "grep"@ || n == "find"@ || n == "search"@
}

/// A tool that reads the web.
pub open spec fn reads_web(n: Seq<char>) -> bool {
    n == "WebSearch"@ || n == "WebFetch"@ || n == "web_search"@ || n == "browser.search"@ || n
        == "web.run"@
}

/// A tool that starts other agents.
pub open spec fn starts_agents(n: Seq<char>) -> bool {
    n == "Task"@ || n == "Agent"@
}

/// A tool that steers the work.
pub open spec fn steers_work(n: Seq<char>) -> bool {
    n == "exec"@ || n == "wait"@ || n == "update_plan"@
}

/// A tool with a known name.
pub open spec fn is_well_known(n: Seq<char>) -> bool {
    runs_commands(n) || reads_files(n) || writes_to_files(n) || searches_files(n) || reads_web(n)
        || starts_agents(n) || steers_work(n)
}

/// Two tools do the same sort of work: both names are of one family, or both are of servers, or
/// they are the same name.
pub open spec fn do_the_same(x: Seq<char>, y: Seq<char>) -> bool {
    ||| x == y
    ||| runs_commands(x) && runs_commands(y)
    ||| reads_files(x) && reads_files(y)
    ||| writes_to_files(x) && writes_to_files(y)
    ||| searches_files(x) && searches_files(y)
    ||| reads_web(x) && reads_web(y)
    ||| starts_agents(x) && starts_agents(y)
    ||| steers_work(x) && steers_work(y)
    ||| !is_well_known(x) && !is_well_known(y) && (begins(x, "mcp"@) || has(x, "__"@)) && (begins(
        y,
        "mcp"@,
    ) || has(y, "__"@))
}

proof fn lemma_tool_names(n: Seq<char>)
    ensures
        runs_commands(n) ==> !reads_files(n) && !writes_to_files(n) && !searches_files(n)
            && !reads_web(n) && !starts_agents(n) && !steers_work(n),
        reads_files(n) ==> !writes_to_files(n) && !searches_files(n) && !reads_web(n)
            && !starts_agents(n) && !steers_work(n),
        writes_to_files(n) ==> !searches_files(n) && !reads_web(n) && !starts_agents(n)
            && !steers_work(n),
        searches_files(n) ==> !reads_web(n) && !starts_agents(n) && !steers_work(n),
        reads_web(n) ==> !starts_agents(n) && !steers_work(n),
        starts_agents(n) ==> !steers_work(n),
        begins(n, "mcp__"@) ==> begins(n, "mcp"@),
{
    reveal_strlit("Bash");
    reveal_strlit("shell");
    reveal_strlit("local_shell");
    reveal_strlit("exec_command");
    reveal_strlit("write_stdin");
    reveal_strlit("Read");
    reveal_strlit("read_file");
    reveal_strlit("view_image");
    reveal_strlit("Write");
    reveal_strlit("Edit");
    reveal_strlit("MultiEdit");
    reveal_strlit("NotebookEdit");
    reveal_strlit("apply_patch");
    reveal_strlit("Glob");
    reveal_strlit("Grep");
    reveal_strlit("grep");
    reveal_strlit("find");
    reveal_strlit("search");
    reveal_strlit("WebSearch");
    reveal_strlit("WebFetch");
    reveal_strlit("web_search");
    reveal_strlit("browser.search");
    reveal_strlit("web.run");
    reveal_strlit("Task");
    reveal_strlit("Agent");
    reveal_strlit("exec");
    reveal_strlit("wait");
    reveal_strlit("update_plan");
    reveal_strlit("mcp__");
    reveal_strlit("mcp");
    assert("Bash"@.len() == 4 && "Bash"@[0] == 'B');
    assert("shell"@.len() == 5 && "shell"@[0] == 's');
    assert("local_shell"@.len() == 11 && "local_shell"@[0] == 'l');
    assert("exec_command"@.len() == 12 && "exec_command"@[0] == 'e');
    assert("write_stdin"@.len() == 11 && "write_stdin"@[0] == 'w');
    assert("Read"@.len() == 4 && "Read"@[0] == 'R');
    assert("read_file"@.len() == 9 && "read_file"@[0] == 'r');
    assert("view_image"@.len() == 10 && "view_image"@[0] == 'v');
    assert("Write"@.len() == 5 && "Write"@[0] == 'W');
    assert("Edit"@.len() == 4 && "Edit"@[0] == 'E');
    assert("MultiEdit"@.len() == 9 && "MultiEdit"@[0] == 'M');
    assert("NotebookEdit"@.len() == 12 && "NotebookEdit"@[0] == 'N');
    assert("apply_patch"@.len() == 11 && "apply_patch"@[0] == 'a');
    assert("Glob"@.len() == 4 && "Glob"@[0] == 'G');
    assert("Grep"@.len() == 4 && "Grep"@[0] == 'G');
    assert("grep"@.len() == 4 && "grep"@[0] == 'g');
    assert("find"@.len() == 4 && "find"@[0] == 'f');
    assert("search"@.len() == 6 && "search"@[0] == 's');
    assert("WebSearch"@.len() == 9 && "WebSearch"@[0] == 'W');
    assert("WebFetch"@.len() == 8 && "WebFetch"@[0] == 'W');
    assert("web_search"@.len() == 10 && "web_search"@[0] == 'w');
    assert("browser.search"@.len() == 14 && "browser.search"@[0] == 'b');
    assert("web.run"@.len() == 7 && "web.run"@[0] == 'w');
    assert("Task"@.len() == 4 && "Task"@[0] == 'T');
    assert("Agent"@.len() == 5 && "Agent"@[0] == 'A');
    assert("exec"@.len() == 4 && "exec"@[0] == 'e');
    assert("wait"@.len() == 4 && "wait"@[0] == 'w');
    assert("update_plan"@.len() == 11 && "update_plan"@[0] == 'u');
    if begins(n, "mcp__"@) {
        assert("mcp"@ =~= "mcp__"@.take(3));
        assert(n.take(3) =~= n.take(5).take(3));
    }
}

proof fn lemma_labels(x: Seq<char>, y: Seq<char>)
    ensures
        "shell"@ != "file_read"@ && "shell"@ != "file_write"@ && "shell"@ != "search"@ && "shell"@
            != "web"@ && "shell"@ != "subagent"@ && "shell"@ != "orchestration"@ && "shell"@
            != "mcp"@,
        "file_read"@ != "file_write"@ && "file_read"@ != "search"@ && "file_read"@ != "web"@
            && "file_read"@ != "subagent"@ && "file_read"@ != "orchestration"@ && "file_read"@
            != "mcp"@,
        "file_write"@ != "search"@ && "file_write"@ != "web"@ && "file_write"@ != "subagent"@
            && "file_write"@ != "orchestration"@ && "file_write"@ != "mcp"@,
        "search"@ != "web"@ && "search"@ != "subagent"@ && "search"@ != "orchestration"@
            && "search"@ != "mcp"@,
        "web"@ != "subagent"@ && "web"@ != "orchestration"@ && "web"@ != "mcp"@,
        "subagent"@ != "orchestration"@ && "subagent"@ != "mcp"@,
        "orchestration"@ != "mcp"@,
        "other:"@ + x != "shell"@ && "other:"@ + x != "file_read"@ && "other:"@ + x
            != "file_write"@ && "other:"@ + x != "search"@ && "other:"@ + x != "web"@ && "other:"@
            + x != "subagent"@ && "other:"@ + x != "orchestration"@ && "other:"@ + x != "mcp"@,
        "other:"@ + x == "other:"@ + y ==> x == y,
{
    reveal_strlit("shell");
    reveal_strlit("file_read");
    reveal_strlit("file_write");
    reveal_strlit("search");
    reveal_strlit("web");
    reveal_strlit("subagent");
    reveal_strlit("orchestration");
    reveal_strlit("mcp");
    reveal_strlit("other:");
    assert("shell"@.len() == 5 && "file_read"@.len() == 9 && "file_write"@.len() == 10);
    assert("search"@.len() == 6 && "web"@.len() == 3 && "subagent"@.len() == 8);
    assert("orchestration"@.len() == 13 && "mcp"@.len() == 3 && "other:"@.len() == 6);
    assert("web"@[0] == 'w' && "mcp"@[0] == 'm');
    let o = "other:"@ + x;
    assert(o[0] == 'o' && o[1] == 't');
    assert("shell"@[0] == 's' && "file_read"@[0] == 'f' && "file_write"@[0] == 'f');
    assert("search"@[0] == 's' && "subagent"@[0] == 's' && "orchestration"@[1] == 'r');
    if o == "other:"@ + y {
        assert(x =~= o.skip(6));
        assert(y =~= ("other:"@ + y).skip(6));
    }
}

/// Two tools have the same label exactly where they do the same sort of work.
pub proof fn tools_are_told_apart_by_work(x: Seq<char>, y: Seq<char>)
    ensures
        native_label(x) == native_label(y) <==> do_the_same(x, y),
{
    lemma_tool_names(x);
    lemma_tool_names(y);
    lemma_labels(x, y);
    lemma_labels(y, x);
}

/// Two sorts of work have the same label exactly where they are the same, and another sort is its
/// own.
pub proof fn sorts_of_work_have_labels(x: ToolKind, y: ToolKind)
    ensures
        kind_label(x) == kind_label(y) <==> (x == y || (x matches ToolKind::Other(n) && (
        y matches ToolKind::Other(m) && n@ == m@))),
{
    let n = match x {
        ToolKind::Other(n) => n@,
        _ => Seq::empty(),
    };
    let m = match y {
        ToolKind::Other(m) => m@,
        _ => Seq::empty(),
    };
    lemma_labels(n, m);
    lemma_labels(m, n);
}

proof fn lemma_call_name_seen(
    call: Seq<(Seq<char>, JsonView)>,
    tools: Seq<ToolSemantics>,
    label: Seq<char>,
)
    requires
        json::text_of(field(call, "type"@)) == Some("tool_use"@),
        call_label(call, tools) == Some(label),
    ensures
        said_field(sorted_json(neutral_block(JsonView::Object(call), tools)), "name"@) == Some(
            JsonView::Text(label),
        ),
{
    lemma_literals();
    let named = with_field(call, "name"@, JsonView::Text(label));
    json::set_fields_are_kept(call, "name"@, JsonView::Text(label), "name"@);
    lemma_kept_field(named, FieldSet::ToolUse, "name"@);
    json::sorting_keeps_fields(without(named, FieldSet::ToolUse), "name"@);
}

/// Which sort of work a called tool does makes a difference to the key, and nothing else of its
/// name: two entries have different keys where at one place they call tools that do not do the
/// same, and the name can be set to that of a tool that does the same without changing the key.
/// This is so where the provider says nothing of the calls.
pub proof fn tools_make_a_difference(
    a: ComparisonEntry,
    b: ComparisonEntry,
    k: int,
    f: Seq<(Seq<char>, JsonView)>,
    g: Seq<(Seq<char>, JsonView)>,
    x: Seq<char>,
    y: Seq<char>,
)
    requires
        is_said(a.kind),
        a.kind == b.kind,
        a.semantics is None,
        b.semantics is None,
        blocks_in(a) is Some,
        blocks_in(b) is Some,
        0 <= k < blocks_in(a)->0.len(),
        0 <= k < blocks_in(b)->0.len(),
        blocks_in(a)->0[k] == JsonView::Object(f),
        blocks_in(b)->0[k] == JsonView::Object(g),
        json::text_of(field(f, "type"@)) == Some("tool_use"@),
        json::text_of(field(g, "type"@)) == Some("tool_use"@),
        field(f, "name"@) == Some(JsonView::Text(x)),
        field(g, "name"@) == Some(JsonView::Text(y)),
    ensures
        json::numbers_ok(a.value@) && json::numbers_ok(b.value@) && !do_the_same(x, y)
            ==> fingerprint(a) != fingerprint(b),
        differs_in_block(a, b, k, f, with_field(f, "name"@, JsonView::Text(y))) && do_the_same(
            x,
            y,
        ) ==> fingerprint(a) == fingerprint(b),
{
    let none = Seq::<ToolSemantics>::empty();
    tools_are_told_apart_by_work(x, y);
    lemma_names();
    if json::numbers_ok(a.value@) && json::numbers_ok(b.value@) && !do_the_same(x, y) {
        fingerprints_tell_payloads_apart(a, b);
        lemma_message_seen(a.kind, fields_in(a)->0, none);
        lemma_message_seen(b.kind, fields_in(b)->0, none);
        lemma_blocks_seen(a.kind, message_in(a)->0, none, blocks_in(a)->0);
        lemma_blocks_seen(b.kind, message_in(b)->0, none, blocks_in(b)->0);
        let p = seen_blocks(payload(a.kind, a.value@, none));
        let q = seen_blocks(payload(b.kind, b.value@, none));
        assert(p[k] == sorted_json(neutral_block(JsonView::Object(f), none)));
        assert(q[k] == sorted_json(neutral_block(JsonView::Object(g), none)));
        lemma_call_name_seen(f, none, native_label(x));
        lemma_call_name_seen(g, none, native_label(y));
    }
    let h = with_field(f, "name"@, JsonView::Text(y));
    if differs_in_block(a, b, k, f, h) && do_the_same(x, y) {
        json::set_fields_are_kept(f, "name"@, JsonView::Text(y), "type"@);
        json::set_fields_are_kept(f, "name"@, JsonView::Text(y), "name"@);
        json::set_fields_are_kept(f, "name"@, JsonView::Text(y), "id"@);
        lemma_set_twice(f, "name"@, JsonView::Text(y), JsonView::Text(native_label(y)));
        lemma_block_swapped(a, b, k, f, h);
    }
}

proof fn lemma_known_label(tools: Seq<ToolSemantics>, call_id: Seq<char>, i: int)
    requires
        0 <= i < tools.len(),
        tools[i].call_id@ == call_id,
        forall|j: int| 0 <= j < i ==> (#[trigger] tools[j]).call_id@ != call_id,
    ensures
        known_label(tools, call_id) == Some(kind_label(tools[i].kind)),
    decreases i,
{
    if i > 0 {
        assert(tools[0].call_id@ != call_id);
        let rest = tools.drop_first();
        assert forall|j: int| 0 <= j < i - 1 implies (#[trigger] rest[j]).call_id@ != call_id by {
            assert(rest[j] == tools[j + 1]);
        }
        assert(rest[i - 1] == tools[i]);
        lemma_known_label(rest, call_id, i - 1);
    }
}

/// What a provider knows of a call goes before its name: two entries have different keys where at
/// one place they call tools of which their providers know that they do different sorts of work,
/// whatever the names of the tools are.
pub proof fn known_work_makes_a_difference(
    a: ComparisonEntry,
    b: ComparisonEntry,
    k: int,
    f: Seq<(Seq<char>, JsonView)>,
    g: Seq<(Seq<char>, JsonView)>,
    i: int,
    j: int,
)
    requires
        json::numbers_ok(a.value@),
        json::numbers_ok(b.value@),
        is_said(a.kind),
        a.kind == b.kind,
        a.semantics is Some,
        b.semantics is Some,
        blocks_in(a) is Some,
        blocks_in(b) is Some,
        0 <= k < blocks_in(a)->0.len(),
        0 <= k < blocks_in(b)->0.len(),
        blocks_in(a)->0[k] == JsonView::Object(f),
        blocks_in(b)->0[k] == JsonView::Object(g),
        json::text_of(field(f, "type"@)) == Some("tool_use"@),
        json::text_of(field(g, "type"@)) == Some("tool_use"@),
        0 <= i < a.semantics->0.tools@.len(),
        0 <= j < b.semantics->0.tools@.len(),
        field(f, "id"@) == Some(JsonView::Text(a.semantics->0.tools@[i].call_id@)),
        field(g, "id"@) == Some(JsonView::Text(b.semantics->0.tools@[j].call_id@)),
        forall|n: int|
            0 <= n < i ==> (#[trigger] a.semantics->0.tools@[n]).call_id@
                != a.semantics->0.tools@[i].call_id@,
        forall|n: int|
            0 <= n < j ==> (#[trigger] b.semantics->0.tools@[n]).call_id@
                != b.semantics->0.tools@[j].call_id@,
        kind_label(a.semantics->0.tools@[i].kind) != kind_label(b.semantics->0.tools@[j].kind),
    ensures
        fingerprint(a) != fingerprint(b),
{
    let (s, t) = (tools_of(a.semantics), tools_of(b.semantics));
    lemma_known_label(s, s[i].call_id@, i);
    lemma_known_label(t, t[j].call_id@, j);
    fingerprints_tell_payloads_apart(a, b);
    lemma_message_seen(a.kind, fields_in(a)->0, s);
    lemma_message_seen(b.kind, fields_in(b)->0, t);
    lemma_blocks_seen(a.kind, message_in(a)->0, s, blocks_in(a)->0);
    lemma_blocks_seen(b.kind, message_in(b)->0, t, blocks_in(b)->0);
    let p = seen_blocks(payload(a.kind, a.value@, s));
    let q = seen_blocks(payload(b.kind, b.value@, t));
    assert(p[k] == sorted_json(neutral_block(JsonView::Object(f), s)));
    assert(q[k] == sorted_json(neutral_block(JsonView::Object(g), t)));
    lemma_call_name_seen(f, s, kind_label(s[i].kind));
    lemma_call_name_seen(g, t, kind_label(t[j].kind));
}

/// Which entries are compared: exactly those whose type is among the types that are asked for, in
/// small letters; and where only prompts of people are wanted, of the messages of the user only
/// those that a person wrote, by what the provider knows, else by how they read.
pub proof fn asked_for_entries_are_compared(
    entries: Seq<ComparisonEntry>,
    types: Option<Seq<Seq<char>>>,
    human_prompts_only: bool,
    i: int,
)
    requires
        0 <= i < entries.len(),
    ensures
        compared_places(entries, types, human_prompts_only).contains(i) <==> {
            &&& types is None || types->0.contains(lowercase(entries[i].message_type@))
            &&& !human_prompts_only || entries[i].message_type@ != "user"@ || (
            entries[i].semantics is Some && entries[i].semantics->0.prompt is Some
                && entries[i].semantics->0.prompt->0 is Human) || (entries[i].semantics is None
                && entries[i].human_prompt)
        },
    decreases entries.len(),
{
    let front = entries.drop_last();
    let all = compared_places(entries, types, human_prompts_only);
    let before = compared_places(front, types, human_prompts_only);
    lemma_places_in_range(front, types, human_prompts_only);
    if i < entries.len() - 1 {
        assert(front[i] == entries[i]);
        asked_for_entries_are_compared(front, types, human_prompts_only, i);
        if before.contains(i) {
            let k = choose|k: int| 0 <= k < before.len() && before[k] == i;
            assert(all[k] == i);
        }
        if all.contains(i) {
            let k = choose|k: int| 0 <= k < all.len() && all[k] == i;
            assert(before[k] == i);
        }
    } else {
        if before.contains(i) {
            let k = choose|k: int| 0 <= k < before.len() && before[k] == i;
        }
        if is_compared(entries[i], types, human_prompts_only) {
            assert(all[all.len() - 1] == i);
        }
    }
}

/// The entries that are compared stand in the order of the conversation, each once.
pub proof fn compared_entries_keep_their_order(
    entries: Seq<ComparisonEntry>,
    types: Option<Seq<Seq<char>>>,
    human_prompts_only: bool,
)
    ensures
        forall|j: int, k: int|
            0 <= j < k < compared_places(entries, types, human_prompts_only).len()
                ==> compared_places(entries, types, human_prompts_only)[j] < compared_places(
                entries,
                types,
                human_prompts_only,
            )[k],
    decreases entries.len(),
{
    if entries.len() > 0 {
        let before = compared_places(entries.drop_last(), types, human_prompts_only);
        let all = compared_places(entries, types, human_prompts_only);
        compared_entries_keep_their_order(entries.drop_last(), types, human_prompts_only);
        lemma_places_in_range(entries.drop_last(), types, human_prompts_only);
        assert forall|j: int, k: int| 0 <= j < k < all.len() implies all[j] < all[k] by {
            assert(all[j] == before[j]);
            if k < before.len() {
                assert(all[k] == before[k]);
                assert(before[j] < before[k]);
            }
        }
    }
}

// ---------------------------------------------------------------------------
// What a run does
// ---------------------------------------------------------------------------

/// The arguments of a comparison.
#[derive(Debug, Clone, PartialEq, Eq)]
pub struct DiffArgs {
    /// The providers that are asked for.
    pub provider: Vec<String>,
    /// What is compared.
    pub first: String,
    /// What it is compared with.
    pub second: String,
    /// Compare line by line.
    pub line_based: bool,
    /// Only the summary.
    pub summary_only: bool,
    /// No contents of lines.
    pub no_content: bool,
    /// Report a difference by the exit code.
    pub exit_code: bool,
    /// Which messages are compared.
    pub types: TypeArgs,
}

/// The registry of providers is needed: providers are asked for, or a reference has a colon.
pub open spec fn wants_registry(args: DiffArgs) -> bool {
    args.provider@.len() > 0 || args.first@.contains(':') || args.second@.contains(':')
}

/// Whether the registry of providers is needed.
pub fn needs_registry(args: &DiffArgs) -> (r: bool)
    ensures
        r == wants_registry(*args),
{
    args.provider.len() > 0 || text::contains_char(args.first.as_str(), ':') || text::contains_char(
        args.second.as_str(),
        ':',
    )
}

/// What a run has to load.
#[derive(Debug, Clone, Copy, PartialEq, Eq, Structural)]
pub struct DiffPlan {
    /// The first reference goes to the providers.
    pub first_provider: bool,
    /// The second reference goes to the providers.
    pub second_provider: bool,
    /// A reference goes to the session directory.
    pub needs_directory: bool,
    /// The comparison is line by line.
    pub line_based: bool,
}

/// Whether a reference goes to the providers: they are asked for, or there is a registry and
/// it takes the reference for a qualified one.
pub fn target_uses_provider(
    provider_flags: &Vec<String>,
    has_registry: bool,
    looks_qualified: bool,
) -> (r: bool)
    ensures
        r == (provider_flags@.len() > 0 || (has_registry && looks_qualified)),
{
    provider_flags.len() > 0 || (has_registry && looks_qualified)
}

/// Plans a comparison. The two flags say whether the registry takes the references for
/// qualified ones.
pub fn run(args: &DiffArgs, first_qualified: bool, second_qualified: bool) -> (r: DiffPlan)
    ensures
        r.first_provider == (args.provider@.len() > 0 || (wants_registry(*args)
            && first_qualified)),
        r.second_provider == (args.provider@.len() > 0 || (wants_registry(*args)
            && second_qualified)),
        r.needs_directory == !(r.first_provider && r.second_provider),
        r.line_based == args.line_based,
{
    let registry: bool = needs_registry(args);
    let first_provider: bool = target_uses_provider(&args.provider, registry, first_qualified);
    let second_provider: bool = target_uses_provider(&args.provider, registry, second_qualified);
    DiffPlan {
        first_provider,
        second_provider,
        needs_directory: !(first_provider && second_provider),
        line_based: args.line_based,
    }
}

/// The file of a reference: that of the session it names, else the path itself where there is
/// such a file.
pub fn resolve_classic_path(session: Option<String>, exists: bool, reference: &str) -> (r: Result<
    String,
    SnatchError,
>)
    ensures
        match session {
            Some(path) => r matches Ok(p) && p@ == path@,
            None => if exists {
                r matches Ok(p) && p@ == reference@
            } else {
                r matches Err(e) && e@ == (ErrorView::FileNotFound { path: reference@ })
            },
        },
{
    match session {
        Some(path) => Ok(path),
        None => if exists {
            Ok(reference.to_owned())
        } else {
            Err(SnatchError::FileNotFound { path: reference.to_owned() })
        },
    }
}

/// The error for a request that goes to the providers while there is no registry.
pub fn missing_registry() -> (r: SnatchError)
    ensures
        r@ == invalid(
            "provider"@,
            "provider routing was requested but no registry was constructed"@,
        ),
{
    invalid_argument(
        "provider",
        "provider routing was requested but no registry was constructed".to_owned(),
    )
}

/// Refuses a comparison line by line with a session of a provider that has no records in lines.
pub fn require_records(has_records: bool) -> (r: Result<(), SnatchError>)
    ensures
        if has_records {
            r is Ok
        } else {
            r matches Err(e) && e@ == (ErrorView::Unsupported {
                capability: "raw-jsonl line comparison"@,
            })
        },
{
    if has_records {
        Ok(())
    } else {
        Err(SnatchError::Unsupported { capability: "raw-jsonl line comparison".to_owned() })
    }
}

/// A limit on the size of files; zero is no limit.
pub open spec fn limit_of(max_file_size: Option<u64>) -> Option<u64> {
    match max_file_size {
        Some(limit) if limit != 0 => Some(limit),
        _ => None,
    }
}

/// A limit on the size of files; zero is no limit.
pub fn effective_limit(max_file_size: Option<u64>) -> (r: Option<u64>)
    ensures
        r == limit_of(max_file_size),
{
    match max_file_size {
        Some(limit) => if limit != 0 {
            Some(limit)
        } else {
            None
        },
        None => None,
    }
}

/// Refuses a file that is larger than the limit.
pub fn check_file_size(reference: &str, size: u64, max_file_size: Option<u64>) -> (r: Result<
    (),
    SnatchError,
>)
    ensures
        match limit_of(max_file_size) {
            Some(limit) if size > limit => r matches Err(e) && e@ == invalid(
                reference@,
                "file is "@ + decimal(size as nat) + " bytes, exceeding the "@ + decimal(
                    limit as nat,
                ) + "-byte limit"@,
            ),
            _ => r is Ok,
        },
{
    match effective_limit(max_file_size) {
        Some(limit) => {
            if size > limit {
                let have = text::number(size);
                let most = text::number(limit);
                return Err(
                    invalid_argument(
                        reference,
                        text::cat5(
                            "file is ",
                            have.as_str(),
                            " bytes, exceeding the ",
                            most.as_str(),
                            "-byte limit",
                        ),
                    ),
                );
            }
            Ok(())
        },
        None => Ok(()),
    }
}

/// Bytes that are gathered up to a limit.
#[derive(Debug, Clone, PartialEq, Eq)]
pub struct BoundedBytes {
    /// What was gathered.
    pub bytes: Vec<u8>,
    /// The most that may be gathered.
    pub max: Option<u64>,
}

impl BoundedBytes {
    /// No more is held than the limit allows.
    pub open spec fn within(&self) -> bool {
        match self.max {
            Some(max) => self.bytes@.len() <= max,
            None => true,
        }
    }

    /// Nothing yet.
    pub fn new(max: Option<u64>) -> (r: BoundedBytes)
        ensures
            r.bytes@.len() == 0,
            r.max == max,
            r.within(),
    {
        BoundedBytes { bytes: Vec::new(), max }
    }

    /// What was gathered.
    pub fn into_inner(self) -> (r: Vec<u8>)
        ensures
            r == self.bytes,
    {
        self.bytes
    }

    /// Gathers more. Where that would exceed the limit nothing is gathered.
    pub fn write(&mut self, more: &Vec<u8>) -> (r: Result<usize, String>)
        requires
            old(self).within(),
        ensures
            final(self).max == old(self).max,
            final(self).within(),
            match old(self).max {
                Some(max) if old(self).bytes@.len() + more@.len() > max => {
                    &&& r matches Err(reason) && reason@
                        == "raw JSONL exceeds the configured size limit"@
                    &&& final(self).bytes@ == old(self).bytes@
                },
                _ => {
                    &&& r == Ok::<usize, String>(more.len())
                    &&& final(self).bytes@ == old(self).bytes@ + more@
                },
            },
    {
        let have: u128 = self.bytes.len() as u128;
        let add: u128 = more.len() as u128;
        match self.max {
            Some(max) => {
                if have + add > max as u128 {
                    return Err("raw JSONL exceeds the configured size limit".to_owned());
                }
            },
            None => {},
        }
        let mut i: usize = 0;
        let ghost start = self.bytes@;
        proof {
            assert(start + more@.take(0) =~= start);
        }
        while i < more.len()
            invariant
                i <= more@.len(),
                self.max == old(self).max,
                self.bytes@ == start + more@.take(i as int),
            decreases more@.len() - i,
        {
            proof {
                assert((start + more@.take(i as int)).push(more@[i as int]) =~= start + more@.take(
                    i + 1,
                ));
            }
            self.bytes.push(more[i]);
            i = i + 1;
        }
        proof {
            assert(more@.take(i as int) =~= more@);
        }
        Ok(more.len())
    }
}

/// The records of a session as text: what was gathered must be valid UTF-8.
pub fn read_records(gathered: BoundedBytes, reference: &str) -> (r: Result<String, SnatchError>)
    ensures
        if valid_utf8(gathered.bytes@) {
            r matches Ok(s) && s@ == decode_utf8(gathered.bytes@)
        } else {
            r matches Err(e) && e@ == invalid(
                reference@,
                "raw JSONL comparison requires valid UTF-8 records"@,
            )
        },
{
    match text::from_utf8(gathered.into_inner()) {
        Some(s) => Ok(s),
        None => Err(
            invalid_argument(
                reference,
                "raw JSONL comparison requires valid UTF-8 records".to_owned(),
            ),
        ),
    }
}

/// The exit code of a comparison: one where a difference was found and is to be reported so.
pub fn exit_status(identical: bool, exit_code: bool) -> (r: i32)
    ensures
        r == (if !identical && exit_code {
            1int
        } else {
            0int
        }),
{
    if !identical && exit_code {
        1
    } else {
        0
    }
}

// ---------------------------------------------------------------------------
// Output
// ---------------------------------------------------------------------------

/// Where a compared session came from.
#[derive(Debug, Clone, PartialEq, Eq)]
pub struct DiffSource {
    /// How it is shown.
    pub display: String,
    /// The provider that it came from.
    pub provider: Option<String>,
    /// Its qualified id.
    pub qualified_id: Option<String>,
}

/// A line cut to a number of bytes, with dots in place of the last three.
pub open spec fn line_cut(line: Seq<char>, max_len: int) -> Seq<char> {
    if byte_len(line) <= max_len {
        line
    } else {
        within_bytes(line, max_len - 3) + "..."@
    }
}

/// The line is short enough, or can be cut between two characters.
pub open spec fn can_cut(line: Seq<char>, max_len: int) -> bool {
    byte_len(line) <= max_len || (max_len >= 3 && on_boundary(line, max_len - 3))
}

/// Whether a line is short enough, or can be cut between two characters.
pub fn line_can_be_cut(line: &str, max_len: usize) -> (r: bool)
    ensures
        r == can_cut(line@, max_len as int),
{
    if text::bytes(line) <= max_len {
        return true;
    }
    if max_len < 3 {
        return false;
    }
    let (_, used) = text::cut_bytes(line, max_len - 3);
    used == max_len - 3
}

/// Cuts a line for display.
pub fn truncate_line(line: &str, max_len: usize) -> (r: String)
    requires
        can_cut(line@, max_len as int),
    ensures
        r@ == line_cut(line@, max_len as int),
{
    if text::bytes(line) <= max_len {
        line.to_owned()
    } else {
        let (front, _) = text::cut_bytes(line, max_len - 3);
        text::cat2(front.as_str(), "...")
    }
}

/// The differences of two texts, line by line.
#[derive(Debug, Clone, PartialEq, Eq)]
pub struct LineDiff {
    /// Nothing differs.
    pub identical: bool,
    /// The number of lines that are the same.
    pub matching: usize,
    /// The lines that only the first has.
    pub only_in_first: Vec<usize>,
    /// The lines that only the second has.
    pub only_in_second: Vec<usize>,
    /// The lines that differ: the number, and the line in each.
    pub different: Vec<(usize, String, String)>,
}

/// The lines for a list of line numbers under a heading.
pub open spec fn numbered_lines(heading: Seq<char>, numbers: Seq<usize>) -> Seq<Seq<char>> {
    if numbers.len() == 0 {
        Seq::empty()
    } else {
        seq![heading] + Seq::new(numbers.len(), |i: int| "  Line "@ + decimal(numbers[i] as nat))
            + seq![""@]
    }
}

/// The lines for the lines that differ.
pub open spec fn different_lines(
    different: Seq<(usize, String, String)>,
    no_content: bool,
) -> Seq<Seq<char>>
    decreases different.len(),
{
    if different.len() == 0 {
        Seq::empty()
    } else {
        let (number, first, second) = different.last();
        different_lines(different.drop_last(), no_content) + seq![
            "  Line "@ + decimal(number as nat) + ":"@,
        ] + (if no_content {
            Seq::empty()
        } else {
            seq!["    A: "@ + line_cut(first@, 80), "    B: "@ + line_cut(second@, 80)]
        })
    }
}

/// What a comparison line by line prints.
pub open spec fn line_diff_lines(
    diff: LineDiff,
    first: Seq<char>,
    second: Seq<char>,
    summary_only: bool,
    no_content: bool,
) -> Seq<Seq<char>> {
    if diff.identical {
        seq!["Files are identical."@]
    } else {
        seq![
            "Comparing (line-based):"@,
            "  A: "@ + first,
            "  B: "@ + second,
            ""@,
            "Summary:"@,
            "  Matching lines:  "@ + decimal(diff.matching as nat),
            "  Only in A:       "@ + decimal(diff.only_in_first@.len()),
            "  Only in B:       "@ + decimal(diff.only_in_second@.len()),
            "  Different:       "@ + decimal(diff.different@.len()),
            ""@,
        ] + (if summary_only {
            Seq::empty()
        } else {
            numbered_lines("Lines only in A (first file):"@, diff.only_in_first@) + numbered_lines(
                "Lines only in B (second file):"@,
                diff.only_in_second@,
            ) + (if diff.different@.len() == 0 {
                Seq::empty()
            } else {
                seq!["Lines that differ:"@] + different_lines(diff.different@, no_content)
            })
        })
    }
}

/// Every line that would be shown can be cut.
pub open spec fn lines_can_be_cut(different: Seq<(usize, String, String)>) -> bool {
    forall|i: int|
        0 <= i < different.len() ==> can_cut((#[trigger] different[i]).1@, 80) && can_cut(
            different[i].2@,
            80,
        )
}

fn say_numbered(out: &mut Vec<String>, heading: &str, numbers: &Vec<usize>)
    ensures
        views(final(out)@) == views(old(out)@) + numbered_lines(heading@, numbers@),
{
    let ghost start = views(out@);
    if numbers.len() == 0 {
        proof {
            assert(start + Seq::empty() =~= start);
        }
        return;
    }
    text::say(out, heading);
    let ghost lines = Seq::new(
        numbers@.len(),
        |k: int| "  Line "@ + decimal(numbers@[k] as nat),
    );
    let mut i: usize = 0;
    proof {
        assert(start.push(heading@) =~= start + seq![heading@] + lines.take(0));
    }
    while i < numbers.len()
        invariant
            i <= numbers@.len(),
            lines == Seq::new(numbers@.len(), |k: int| "  Line "@ + decimal(numbers@[k] as nat)),
            views(out@) == start + seq![heading@] + lines.take(i as int),
        decreases numbers@.len() - i,
    {
        let n = text::size(numbers[i]);
        text::say2(out, "  Line ", n.as_str());
        proof {
            assert(lines.take(i + 1) =~= lines.take(i as int).push(lines[i as int]));
            assert(views(out@) =~= start + seq![heading@] + lines.take(i + 1));
        }
        i = i + 1;
    }
    text::say(out, "");
    proof {
        assert(lines.take(i as int) =~= lines);
        assert(views(out@) =~= start + numbered_lines(heading@, numbers@));
    }
}

fn say_different(out: &mut Vec<String>, different: &Vec<(usize, String, String)>, no_content: bool)
    requires
        no_content || lines_can_be_cut(different@),
    ensures
        views(final(out)@) == views(old(out)@) + different_lines(different@, no_content),
{
    let ghost start = views(out@);
    let mut i: usize = 0;
    proof {
        assert(different@.take(0) =~= Seq::empty());
        assert(start + Seq::empty() =~= start);
    }
    while i < different.len()
        invariant
            i <= different@.len(),
            no_content || lines_can_be_cut(different@),
            views(out@) == start + different_lines(different@.take(i as int), no_content),
        decreases different@.len() - i,
    {
        let entry = &different[i];
        proof {
            let next = different@.take(i + 1);
            assert(next.drop_last() =~= different@.take(i as int));
            assert(next.last() == different@[i as int]);
        }
        let n = text::size(entry.0);
        text::say3(out, "  Line ", n.as_str(), ":");
        if !no_content {
            let a = truncate_line(entry.1.as_str(), 80);
            let b = truncate_line(entry.2.as_str(), 80);
            text::say2(out, "    A: ", a.as_str());
            text::say2(out, "    B: ", b.as_str());
        }
        i = i + 1;
        proof {
            assert(views(out@) =~= start + different_lines(different@.take(i as int), no_content));
        }
    }
    proof {
        assert(different@.take(i as int) =~= different@);
    }
}

/// What a comparison line by line prints.
pub fn line_diff_text(
    diff: &LineDiff,
    first: &DiffSource,
    second: &DiffSource,
    summary_only: bool,
    no_content: bool,
) -> (r: Vec<String>)
    requires
        diff.identical || summary_only || no_content || lines_can_be_cut(diff.different@),
    ensures
        views(r@) == line_diff_lines(
            *diff,
            first.display@,
            second.display@,
            summary_only,
            no_content,
        ),
{
    let mut out: Vec<String> = Vec::new();
    proof {
        assert(views(out@) =~= Seq::empty());
    }
    if diff.identical {
        text::say(&mut out, "Files are identical.");
        proof {
            assert(views(out@) =~= seq!["Files are identical."@]);
        }
        return out;
    }
    let matching = text::size(diff.matching);
    let only_first = text::size(diff.only_in_first.len());
    let only_second = text::size(diff.only_in_second.len());
    let different = text::size(diff.different.len());
    text::say(&mut out, "Comparing (line-based):");
    text::say2(&mut out, "  A: ", first.display.as_str());
    text::say2(&mut out, "  B: ", second.display.as_str());
    text::say(&mut out, "");
    text::say(&mut out, "Summary:");
    text::say2(&mut out, "  Matching lines:  ", matching.as_str());
    text::say2(&mut out, "  Only in A:       ", only_first.as_str());
    text::say2(&mut out, "  Only in B:       ", only_second.as_str());
    text::say2(&mut out, "  Different:       ", different.as_str());
    text::say(&mut out, "");
    if !summary_only {
        say_numbered(&mut out, "Lines only in A (first file):", &diff.only_in_first);
        say_numbered(&mut out, "Lines only in B (second file):", &diff.only_in_second);
        if diff.different.len() > 0 {
            text::say(&mut out, "Lines that differ:");
            say_different(&mut out, &diff.different, no_content);
        }
    }
    proof {
        assert(views(out@) =~= line_diff_lines(
            *diff,
            first.display@,
            second.display@,
            summary_only,
            no_content,
        ));
    }
    out
}

/// What a comparison of meanings prints.
pub open spec fn semantic_diff_lines(
    diff: ConversationDiff,
    first: Seq<char>,
    second: Seq<char>,
    summary_only: bool,
    types: Option<Seq<Seq<char>>>,
) -> Seq<Seq<char>> {
    if diff.identical() {
        match types {
            Some(t) => seq![
                "Conversations are semantically identical (filtered to: "@ + joined(t, ", "@)
                    + ")."@,
            ],
            None => seq!["Conversations are semantically identical."@],
        }
    } else {
        seq!["Comparing (semantic):"@, "  A: "@ + first, "  B: "@ + second] + (match types {
            Some(t) => seq!["  Filter: "@ + joined(t, ", "@) + " messages only"@],
            None => Seq::empty(),
        }) + seq![
            ""@,
            "Summary:"@,
            "  Messages in A:      "@ + decimal(diff.first_message_count as nat),
            "  Messages in B:      "@ + decimal(diff.second_message_count as nat),
            "  Common messages:    "@ + decimal(diff.common_messages as nat),
            "  Added in B:         "@ + decimal(diff.added_messages as nat),
            "  Removed from A:     "@ + decimal(diff.removed_messages as nat),
            ""@,
        ] + (if summary_only {
            Seq::empty()
        } else {
            seq![
                "Message Type Breakdown:"@,
                "  A: "@ + decimal(diff.first_user_count as nat) + " user, "@ + decimal(
                    diff.first_assistant_count as nat,
                ) + " assistant"@,
                "  B: "@ + decimal(diff.second_user_count as nat) + " user, "@ + decimal(
                    diff.second_assistant_count as nat,
                ) + " assistant"@,
                ""@,
            ] + (if diff.first_branch_count > 0 || diff.second_branch_count > 0 {
                seq![
                    "Branch Analysis:"@,
                    "  A branches: "@ + decimal(diff.first_branch_count as nat),
                    "  B branches: "@ + decimal(diff.second_branch_count as nat),
                    ""@,
                ]
            } else {
                Seq::empty()
            })
        })
    }
}

fn say_size(out: &mut Vec<String>, label: &str, n: usize)
    ensures
        views(final(out)@) == views(old(out)@).push(label@ + decimal(n as nat)),
{
    let digits = text::size(n);
    text::say2(out, label, digits.as_str());
}

/// What a comparison of meanings prints.
pub fn semantic_diff_text(
    diff: &ConversationDiff,
    first: &DiffSource,
    second: &DiffSource,
    summary_only: bool,
    types: Option<&Vec<String>>,
) -> (r: Vec<String>)
    ensures
        views(r@) == semantic_diff_lines(
            *diff,
            first.display@,
            second.display@,
            summary_only,
            match types {
                Some(t) => Some(views(t@)),
                None => None,
            },
        ),
{
    let ghost wanted = match types {
        Some(t) => Some(views(t@)),
        None => None,
    };
    let mut out: Vec<String> = Vec::new();
    proof {
        assert(views(out@) =~= Seq::empty());
    }
    if diff.is_identical() {
        match types {
            Some(t) => {
                let list = text::join(t, ", ");
                text::say3(
                    &mut out,
                    "Conversations are semantically identical (filtered to: ",
                    list.as_str(),
                    ").",
                );
            },
            None => {
                text::say(&mut out, "Conversations are semantically identical.");
            },
        }
        proof {
            assert(views(out@) =~= semantic_diff_lines(
                *diff,
                first.display@,
                second.display@,
                summary_only,
                wanted,
            ));
        }
        return out;
    }
    text::say(&mut out, "Comparing (semantic):");
    text::say2(&mut out, "  A: ", first.display.as_str());
    text::say2(&mut out, "  B: ", second.display.as_str());
    match types {
        Some(t) => {
            let list = text::join(t, ", ");
            text::say3(&mut out, "  Filter: ", list.as_str(), " messages only");
        },
        None => {},
    }
    text::say(&mut out, "");
    text::say(&mut out, "Summary:");
    say_size(&mut out, "  Messages in A:      ", diff.first_message_count);
    say_size(&mut out, "  Messages in B:      ", diff.second_message_count);
    say_size(&mut out, "  Common messages:    ", diff.common_messages);
    say_size(&mut out, "  Added in B:         ", diff.added_messages);
    say_size(&mut out, "  Removed from A:     ", diff.removed_messages);
    text::say(&mut out, "");
    if !summary_only {
        let first_users = text::size(diff.first_user_count);
        let first_answers = text::size(diff.first_assistant_count);
        let second_users = text::size(diff.second_user_count);
        let second_answers = text::size(diff.second_assistant_count);
        text::say(&mut out, "Message Type Breakdown:");
        text::say5(
            &mut out,
            "  A: ",
            first_users.as_str(),
            " user, ",
            first_answers.as_str(),
            " assistant",
        );
        text::say5(
            &mut out,
            "  B: ",
            second_users.as_str(),
            " user, ",
            second_answers.as_str(),
            " assistant",
        );
        text::say(&mut out, "");
        if diff.first_branch_count > 0 || diff.second_branch_count > 0 {
            text::say(&mut out, "Branch Analysis:");
            say_size(&mut out, "  A branches: ", diff.first_branch_count);
            say_size(&mut out, "  B branches: ", diff.second_branch_count);
            text::say(&mut out, "");
        }
    }
    proof {
        assert(views(out@) =~= semantic_diff_lines(
            *diff,
            first.display@,
            second.display@,
            summary_only,
            wanted,
        ));
    }
    out
}

/// Where a compared session came from, as a value.
pub open spec fn source_json(source: DiffSource) -> JsonView {
    JsonView::Object(
        seq![
            ("provider"@, json::optional_text(source.provider)),
            ("qualified_id"@, json::optional_text(source.qualified_id)),
        ],
    )
}

fn build_source(source: &DiffSource) -> (r: Json)
    ensures
        r@ == source_json(*source),
{
    let mut fields: Vec<(String, Json)> = Vec::new();
    json::put(&mut fields, "provider", json::of_option(&source.provider));
    json::put(&mut fields, "qualified_id", json::of_option(&source.qualified_id));
    proof {
        assert(fields_view(fields@) =~= seq![
            ("provider"@, json::optional_text(source.provider)),
            ("qualified_id"@, json::optional_text(source.qualified_id)),
        ]);
    }
    Json::Object(fields)
}

/// The fields that say where the compared sessions came from; none where neither came from a
/// provider.
pub open spec fn source_fields(first: DiffSource, second: DiffSource) -> Seq<
    (Seq<char>, JsonView),
> {
    if first.provider is Some || second.provider is Some {
        seq![("first_source"@, source_json(first)), ("second_source"@, source_json(second))]
    } else {
        Seq::empty()
    }
}

fn add_source_identity(fields: &mut Vec<(String, Json)>, first: &DiffSource, second: &DiffSource)
    ensures
        fields_view(final(fields)@) == fields_view(old(fields)@) + source_fields(*first, *second),
{
    let ghost start = fields_view(fields@);
    if first.provider.is_some() || second.provider.is_some() {
        json::put(fields, "first_source", build_source(first));
        json::put(fields, "second_source", build_source(second));
    }
    proof {
        assert(fields_view(fields@) =~= start + source_fields(*first, *second));
    }
}

/// A comparison of meanings as a value.
pub open spec fn semantic_diff_value(
    diff: ConversationDiff,
    first: DiffSource,
    second: DiffSource,
    types: Option<Seq<Seq<char>>>,
) -> JsonView {
    JsonView::Object(
        seq![
            ("mode"@, JsonView::Text("semantic"@)),
            ("identical"@, JsonView::Bool(diff.identical())),
            ("first"@, JsonView::Text(first.display@)),
            ("second"@, JsonView::Text(second.display@)),
            ("comparison_basis"@, JsonView::Text("ordered_identity_neutral_payloads"@)),
            (
                "filter"@,
                match types {
                    Some(t) => json::texts_json(t),
                    None => JsonView::Null,
                },
            ),
            (
                "summary"@,
                JsonView::Object(
                    seq![
                        (
                            "first_message_count"@,
                            json::number_json(diff.first_message_count as nat),
                        ),
                        (
                            "second_message_count"@,
                            json::number_json(diff.second_message_count as nat),
                        ),
                        ("common_messages"@, json::number_json(diff.common_messages as nat)),
                        ("added_messages"@, json::number_json(diff.added_messages as nat)),
                        ("removed_messages"@, json::number_json(diff.removed_messages as nat)),
                    ],
                ),
            ),
            (
                "details"@,
                JsonView::Object(
                    seq![
                        (
                            "first"@,
                            side_json(
                                diff.first_user_count,
                                diff.first_assistant_count,
                                diff.first_branch_count,
                            ),
                        ),
                        (
                            "second"@,
                            side_json(
                                diff.second_user_count,
                                diff.second_assistant_count,
                                diff.second_branch_count,
                            ),
                        ),
                    ],
                ),
            ),
        ] + source_fields(first, second),
    )
}

/// The counts of one side as a value.
pub open spec fn side_json(users: usize, answers: usize, branches: usize) -> JsonView {
    JsonView::Object(
        seq![
            ("user_messages"@, json::number_json(users as nat)),
            ("assistant_messages"@, json::number_json(answers as nat)),
            ("branches"@, json::number_json(branches as nat)),
        ],
    )
}

fn build_side(users: usize, answers: usize, branches: usize) -> (r: Json)
    ensures
        r@ == side_json(users, answers, branches),
{
    let mut fields: Vec<(String, Json)> = Vec::new();
    json::put(&mut fields, "user_messages", json::of_size(users));
    json::put(&mut fields, "assistant_messages", json::of_size(answers));
    json::put(&mut fields, "branches", json::of_size(branches));
    proof {
        assert(fields_view(fields@) =~= side_json(users, answers, branches)->Object_0);
    }
    Json::Object(fields)
}

/// A comparison of meanings as a value.
pub fn semantic_diff_json(
    diff: &ConversationDiff,
    first: &DiffSource,
    second: &DiffSource,
    types: Option<&Vec<String>>,
) -> (r: Json)
    ensures
        r@ == semantic_diff_value(
            *diff,
            *first,
            *second,
            match types {
                Some(t) => Some(views(t@)),
                None => None,
            },
        ),
{
    let mut summary: Vec<(String, Json)> = Vec::new();
    json::put(&mut summary, "first_message_count", json::of_size(diff.first_message_count));
    json::put(&mut summary, "second_message_count", json::of_size(diff.second_message_count));
    json::put(&mut summary, "common_messages", json::of_size(diff.common_messages));
    json::put(&mut summary, "added_messages", json::of_size(diff.added_messages));
    json::put(&mut summary, "removed_messages", json::of_size(diff.removed_messages));
    let mut details: Vec<(String, Json)> = Vec::new();
    json::put(
        &mut details,
        "first",
        build_side(diff.first_user_count, diff.first_assistant_count, diff.first_branch_count),
    );
    json::put(
        &mut details,
        "second",
        build_side(diff.second_user_count, diff.second_assistant_count, diff.second_branch_count),
    );
    let filter: Json = match types {
        Some(t) => json::of_texts(t),
        None => Json::Null,
    };
    let mut fields: Vec<(String, Json)> = Vec::new();
    json::put(&mut fields, "mode", json::of_text("semantic"));
    json::put(&mut fields, "identical", Json::Bool(diff.is_identical()));
    json::put(&mut fields, "first", json::of_text(first.display.as_str()));
    json::put(&mut fields, "second", json::of_text(second.display.as_str()));
    json::put(
        &mut fields,
        "comparison_basis",
        json::of_text("ordered_identity_neutral_payloads"),
    );
    json::put(&mut fields, "filter", filter);
    let ghost summary_fields = seq![
        ("first_message_count"@, json::number_json(diff.first_message_count as nat)),
        ("second_message_count"@, json::number_json(diff.second_message_count as nat)),
        ("common_messages"@, json::number_json(diff.common_messages as nat)),
        ("added_messages"@, json::number_json(diff.added_messages as nat)),
        ("removed_messages"@, json::number_json(diff.removed_messages as nat)),
    ];
    let ghost detail_fields = seq![
        (
            "first"@,
            side_json(diff.first_user_count, diff.first_assistant_count, diff.first_branch_count),
        ),
        (
            "second"@,
            side_json(
                diff.second_user_count,
                diff.second_assistant_count,
                diff.second_branch_count,
            ),
        ),
    ];
    proof {
        assert(fields_view(summary@) =~= summary_fields);
        assert(fields_view(details@) =~= detail_fields);
    }
    json::put(&mut fields, "summary", Json::Object(summary));
    json::put(&mut fields, "details", Json::Object(details));
    add_source_identity(&mut fields, first, second);
    let ghost wanted = match types {
        Some(t) => Some(views(t@)),
        None => None,
    };
    proof {
        assert(fields_view(fields@) =~= semantic_diff_value(*diff, *first, *second, wanted)->Object_0);
    }
    Json::Object(fields)
}

/// The lines that differ, as values.
pub open spec fn different_values(different: Seq<(usize, String, String)>) -> Seq<JsonView> {
    Seq::new(
        different.len(),
        |i: int|
            JsonView::Object(
                seq![
                    ("line"@, json::number_json(different[i].0 as nat)),
                    ("first"@, JsonView::Text(different[i].1@)),
                    ("second"@, JsonView::Text(different[i].2@)),
                ],
            ),
    )
}

fn build_different(different: &Vec<(usize, String, String)>) -> (r: Json)
    ensures
        r@ == JsonView::Array(different_values(different@)),
{
    let mut out: Vec<Json> = Vec::new();
    let mut i: usize = 0;
    while i < different.len()
        invariant
            i <= different@.len(),
            out@.len() == i,
            forall|k: int| 0 <= k < i ==> (#[trigger] out@[k])@ == different_values(different@)[k],
        decreases different@.len() - i,
    {
        let mut fields: Vec<(String, Json)> = Vec::new();
        json::put(&mut fields, "line", json::of_size(different[i].0));
        json::put(&mut fields, "first", json::of_text(different[i].1.as_str()));
        json::put(&mut fields, "second", json::of_text(different[i].2.as_str()));
        proof {
            assert(fields_view(fields@) =~= different_values(different@)[i as int]->Object_0);
        }
        out.push(Json::Object(fields));
        i = i + 1;
    }
    proof {
        json::lemma_items_view(out@);
        assert(items_view(out@) =~= different_values(different@));
    }
    Json::Array(out)
}

/// A comparison line by line as a value.
pub open spec fn line_diff_value(
    diff: LineDiff,
    first: DiffSource,
    second: DiffSource,
) -> JsonView {
    JsonView::Object(
        seq![
            ("mode"@, JsonView::Text("line-based"@)),
            ("identical"@, JsonView::Bool(diff.identical)),
            ("first"@, JsonView::Text(first.display@)),
            ("second"@, JsonView::Text(second.display@)),
            (
                "summary"@,
                JsonView::Object(
                    seq![
                        ("matching"@, json::number_json(diff.matching as nat)),
                        ("only_in_first"@, json::number_json(diff.only_in_first@.len())),
                        ("only_in_second"@, json::number_json(diff.only_in_second@.len())),
                        ("different"@, json::number_json(diff.different@.len())),
                    ],
                ),
            ),
            (
                "details"@,
                JsonView::Object(
                    seq![
                        ("only_in_first"@, json::sizes_json(diff.only_in_first@)),
                        ("only_in_second"@, json::sizes_json(diff.only_in_second@)),
                        (
                            "different_lines"@,
                            JsonView::Array(different_values(diff.different@)),
                        ),
                    ],
                ),
            ),
        ] + source_fields(first, second),
    )
}

/// A comparison line by line as a value.
pub fn line_diff_json(diff: &LineDiff, first: &DiffSource, second: &DiffSource) -> (r: Json)
    ensures
        r@ == line_diff_value(*diff, *first, *second),
{
    let mut summary: Vec<(String, Json)> = Vec::new();
    json::put(&mut summary, "matching", json::of_size(diff.matching));
    json::put(&mut summary, "only_in_first", json::of_size(diff.only_in_first.len()));
    json::put(&mut summary, "only_in_second", json::of_size(diff.only_in_second.len()));
    json::put(&mut summary, "different", json::of_size(diff.different.len()));
    let mut details: Vec<(String, Json)> = Vec::new();
    json::put(&mut details, "only_in_first", json::of_sizes(&diff.only_in_first));
    json::put(&mut details, "only_in_second", json::of_sizes(&diff.only_in_second));
    json::put(&mut details, "different_lines", build_different(&diff.different));
    let ghost summary_fields = seq![
        ("matching"@, json::number_json(diff.matching as nat)),
        ("only_in_first"@, json::number_json(diff.only_in_first@.len())),
        ("only_in_second"@, json::number_json(diff.only_in_second@.len())),
        ("different"@, json::number_json(diff.different@.len())),
    ];
    let ghost detail_fields = seq![
        ("only_in_first"@, json::sizes_json(diff.only_in_first@)),
        ("only_in_second"@, json::sizes_json(diff.only_in_second@)),
        ("different_lines"@, JsonView::Array(different_values(diff.different@))),
    ];
    proof {
        assert(fields_view(summary@) =~= summary_fields);
        assert(fields_view(details@) =~= detail_fields);
    }
    let mut fields: Vec<(String, Json)> = Vec::new();
    json::put(&mut fields, "mode", json::of_text("line-based"));
    json::put(&mut fields, "identical", Json::Bool(diff.identical));
    json::put(&mut fields, "first", json::of_text(first.display.as_str()));
    json::put(&mut fields, "second", json::of_text(second.display.as_str()));
    json::put(&mut fields, "summary", Json::Object(summary));
    json::put(&mut fields, "details", Json::Object(details));
    add_source_identity(&mut fields, first, second);
    proof {
        assert(fields_view(fields@) =~= line_diff_value(*diff, *first, *second)->Object_0);
    }
    Json::Object(fields)
}

// ---------------------------------------------------------------------------
// What is counted
// ---------------------------------------------------------------------------

/// The messages of the user are counted each once.
pub proof fn users_are_counted(entries: Seq<ComparisonEntry>, chosen: Seq<int>)
    ensures
        user_count(entries, chosen) == chosen.filter(
            |k: int| entries[k].message_type@ == "user"@,
        ).len(),
    decreases chosen.len(),
{
    broadcast use Seq::lemma_filter_push;

    if chosen.len() > 0 {
        users_are_counted(entries, chosen.drop_last());
        assert(chosen =~= chosen.drop_last().push(chosen.last()));
    }
}

/// The answers are counted by their ids, each id once: an id counts if and only if one of the
/// compared entries is of the assistant and has it.
pub proof fn answers_are_counted_by_id(
    entries: Seq<ComparisonEntry>,
    chosen: Seq<int>,
    id: Seq<char>,
)
    ensures
        names::names_ascend(answer_ids(entries, chosen)),
        answer_ids(entries, chosen).contains(id) <==> exists|k: int|
            0 <= k < chosen.len() && entries[#[trigger] chosen[k]].kind is Assistant
                && entries[chosen[k]].message_id is Some && entries[chosen[k]].message_id->0@ == id,
    decreases chosen.len(),
{
    if chosen.len() > 0 {
        let front = chosen.drop_last();
        let before = answer_ids(entries, front);
        let all = answer_ids(entries, chosen);
        let e = entries[chosen.last()];
        answers_are_counted_by_id(entries, front, id);
        assert(chosen[chosen.len() - 1] == chosen.last());
        if e.message_id is Some && e.kind is Assistant {
            names::with_name_holds(before, e.message_id->0@);
            assert(all == with_name(before, e.message_id->0@));
            assert(all.contains(id) <==> id == e.message_id->0@ || before.contains(id));
        }
        if before.contains(id) {
            let k = choose|k: int|
                0 <= k < front.len() && entries[#[trigger] front[k]].kind is Assistant
                    && entries[front[k]].message_id is Some && entries[front[k]].message_id->0@
                    == id;
            assert(chosen[k] == front[k]);
        }
        if exists|k: int|
            0 <= k < chosen.len() && entries[#[trigger] chosen[k]].kind is Assistant
                && entries[chosen[k]].message_id is Some && entries[chosen[k]].message_id->0@ == id {
            let k = choose|k: int|
                0 <= k < chosen.len() && entries[#[trigger] chosen[k]].kind is Assistant
                    && entries[chosen[k]].message_id is Some && entries[chosen[k]].message_id->0@
                    == id;
            if k < front.len() {
                assert(front[k] == chosen[k]);
            }
        }
    }
}

/// A limit of nothing is none, and any other limit is kept.
pub proof fn limits_of_nothing_are_none(n: u64)
    ensures
        limit_of(None) is None,
        limit_of(Some(0)) is None,
        n > 0 ==> limit_of(Some(n)) == Some(n),
{
}

// ---------------------------------------------------------------------------
// What calls hand back
// ---------------------------------------------------------------------------

/// A comparison ends with a failure if and only if failures were asked for and the two sides
/// differ; no other status than nought and one is ever given.
pub proof fn differences_alone_end_in_failure(identical: bool, exit_code: bool, r: i32)
    ensures
        call_ensures(exit_status, (identical, exit_code), r) ==> {
            &&& 0 <= r <= 1
            &&& r != 0 <==> exit_code && !identical
        },
{
}

/// A provider that was named serves both references. Without one, a reference goes to the
/// providers only where it is qualified and one of the two holds a colon; the directory is
/// needed unless both go to the providers.
pub proof fn named_providers_serve_both(
    args: DiffArgs,
    first_qualified: bool,
    second_qualified: bool,
    r: DiffPlan,
)
    ensures
        call_ensures(run, (&args, first_qualified, second_qualified), r) ==> {
            &&& args.provider@.len() > 0 ==> r.first_provider && r.second_provider
            &&& args.provider@.len() == 0 ==> {
                let colon = args.first@.contains(':') || args.second@.contains(':');
                (r.first_provider <==> first_qualified && colon) && (r.second_provider
                    <==> second_qualified && colon)
            }
            &&& r.needs_directory <==> !r.first_provider || !r.second_provider
            &&& r.line_based <==> args.line_based
        },
{
}

/// A file is refused if and only if it is longer than a limit other than nought. A longer file
/// is refused where a shorter one is, and a higher limit lets through what a lower one does.
pub proof fn longer_files_are_refused(
    reference: &str,
    size: u64,
    limit: u64,
    r: Result<(), SnatchError>,
    unlimited: Result<(), SnatchError>,
)
    ensures
        call_ensures(check_file_size, (reference, size, Some(limit)), r) ==> (r is Err <==> 0
            < limit < size),
        call_ensures(check_file_size, (reference, size, None::<u64>), unlimited) ==> unlimited is Ok,
{
}

/// A session that was found gives its path, whatever lies under the reference; a reference that
/// is no session is read as a file where there is one.
pub proof fn sessions_go_before_files(
    session: Option<String>,
    exists: bool,
    reference: &str,
    r: Result<String, SnatchError>,
)
    ensures
        call_ensures(resolve_classic_path, (session, exists, reference), r) ==> {
            &&& r is Ok <==> session is Some || exists
            &&& session is Some ==> r->Ok_0@ == session->0@
            &&& session is None && exists ==> r->Ok_0@ == reference@
            &&& session is None && !exists ==> r->Err_0@ == (ErrorView::FileNotFound {
                path: reference@,
            })
        },
{
}

} // verus!
