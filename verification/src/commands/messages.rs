//! The messages of a session at several levels of detail.
use vstd::prelude::*;

use crate::commands;
use crate::commands::helpers;
use crate::commands::helpers::{has_short_id, id_head, text_view};
use crate::commands::{bound_filter, BoundFilter};
use crate::error::SnatchError;
use crate::json;
use crate::json::{
    fields_view, given_size, given_text, given_texts, given_truth, number_json, some_items,
    texts_json, Json, JsonView,
};
use crate::names;
use crate::order;
use crate::provider::copy_text;
use crate::text;
use crate::text::{decimal, joined, views};
use crate::time;
use crate::time::{shown_or, stamped_if};

verus! {

// ---------------------------------------------------------------------------
// What is known of a message
// ---------------------------------------------------------------------------

/// The kinds of entries that are told apart.
#[derive(Debug, Clone, Copy, PartialEq, Eq)]
pub enum MessageKind {
    /// Of the user.
    User,
    /// Of the assistant.
    Assistant,
    /// Of the system.
    System,
    /// Something that was put beside a message.
    Attachment,
    /// Anything else.
    Other,
}

/// The thoughts of a message.
#[derive(Debug, Clone, PartialEq, Eq)]
pub struct ThinkingText {
    /// As far as they are handed out.
    pub preview: String,
    /// As far as they are shown in one line.
    pub brief: String,
    /// As far as they are shown in one line where everything is shown.
    pub long: String,
}

/// A session that a call started.
#[derive(Debug, PartialEq, Eq)]
pub struct SubagentMatch {
    /// Its id.
    pub session_id: String,
    /// The number of its messages.
    pub message_count: Option<usize>,
    /// What it answered, as far as that is handed out.
    pub result_preview: Option<String>,
    /// What it answered, as far as that is shown in one line.
    pub result_line: Option<String>,
    /// Its messages, each in one line.
    pub transcript: Vec<TranscriptLine>,
    /// Its messages.
    pub messages: Vec<MessageEntry>,
}

/// A message of a session that a call started, as it is shown in one line.
#[derive(Debug, Clone, PartialEq, Eq)]
pub struct TranscriptLine {
    /// Its place.
    pub index: usize,
    /// Its kind, in words.
    pub msg_type: String,
    /// Its text, as far as that is shown in one line.
    pub content: String,
}

/// A call of a tool.
#[derive(Debug, PartialEq, Eq)]
pub struct MessageToolUse {
    /// The id of the call.
    pub id: String,
    /// The name of the tool.
    pub name: String,
    /// What is told of its input, each with its name.
    pub summary: Vec<(String, String)>,
    /// The session that it started.
    pub subagent: Option<SubagentMatch>,
}

/// What is known of a message. The texts are cut to the length that is asked for.
#[derive(Debug, PartialEq, Eq)]
pub struct MessageEntry {
    /// Its kind.
    pub kind: MessageKind,
    /// Its kind, in words.
    pub message_type: String,
    /// When it was sent.
    pub time: Option<i128>,
    /// What the user wrote.
    pub prompt: Option<String>,
    /// What the assistant wrote, in short.
    pub summary: Option<String>,
    /// Whether the assistant wrote anything.
    pub has_summary: bool,
    /// What the system said.
    pub system: Option<String>,
    /// What was put beside a message.
    pub attachment: Option<String>,
    /// What the user wrote while the assistant was at work.
    pub queued: Option<String>,
    /// Whether the user wrote while the assistant was at work.
    pub is_queued: bool,
    /// What the user wrote, where that begins a part of the conversation.
    pub boundary: Option<String>,
    /// Whether a part of the conversation begins here.
    pub is_boundary: bool,
    /// Whether a person wrote it.
    pub is_human: bool,
    /// Whether a tool failed.
    pub has_errors: bool,
    /// The names of the tools that were called.
    pub tool_names: Vec<String>,
    /// The calls of tools.
    pub tool_uses: Vec<MessageToolUse>,
    /// The thoughts.
    pub thinking: Option<ThinkingText>,
    /// Whether there are thoughts.
    pub has_thinking: bool,
    /// The branch that was checked out.
    pub git_branch: Option<String>,
    /// The model that wrote it.
    pub model: Option<String>,
}

// ---------------------------------------------------------------------------
// Levels of detail
// ---------------------------------------------------------------------------

/// How much is shown.
#[derive(Debug, Clone, Copy, PartialEq, Eq)]
pub enum Detail {
    /// What the user asked.
    Overview,
    /// What both said.
    Conversation,
    /// And which tools were called.
    Standard,
    /// Everything.
    Full,
}

/// The level that a word stands for. Any word that is not known stands for everything.
pub open spec fn detail_of(word: Seq<char>) -> Detail {
    if word == "overview"@ {
        Detail::Overview
    } else if word == "conversation"@ {
        Detail::Conversation
    } else if word == "standard"@ {
        Detail::Standard
    } else {
        Detail::Full
    }
}

/// The level that a word stands for.
pub fn parse_detail(word: &str) -> (r: Detail)
    ensures
        r == detail_of(word@),
{
    if text::same(word, "overview") {
        Detail::Overview
    } else if text::same(word, "conversation") {
        Detail::Conversation
    } else if text::same(word, "standard") {
        Detail::Standard
    } else {
        Detail::Full
    }
}

/// Whether thoughts are shown: where they are asked for, and always at the level `full`.
pub fn effective_include_thinking(flag: bool, detail: &str) -> (r: bool)
    ensures
        r == (flag || detail@ == "full"@),
{
    flag || text::same(detail, "full")
}

/// The most characters of thoughts that are handed out.
pub open spec fn thinking_length(detail: Detail) -> usize {
    match detail {
        Detail::Overview => 500,
        Detail::Conversation => 1000,
        Detail::Standard => 1000,
        Detail::Full => 2000,
    }
}

/// The most characters of a text, where no other number is asked for.
pub open spec fn text_length(detail: Detail) -> usize {
    match detail {
        Detail::Overview => 200,
        Detail::Conversation => 500,
        Detail::Standard => 500,
        Detail::Full => 1000,
    }
}

/// How long texts and thoughts may be.
#[derive(Debug, Clone, Copy, PartialEq, Eq)]
pub struct MessageLengths {
    /// The most characters of a text.
    pub truncate_len: usize,
    /// The most characters of thoughts.
    pub thinking_max_len: usize,
}

/// How long texts and thoughts may be at a level of detail.
pub fn message_lengths(detail: Detail, max_text_len: Option<usize>) -> (r: MessageLengths)
    ensures
        r.thinking_max_len == thinking_length(detail),
        r.truncate_len == (match max_text_len {
            Some(n) => n,
            None => text_length(detail),
        }),
{
    let thinking_max_len: usize = match detail {
        Detail::Overview => 500,
        Detail::Conversation => 1000,
        Detail::Standard => 1000,
        Detail::Full => 2000,
    };
    let usual: usize = match detail {
        Detail::Overview => 200,
        Detail::Conversation => 500,
        Detail::Standard => 500,
        Detail::Full => 1000,
    };
    let truncate_len: usize = match max_text_len {
        Some(n) => n,
        None => usual,
    };
    MessageLengths { truncate_len, thinking_max_len }
}

// ---------------------------------------------------------------------------
// Which messages are shown
// ---------------------------------------------------------------------------

/// One of the calls of the message failed.
pub open spec fn calls_any(e: MessageEntry, failed: Seq<Seq<char>>) -> bool {
    exists|i: int|
        0 <= i < e.tool_uses@.len() && failed.contains((#[trigger] e.tool_uses@[i]).id@)
}

/// The results of failed calls, and the messages that made those calls.
pub open spec fn about_errors(failed: Seq<Seq<char>>) -> spec_fn(MessageEntry) -> bool {
    |e: MessageEntry|
        match e.kind {
            MessageKind::User => e.has_errors,
            MessageKind::Assistant => calls_any(e, failed),
            _ => false,
        }
}

/// The messages of a type. Any word that is not known stands for all.
pub open spec fn of_type(word: Seq<char>) -> spec_fn(MessageEntry) -> bool {
    |e: MessageEntry|
        if word == "user"@ {
            e.is_human
        } else if word == "assistant"@ {
            e.kind is Assistant
        } else if word == "system"@ {
            e.kind is System
        } else {
            true
        }
}

/// The messages that were sent within a span of time, and those of which no time is known.
pub open spec fn within(after: Option<i128>, before: Option<i128>) -> spec_fn(MessageEntry) -> bool {
    |e: MessageEntry|
        match e.time {
            Some(t) => (after matches Some(a) ==> a <= t) && (before matches Some(b) ==> t <= b),
            None => true,
        }
}

/// The messages that a level of detail is about.
pub open spec fn at_level(detail: Detail) -> spec_fn(MessageEntry) -> bool {
    |e: MessageEntry|
        match detail {
            Detail::Overview => e.is_boundary,
            Detail::Conversation => match e.kind {
                MessageKind::User => e.is_human,
                MessageKind::Assistant => e.has_summary,
                MessageKind::Attachment => e.is_queued,
                _ => false,
            },
            _ => true,
        }
}

/// Which messages are asked for.
#[derive(Debug, Clone, PartialEq, Eq)]
pub struct MessageFilter {
    /// Only what has to do with failed calls.
    pub errors_only: bool,
    /// The ids of the calls that failed.
    pub failed: Vec<String>,
    /// The type of messages.
    pub message_type: String,
    /// Sent no earlier.
    pub after: Option<i128>,
    /// Sent no later.
    pub before: Option<i128>,
    /// How much is shown.
    pub detail: Detail,
}

/// The messages that are asked for, in order.
pub open spec fn asked_for(entries: Seq<MessageEntry>, filter: MessageFilter) -> Seq<MessageEntry> {
    let first = if filter.errors_only {
        entries.filter(about_errors(views(filter.failed@)))
    } else {
        entries
    };
    first.filter(of_type(filter.message_type@)).filter(within(filter.after, filter.before)).filter(
        at_level(filter.detail),
    )
}

fn made_failed_call(e: &MessageEntry, failed: &Vec<String>) -> (r: bool)
    ensures
        r == calls_any(*e, views(failed@)),
{
    let mut i: usize = 0;
    while i < e.tool_uses.len()
        invariant
            i <= e.tool_uses@.len(),
            forall|k: int|
                0 <= k < i ==> !views(failed@).contains((#[trigger] e.tool_uses@[k]).id@),
        decreases e.tool_uses@.len() - i,
    {
        if names::holds_name(failed, e.tool_uses[i].id.as_str()) {
            return true;
        }
        i = i + 1;
    }
    false
}

/// The messages that are asked for, in order.
pub fn select_messages(entries: Vec<MessageEntry>, filter: &MessageFilter) -> (r: Vec<MessageEntry>)
    ensures
        r@ == asked_for(entries@, *filter),
{
    let first = if filter.errors_only {
        let failed = &filter.failed;
        let about = |e: &MessageEntry| -> (o: bool)
            ensures
                o == about_errors(views(failed@))(*e),
            {
                match e.kind {
                    MessageKind::User => e.has_errors,
                    MessageKind::Assistant => made_failed_call(e, failed),
                    _ => false,
                }
            };
        order::keep(entries, about, Ghost(about_errors(views(failed@))))
    } else {
        entries
    };
    let word: &str = filter.message_type.as_str();
    let typed = |e: &MessageEntry| -> (o: bool)
        ensures
            o == of_type(word@)(*e),
        {
            if text::same(word, "user") {
                e.is_human
            } else if text::same(word, "assistant") {
                matches!(e.kind, MessageKind::Assistant)
            } else if text::same(word, "system") {
                matches!(e.kind, MessageKind::System)
            } else {
                true
            }
        };
    let second = order::keep(first, typed, Ghost(of_type(word@)));
    let after: Option<i128> = filter.after;
    let before: Option<i128> = filter.before;
    let timely = |e: &MessageEntry| -> (o: bool)
        ensures
            o == within(after, before)(*e),
        {
            match e.time {
                Some(t) => {
                    let late_enough: bool = match after {
                        Some(a) => a <= t,
                        None => true,
                    };
                    let early_enough: bool = match before {
                        Some(b) => t <= b,
                        None => true,
                    };
                    late_enough && early_enough
                },
                None => true,
            }
        };
    let third = order::keep(second, timely, Ghost(within(after, before)));
    let detail: Detail = filter.detail;
    let level = |e: &MessageEntry| -> (o: bool)
        ensures
            o == at_level(detail)(*e),
        {
            match detail {
                Detail::Overview => e.is_boundary,
                Detail::Conversation => match e.kind {
                    MessageKind::User => e.is_human,
                    MessageKind::Assistant => e.has_summary,
                    MessageKind::Attachment => e.is_queued,
                    _ => false,
                },
                _ => true,
            }
        };
    order::keep(third, level, Ghost(at_level(detail)))
}

/// A message is selected if and only if it is of the type that is asked for, lies in the span of
/// time or has no time, and fits the level of detail. Of the type `user` are the prompts of people,
/// of `assistant` and `system` the messages of these; any other word asks for all. The level
/// `overview` is about the beginnings of parts, the level `conversation` about prompts of people,
/// answers and queued prompts, the others about everything. Where only errors are asked for, a
/// message of the user must report one and one of the assistant must have made a call that failed.
pub proof fn selected_messages_fit(
    entries: Seq<MessageEntry>,
    filter: MessageFilter,
    e: MessageEntry,
)
    ensures
        asked_for(entries, filter).contains(e) <==> {
            &&& entries.contains(e)
            &&& filter.message_type@ == "user"@ ==> e.is_human
            &&& filter.message_type@ == "assistant"@ ==> e.kind is Assistant
            &&& filter.message_type@ == "system"@ ==> e.kind is System
            &&& e.time is Some && filter.after is Some ==> filter.after->0 <= e.time->0
            &&& e.time is Some && filter.before is Some ==> e.time->0 <= filter.before->0
            &&& filter.detail is Overview ==> e.is_boundary
            &&& filter.detail is Conversation ==> (e.kind is User && e.is_human) || (e.kind
                is Assistant && e.has_summary) || (e.kind is Attachment && e.is_queued)
            &&& filter.errors_only ==> (e.kind is User && e.has_errors) || (e.kind is Assistant
                && exists|i: int, j: int|
                #![trigger e.tool_uses@[i], filter.failed@[j]]
                0 <= i < e.tool_uses@.len() && 0 <= j < filter.failed@.len()
                    && e.tool_uses@[i].id@ == filter.failed@[j]@)
        },
{
    reveal_strlit("user");
    reveal_strlit("assistant");
    reveal_strlit("system");
    assert("user"@.len() == 4 && "assistant"@.len() == 9 && "system"@.len() == 6);
    let failed = views(filter.failed@);
    let first = if filter.errors_only {
        entries.filter(about_errors(failed))
    } else {
        entries
    };
    let second = first.filter(of_type(filter.message_type@));
    let third = second.filter(within(filter.after, filter.before));
    order::filtering_is_exact(entries, about_errors(failed));
    order::filtering_is_exact(first, of_type(filter.message_type@));
    order::filtering_is_exact(second, within(filter.after, filter.before));
    order::filtering_is_exact(third, at_level(filter.detail));
    assert(entries.filter(about_errors(failed)).contains(e) <==> entries.contains(e)
        && about_errors(failed)(e));
    assert(second.contains(e) <==> first.contains(e) && of_type(filter.message_type@)(e));
    assert(third.contains(e) <==> second.contains(e) && within(filter.after, filter.before)(e));
    assert(asked_for(entries, filter).contains(e) <==> third.contains(e) && at_level(filter.detail)(
        e,
    ));
    if calls_any(e, failed) {
        let i = choose|i: int|
            0 <= i < e.tool_uses@.len() && failed.contains((#[trigger] e.tool_uses@[i]).id@);
        let j = choose|j: int| 0 <= j < failed.len() && failed[j] == e.tool_uses@[i].id@;
        assert(e.tool_uses@[i].id@ == filter.failed@[j]@);
    }
    if exists|i: int, j: int|
        #![trigger e.tool_uses@[i], filter.failed@[j]]
        0 <= i < e.tool_uses@.len() && 0 <= j < filter.failed@.len() && e.tool_uses@[i].id@
            == filter.failed@[j]@ {
        let (i, j) = choose|i: int, j: int|
            #![trigger e.tool_uses@[i], filter.failed@[j]]
            0 <= i < e.tool_uses@.len() && 0 <= j < filter.failed@.len() && e.tool_uses@[i].id@
                == filter.failed@[j]@;
        assert(failed[j] == e.tool_uses@[i].id@);
        assert(calls_any(e, failed));
    }
}

/// The number of messages on a page.
pub open spec fn page_size(total: int, offset: int, limit: int) -> int {
    if offset >= total {
        0
    } else if limit < total - offset {
        limit
    } else {
        total - offset
    }
}

/// The places of the messages on a page.
pub open spec fn page(total: int, reverse: bool, offset: int, limit: int) -> Seq<int> {
    Seq::new(
        page_size(total, offset, limit) as nat,
        |k: int|
            if reverse {
                total - 1 - offset - k
            } else {
                offset + k
            },
    )
}

/// Every place of a page is that of a message.
pub proof fn pages_stay_within(total: int, reverse: bool, offset: int, limit: int, k: int)
    requires
        0 <= total,
        0 <= offset,
        0 <= limit,
        0 <= k < page(total, reverse, offset, limit).len(),
    ensures
        0 <= page(total, reverse, offset, limit)[k] < total,
{
}

/// A page that is as large as can be begins behind the messages that are passed over and lists
/// the following in their order; reversed, it counts in the same way from the last message.
pub proof fn pages_count_from_an_end(total: int, reverse: bool, offset: int, limit: int)
    requires
        0 <= total,
        0 <= offset,
        0 <= limit,
    ensures
        ({
            let p = page(total, reverse, offset, limit);
            &&& p.len() <= limit
            &&& offset <= total ==> p.len() == limit || p.len() == total - offset
            &&& offset + p.len() <= total || p.len() == 0
            &&& forall|k: int|
                0 <= k < p.len() ==> #[trigger] p[k] == (if reverse {
                    total - (offset + k + 1)
                } else {
                    offset + k
                })
        }),
{
}

/// Two pages of which one begins where the other ends are one larger page.
pub proof fn pages_join(total: int, reverse: bool, offset: int, first: int, second: int)
    requires
        0 <= total,
        0 <= offset,
        0 <= first,
        0 <= second,
    ensures
        page(total, reverse, offset, first) + page(total, reverse, offset + first, second) == page(
            total,
            reverse,
            offset,
            first + second,
        ),
{
    assert(page(total, reverse, offset, first) + page(total, reverse, offset + first, second)
        =~= page(total, reverse, offset, first + second));
}

/// The same places, as numbers of the machine.
pub open spec fn places_view(places: Seq<usize>) -> Seq<int> {
    Seq::new(places.len(), |k: int| places[k] as int)
}

/// The places of the messages on a page.
pub fn paginate(total: usize, reverse: bool, offset: usize, limit: usize) -> (r: Vec<usize>)
    ensures
        places_view(r@) == page(total as int, reverse, offset as int, limit as int),
{
    let mut out: Vec<usize> = Vec::new();
    let count: usize = if offset >= total {
        0
    } else if limit < total - offset {
        limit
    } else {
        total - offset
    };
    let mut k: usize = 0;
    while k < count
        invariant
            k <= count,
            count == page_size(total as int, offset as int, limit as int),
            count > 0 ==> offset + count <= total,
            out@.len() == k,
            forall|j: int|
                0 <= j < k ==> (#[trigger] out@[j]) as int == page(
                    total as int,
                    reverse,
                    offset as int,
                    limit as int,
                )[j],
        decreases count - k,
    {
        if reverse {
            out.push(total - 1 - offset - k);
        } else {
            out.push(offset + k);
        }
        k = k + 1;
    }
    proof {
        assert(places_view(out@) =~= page(total as int, reverse, offset as int, limit as int));
    }
    out
}

// ---------------------------------------------------------------------------
// What is shown of a message
// ---------------------------------------------------------------------------

/// What was written in a message, as far as a level of detail shows it.
pub open spec fn content_at(e: MessageEntry, detail: Detail) -> Option<Seq<char>> {
    match detail {
        Detail::Overview => text_view(e.boundary),
        Detail::Conversation => match e.kind {
            MessageKind::User => text_view(e.prompt),
            MessageKind::Assistant => text_view(e.summary),
            MessageKind::Attachment => match e.queued {
                Some(q) => Some("(queued) "@ + q@),
                None => None,
            },
            _ => None,
        },
        _ => match e.kind {
            MessageKind::User => text_view(e.prompt),
            MessageKind::Assistant => text_view(e.summary),
            MessageKind::System => text_view(e.system),
            MessageKind::Attachment => text_view(e.attachment),
            MessageKind::Other => None,
        },
    }
}

/// From the level `conversation` on a message of the user shows what the user wrote and one of the
/// assistant what the assistant wrote, at every level alike. What the system said and what was put
/// beside a message is shown at the levels `standard` and `full` alone, what was queued only at
/// `conversation`, and the overview shows where parts begin and nothing else.
pub proof fn levels_show_texts(e: MessageEntry, detail: Detail)
    ensures
        detail !is Overview && e.kind is User ==> content_at(e, detail) == text_view(e.prompt),
        detail !is Overview && e.kind is Assistant ==> content_at(e, detail) == text_view(e.summary),
        e.kind is System ==> content_at(e, Detail::Conversation) is None && content_at(
            e,
            Detail::Standard,
        ) == text_view(e.system),
        e.kind is Attachment ==> content_at(e, Detail::Standard) == text_view(e.attachment) && (
        content_at(e, Detail::Conversation) is Some <==> e.queued is Some),
        e.kind is Attachment && e.queued is Some ==> content_at(e, Detail::Conversation) == Some(
            "(queued) "@ + e.queued->0@,
        ),
        content_at(e, Detail::Standard) == content_at(e, Detail::Full),
        content_at(e, Detail::Overview) == text_view(e.boundary),
{
}

/// More detail never cuts a text or a thought shorter.
pub proof fn more_detail_is_longer()
    ensures
        text_length(Detail::Overview) < text_length(Detail::Conversation),
        text_length(Detail::Conversation) == text_length(Detail::Standard),
        2 * text_length(Detail::Standard) == text_length(Detail::Full),
        text_length(Detail::Full) == 1000,
        thinking_length(Detail::Overview) < thinking_length(Detail::Conversation),
        thinking_length(Detail::Conversation) == thinking_length(Detail::Standard),
        forall|d: Detail| #[trigger] thinking_length(d) >= 2 * text_length(d),
        thinking_length(Detail::Full) == 2000,
{
}

fn content_of(e: &MessageEntry, detail: Detail) -> (r: Option<String>)
    ensures
        text_view(r) == content_at(*e, detail),
{
    match detail {
        Detail::Overview => copy_text(&e.boundary),
        Detail::Conversation => match e.kind {
            MessageKind::User => copy_text(&e.prompt),
            MessageKind::Assistant => copy_text(&e.summary),
            MessageKind::Attachment => match &e.queued {
                Some(q) => Some(text::cat2("(queued) ", q.as_str())),
                None => None,
            },
            _ => None,
        },
        _ => match e.kind {
            MessageKind::User => copy_text(&e.prompt),
            MessageKind::Assistant => copy_text(&e.summary),
            MessageKind::System => copy_text(&e.system),
            MessageKind::Attachment => copy_text(&e.attachment),
            MessageKind::Other => None,
        },
    }
}

/// The calls of a message; only the assistant makes any.
pub open spec fn calls_of(e: MessageEntry) -> Seq<MessageToolUse> {
    if e.kind is Assistant {
        e.tool_uses@
    } else {
        Seq::empty()
    }
}

/// The thoughts of a message are shown.
pub open spec fn shows_thinking(e: MessageEntry, include_thinking: bool) -> bool {
    include_thinking && e.thinking is Some
}

/// A message has something to show at a level of detail.
pub open spec fn renders(e: MessageEntry, detail: Detail, include_thinking: bool) -> bool {
    match detail {
        Detail::Overview => content_at(e, detail) is Some,
        Detail::Conversation => content_at(e, detail) is Some || shows_thinking(
            e,
            include_thinking,
        ),
        Detail::Standard => content_at(e, detail) is Some || e.tool_names@.len() > 0
            || shows_thinking(e, include_thinking),
        Detail::Full => content_at(e, detail) is Some || calls_of(e).len() > 0 || shows_thinking(
            e,
            include_thinking,
        ),
    }
}

/// Whether a message has something to show at a level of detail.
pub fn renders_at_detail(e: &MessageEntry, detail: Detail, include_thinking: bool) -> (r: bool)
    ensures
        r == renders(*e, detail, include_thinking),
{
    let thinking_renders: bool = include_thinking && e.thinking.is_some();
    let has_content: bool = content_of(e, detail).is_some();
    match detail {
        Detail::Overview => has_content,
        Detail::Conversation => has_content || thinking_renders,
        Detail::Standard => has_content || e.tool_names.len() > 0 || thinking_renders,
        Detail::Full => has_content || (matches!(e.kind, MessageKind::Assistant)
            && e.tool_uses.len() > 0) || thinking_renders,
    }
}

/// The beginning of the first line of a message.
pub open spec fn line_head(index: int, e: MessageEntry) -> Seq<char> {
    "["@ + decimal(index as nat) + "] "@ + shown_or(e.time, "%H:%M:%S"@, ""@) + " "@
}

fn write_head(index: usize, e: &MessageEntry) -> (r: String)
    ensures
        r@ == line_head(index as int, *e),
{
    let digits = text::size(index);
    let clock = time::show_or(e.time, "%H:%M:%S", "");
    text::cat5("[", digits.as_str(), "] ", clock.as_str(), " ")
}

/// What is told of the input of a call.
pub open spec fn summary_texts(summary: Seq<(String, String)>) -> Seq<Seq<char>> {
    Seq::new(summary.len(), |i: int| summary[i].0@ + "="@ + summary[i].1@)
}

/// The line of a message of a session that a call started.
pub open spec fn transcript_line(t: TranscriptLine) -> Seq<char> {
    "         ["@ + decimal(t.index as nat) + "] "@ + t.msg_type@ + ": "@ + t.content@
}

/// The lines of a session that a call started.
pub open spec fn subagent_lines(m: SubagentMatch, transcripts: bool) -> Seq<Seq<char>> {
    seq![
        "      -> subagent "@ + m.session_id@ + (match m.message_count {
            Some(n) => " ("@ + decimal(n as nat) + " msgs)"@,
            None => Seq::empty(),
        }),
    ] + (match m.result_line {
        Some(t) => seq!["         result: "@ + t@],
        None => Seq::empty(),
    }) + (if transcripts {
        m.transcript@.map_values(|t: TranscriptLine| transcript_line(t))
    } else {
        Seq::empty()
    })
}

/// The lines of a call.
pub open spec fn call_lines(c: MessageToolUse, transcripts: bool) -> Seq<Seq<char>> {
    seq!["    > "@ + c.name@ + " "@ + joined(summary_texts(c.summary@), " "@)] + (
    match c.subagent {
        Some(m) => subagent_lines(m, transcripts),
        None => Seq::empty(),
    })
}

/// The first line of a message that takes several.
pub open spec fn title_line(index: int, e: MessageEntry) -> Seq<char> {
    line_head(index, e) + e.message_type@ + (match e.model {
        Some(m) => " ("@ + m@ + ")"@,
        None => Seq::empty(),
    }) + ":"@
}

/// The lines of what was written in a message, set in from the margin.
pub open spec fn content_lines(e: MessageEntry, detail: Detail) -> Seq<Seq<char>> {
    match content_at(e, detail) {
        Some(t) => seq!["    "@ + t],
        None => Seq::empty(),
    }
}

/// The line of the thoughts of a message.
pub open spec fn thinking_lines(e: MessageEntry, include_thinking: bool, long: bool) -> Seq<
    Seq<char>,
> {
    match e.thinking {
        Some(t) => if include_thinking {
            seq![
                "    thinking: "@ + (if long {
                    t.long@
                } else {
                    t.brief@
                }),
            ]
        } else {
            Seq::empty()
        },
        None => Seq::empty(),
    }
}

/// The lines of a message at a level of detail.
pub open spec fn entry_lines(
    index: int,
    e: MessageEntry,
    detail: Detail,
    include_thinking: bool,
    transcripts: bool,
) -> Seq<Seq<char>> {
    match detail {
        Detail::Overview => match content_at(e, detail) {
            Some(t) => seq![
                line_head(index, e) + (if e.kind is Attachment {
                    "user (queued)"@
                } else {
                    "user"@
                }) + ": "@ + t,
            ],
            None => Seq::empty(),
        },
        Detail::Conversation => (match content_at(e, detail) {
            Some(t) => seq![line_head(index, e) + e.message_type@ + ": "@ + t],
            None => Seq::empty(),
        }) + thinking_lines(e, include_thinking, false),
        Detail::Standard => if !renders(e, detail, include_thinking) {
            Seq::empty()
        } else {
            seq![title_line(index, e)] + content_lines(e, detail) + (if e.tool_names@.len() > 0 {
                seq!["    tools: "@ + joined(views(e.tool_names@), ", "@)]
            } else {
                Seq::empty()
            }) + thinking_lines(e, include_thinking, false) + seq![""@]
        },
        Detail::Full => if !renders(e, detail, include_thinking) {
            Seq::empty()
        } else {
            seq![title_line(index, e)] + content_lines(e, detail) + text::spread(
                calls_of(e),
                |c: MessageToolUse| call_lines(c, transcripts),
            ) + thinking_lines(e, include_thinking, true) + seq![""@]
        },
    }
}

/// A message has something to show, and is counted as such in the heading of a page, exactly
/// where it prints a line.
pub proof fn counted_messages_print(
    index: int,
    e: MessageEntry,
    detail: Detail,
    include_thinking: bool,
    transcripts: bool,
)
    ensures
        renders(e, detail, include_thinking) <==> entry_lines(
            index,
            e,
            detail,
            include_thinking,
            transcripts,
        ).len() > 0,
{
}

fn write_summary(summary: &Vec<(String, String)>) -> (r: Vec<String>)
    ensures
        views(r@) == summary_texts(summary@),
{
    let mut out: Vec<String> = Vec::new();
    let pair = |p: &(String, String)| -> (o: String)
        ensures
            o@ == p.0@ + "="@ + p.1@,
        { text::cat3(p.0.as_str(), "=", p.1.as_str()) };
    let ghost g = |p: (String, String)| p.0@ + "="@ + p.1@;
    text::say_each(&mut out, summary, pair, Ghost(g));
    proof {
        assert(views(out@) =~= summary_texts(summary@));
    }
    out
}

fn write_transcript_line(t: &TranscriptLine) -> (r: String)
    ensures
        r@ == transcript_line(*t),
{
    let digits = text::size(t.index);
    let head = text::cat5("         [", digits.as_str(), "] ", t.msg_type.as_str(), ": ");
    text::cat2(head.as_str(), t.content.as_str())
}

fn write_subagent(m: &SubagentMatch, transcripts: bool) -> (r: Vec<String>)
    ensures
        views(r@) == subagent_lines(*m, transcripts),
{
    let mut out: Vec<String> = Vec::new();
    let count: String = match m.message_count {
        Some(n) => {
            let digits = text::size(n);
            text::cat3(" (", digits.as_str(), " msgs)")
        },
        None => String::new(),
    };
    text::say3(&mut out, "      -> subagent ", m.session_id.as_str(), count.as_str());
    match &m.result_line {
        Some(t) => text::say2(&mut out, "         result: ", t.as_str()),
        None => {},
    }
    if transcripts {
        text::say_each(
            &mut out,
            &m.transcript,
            write_transcript_line,
            Ghost(|t: TranscriptLine| transcript_line(t)),
        );
    }
    proof {
        assert(views(out@) =~= subagent_lines(*m, transcripts));
    }
    out
}

fn write_call(c: &MessageToolUse, transcripts: bool) -> (r: Vec<String>)
    ensures
        views(r@) == call_lines(*c, transcripts),
{
    let mut out: Vec<String> = Vec::new();
    let parts = write_summary(&c.summary);
    let told = text::join(&parts, " ");
    text::say4(&mut out, "    > ", c.name.as_str(), " ", told.as_str());
    match &c.subagent {
        Some(m) => {
            let more = write_subagent(m, transcripts);
            text::say_more(&mut out, more);
        },
        None => {},
    }
    proof {
        assert(views(out@) =~= call_lines(*c, transcripts));
    }
    out
}

fn say_title(out: &mut Vec<String>, index: usize, e: &MessageEntry)
    ensures
        views(final(out)@) == views(old(out)@).push(title_line(index as int, *e)),
{
    let head = write_head(index, e);
    let model: String = match &e.model {
        Some(m) => text::cat3(" (", m.as_str(), ")"),
        None => String::new(),
    };
    text::say4(out, head.as_str(), e.message_type.as_str(), model.as_str(), ":");
}

fn say_content(out: &mut Vec<String>, e: &MessageEntry, detail: Detail)
    ensures
        views(final(out)@) == views(old(out)@) + content_lines(*e, detail),
{
    let ghost start = views(out@);
    match content_of(e, detail) {
        Some(t) => text::say2(out, "    ", t.as_str()),
        None => {},
    }
    proof {
        assert(views(out@) =~= start + content_lines(*e, detail));
    }
}

fn say_thinking(out: &mut Vec<String>, e: &MessageEntry, include_thinking: bool, long: bool)
    ensures
        views(final(out)@) == views(old(out)@) + thinking_lines(*e, include_thinking, long),
{
    let ghost start = views(out@);
    match &e.thinking {
        Some(t) => {
            if include_thinking {
                if long {
                    text::say2(out, "    thinking: ", t.long.as_str());
                } else {
                    text::say2(out, "    thinking: ", t.brief.as_str());
                }
            }
        },
        None => {},
    }
    proof {
        assert(views(out@) =~= start + thinking_lines(*e, include_thinking, long));
    }
}

/// The lines of a message at a level of detail.
pub fn write_entry(
    index: usize,
    e: &MessageEntry,
    detail: Detail,
    include_thinking: bool,
    transcripts: bool,
) -> (r: Vec<String>)
    ensures
        views(r@) == entry_lines(index as int, *e, detail, include_thinking, transcripts),
{
    let mut out: Vec<String> = Vec::new();
    proof {
        assert(views(out@) =~= Seq::empty());
    }
    match detail {
        Detail::Overview => {
            match content_of(e, detail) {
                Some(t) => {
                    let head = write_head(index, e);
                    let marker: String = if matches!(e.kind, MessageKind::Attachment) {
                        "user (queued)".to_owned()
                    } else {
                        "user".to_owned()
                    };
                    text::say4(&mut out, head.as_str(), marker.as_str(), ": ", t.as_str());
                },
                None => {},
            }
        },
        Detail::Conversation => {
            match content_of(e, detail) {
                Some(t) => {
                    let head = write_head(index, e);
                    text::say4(&mut out, head.as_str(), e.message_type.as_str(), ": ", t.as_str());
                },
                None => {},
            }
            say_thinking(&mut out, e, include_thinking, false);
        },
        Detail::Standard => {
            if renders_at_detail(e, detail, include_thinking) {
                say_title(&mut out, index, e);
                say_content(&mut out, e, detail);
                if e.tool_names.len() > 0 {
                    let tools = text::join(&e.tool_names, ", ");
                    text::say2(&mut out, "    tools: ", tools.as_str());
                }
                say_thinking(&mut out, e, include_thinking, false);
                text::say(&mut out, "");
            }
        },
        Detail::Full => {
            if renders_at_detail(e, detail, include_thinking) {
                say_title(&mut out, index, e);
                say_content(&mut out, e, detail);
                if matches!(e.kind, MessageKind::Assistant) {
                    let call = |c: &MessageToolUse| -> (o: Vec<String>)
                        ensures
                            views(o@) == call_lines(*c, transcripts),
                        { write_call(c, transcripts) };
                    let ghost g = |c: MessageToolUse| call_lines(c, transcripts);
                    text::say_all(&mut out, &e.tool_uses, call, Ghost(g));
                }
                say_thinking(&mut out, e, include_thinking, true);
                text::say(&mut out, "");
            }
        },
    }
    proof {
        assert(views(out@) =~= entry_lines(index as int, *e, detail, include_thinking, transcripts));
    }
    out
}

// ---------------------------------------------------------------------------
// The whole output
// ---------------------------------------------------------------------------

/// The number of places whose message has something to show.
pub open spec fn rendered_count(
    entries: Seq<MessageEntry>,
    places: Seq<usize>,
    detail: Detail,
    include_thinking: bool,
) -> int
    decreases places.len(),
{
    if places.len() == 0 {
        0
    } else {
        rendered_count(entries, places.drop_last(), detail, include_thinking) + (if renders(
            entries[places.last() as int],
            detail,
            include_thinking,
        ) {
            1int
        } else {
            0
        })
    }
}

/// The lines of the messages at some places.
pub open spec fn body_lines(
    entries: Seq<MessageEntry>,
    places: Seq<usize>,
    detail: Detail,
    include_thinking: bool,
    transcripts: bool,
) -> Seq<Seq<char>>
    decreases places.len(),
{
    if places.len() == 0 {
        Seq::empty()
    } else {
        body_lines(entries, places.drop_last(), detail, include_thinking, transcripts)
            + entry_lines(
            places.last() as int,
            entries[places.last() as int],
            detail,
            include_thinking,
            transcripts,
        )
    }
}

/// A session that was started, but by a call that is not known.
pub open spec fn unmatched_lines(m: SubagentMatch) -> Seq<Seq<char>> {
    seq![
        "[subagent "@ + m.session_id@ + ": "@ + (match m.message_count {
            Some(n) => decimal(n as nat) + " msgs"@,
            None => "? msgs"@,
        }) + ", unlinked]"@,
    ] + (match m.result_line {
        Some(t) => seq!["    result: "@ + t@],
        None => Seq::empty(),
    }) + seq![""@]
}

/// What is asked for and found in a session.
#[derive(Debug, PartialEq, Eq)]
pub struct MessagePage {
    /// The id that was asked for.
    pub session_id: String,
    /// The messages that are asked for, in order.
    pub entries: Vec<MessageEntry>,
    /// The latest first.
    pub reverse: bool,
    /// The number of messages that are passed over.
    pub offset: usize,
    /// The most messages.
    pub limit: usize,
    /// How much is shown.
    pub detail: Detail,
    /// Thoughts are shown.
    pub include_thinking: bool,
    /// The messages of started sessions are shown.
    pub transcripts: bool,
    /// The number of lines that could not be read.
    pub unparsed: usize,
    /// The started sessions whose calls are not known.
    pub unmatched: Vec<SubagentMatch>,
}

/// The places on the page.
pub open spec fn shown_places(p: MessagePage) -> Seq<int> {
    page(p.entries@.len() as int, p.reverse, p.offset as int, p.limit as int)
}

/// The heading of the page: how many messages there are, which are shown, and how many of these
/// have nothing to show.
pub open spec fn heading(p: MessagePage, count: int, rendered: int) -> Seq<char> {
    let skipped = count - rendered;
    let last = if p.offset + count < p.entries@.len() {
        p.offset + count
    } else {
        p.entries@.len() as int
    };
    "Session "@ + id_head(p.session_id@) + " ("@ + decimal(p.entries@.len())
        + " messages, showing "@ + decimal((p.offset + 1) as nat) + "-"@ + decimal(last as nat) + (
    if skipped > 0 {
        "; "@ + decimal(rendered as nat) + " rendered, "@ + decimal(skipped as nat)
            + " with no content at this detail"@
    } else {
        Seq::empty()
    }) + ")"@
}

/// What is printed of a page.
pub open spec fn page_lines(p: MessagePage, places: Seq<usize>) -> Seq<Seq<char>> {
    if places.len() == 0 {
        seq!["No messages found."@]
    } else {
        seq![
            heading(
                p,
                places.len() as int,
                rendered_count(p.entries@, places, p.detail, p.include_thinking),
            ),
            ""@,
        ] + (if p.unparsed > 0 {
            seq![
                "⚠ "@ + decimal(p.unparsed as nat) + " line"@ + (if p.unparsed == 1 {
                    ""@
                } else {
                    "s"@
                }) + " could not be parsed (dropped from this view)"@,
                ""@,
            ]
        } else {
            Seq::empty()
        }) + body_lines(p.entries@, places, p.detail, p.include_thinking, p.transcripts)
            + text::spread(p.unmatched@, |m: SubagentMatch| unmatched_lines(m))
    }
}

fn write_unmatched(m: &SubagentMatch) -> (r: Vec<String>)
    ensures
        views(r@) == unmatched_lines(*m),
{
    let mut out: Vec<String> = Vec::new();
    let count: String = match m.message_count {
        Some(n) => {
            let digits = text::size(n);
            text::cat2(digits.as_str(), " msgs")
        },
        None => "? msgs".to_owned(),
    };
    text::say5(
        &mut out,
        "[subagent ",
        m.session_id.as_str(),
        ": ",
        count.as_str(),
        ", unlinked]",
    );
    match &m.result_line {
        Some(t) => text::say2(&mut out, "    result: ", t.as_str()),
        None => {},
    }
    text::say(&mut out, "");
    proof {
        assert(views(out@) =~= unmatched_lines(*m));
    }
    out
}

fn count_rendered(
    entries: &Vec<MessageEntry>,
    places: &Vec<usize>,
    detail: Detail,
    include_thinking: bool,
) -> (r: usize)
    requires
        forall|k: int| 0 <= k < places@.len() ==> (#[trigger] places@[k]) < entries@.len(),
    ensures
        r == rendered_count(entries@, places@, detail, include_thinking),
        r <= places@.len(),
{
    let mut n: usize = 0;
    let mut k: usize = 0;
    let total: usize = places.len();
    proof {
        assert(places@.take(0) =~= Seq::empty());
    }
    while k < total
        invariant
            total == places@.len(),
            k <= total,
            n <= k,
            forall|k: int| 0 <= k < places@.len() ==> (#[trigger] places@[k]) < entries@.len(),
            n == rendered_count(entries@, places@.take(k as int), detail, include_thinking),
        decreases total - k,
    {
        proof {
            let next = places@.take(k + 1);
            assert(next.drop_last() =~= places@.take(k as int));
            assert(next.last() == places@[k as int]);
        }
        if renders_at_detail(&entries[places[k]], detail, include_thinking) {
            n = n + 1;
        }
        k = k + 1;
    }
    proof {
        assert(places@.take(k as int) =~= places@);
    }
    n
}

fn say_body(out: &mut Vec<String>, p: &MessagePage, places: &Vec<usize>)
    requires
        forall|k: int| 0 <= k < places@.len() ==> (#[trigger] places@[k]) < p.entries@.len(),
    ensures
        views(final(out)@) == views(old(out)@) + body_lines(
            p.entries@,
            places@,
            p.detail,
            p.include_thinking,
            p.transcripts,
        ),
{
    let ghost start = views(out@);
    let mut k: usize = 0;
    proof {
        assert(places@.take(0) =~= Seq::empty());
        assert(start + Seq::empty() =~= start);
    }
    while k < places.len()
        invariant
            k <= places@.len(),
            forall|k: int| 0 <= k < places@.len() ==> (#[trigger] places@[k]) < p.entries@.len(),
            views(out@) == start + body_lines(
                p.entries@,
                places@.take(k as int),
                p.detail,
                p.include_thinking,
                p.transcripts,
            ),
        decreases places@.len() - k,
    {
        let place: usize = places[k];
        let lines = write_entry(
            place,
            &p.entries[place],
            p.detail,
            p.include_thinking,
            p.transcripts,
        );
        let ghost so_far = views(out@);
        let ghost more = views(lines@);
        text::say_more(out, lines);
        proof {
            let next = places@.take(k + 1);
            assert(next.drop_last() =~= places@.take(k as int));
            assert(next.last() == places@[k as int]);
            assert(so_far + more =~= start + body_lines(
                p.entries@,
                next,
                p.detail,
                p.include_thinking,
                p.transcripts,
            ));
        }
        k = k + 1;
    }
    proof {
        assert(places@.take(k as int) =~= places@);
    }
}

fn write_heading(p: &MessagePage, count: usize, rendered: usize) -> (r: String)
    requires
        has_short_id(p.session_id@),
        rendered <= count,
        p.offset + count <= p.entries@.len(),
        0 < count,
    ensures
        r@ == heading(*p, count as int, rendered as int),
{
    let short = helpers::short_id(p.session_id.as_str());
    let total = text::size(p.entries.len());
    let ghost entries = p.entries@;
    let total_count: usize = p.entries.len();
    let end: usize = if p.offset + count < total_count {
        p.offset + count
    } else {
        total_count
    };
    let first = text::size(p.offset + 1);
    let last = text::size(end);
    let skipped: usize = count - rendered;
    let note: String = if skipped > 0 {
        let some = text::size(rendered);
        let rest = text::size(skipped);
        text::cat5(
            "; ",
            some.as_str(),
            " rendered, ",
            rest.as_str(),
            " with no content at this detail",
        )
    } else {
        String::new()
    };
    let head = text::cat5("Session ", short.as_str(), " (", total.as_str(), " messages, showing ");
    text::cat5(head.as_str(), first.as_str(), "-", text::cat2(last.as_str(), note.as_str()).as_str(), ")")
}

/// What is printed of a page of messages.
pub fn print_page(p: &MessagePage) -> (r: Vec<String>)
    requires
        shown_places(*p).len() > 0 ==> has_short_id(p.session_id@),
    ensures
        exists|places: Seq<usize>|
            places_view(places) == shown_places(*p) && views(r@) == #[trigger] page_lines(
                *p,
                places,
            ),
{
    let total: usize = p.entries.len();
    let places = paginate(total, p.reverse, p.offset, p.limit);
    let mut out: Vec<String> = Vec::new();
    proof {
        let all = page(total as int, p.reverse, p.offset as int, p.limit as int);
        assert(places@.len() == all.len());
        assert forall|k: int| 0 <= k < places@.len() implies (#[trigger] places@[k])
            < p.entries@.len() by {
            assert(places_view(places@)[k] == all[k]);
            pages_stay_within(total as int, p.reverse, p.offset as int, p.limit as int, k);
        }
        assert(views(out@) =~= Seq::empty());
    }
    if places.len() == 0 {
        text::say(&mut out, "No messages found.");
    } else {
        let rendered = count_rendered(&p.entries, &places, p.detail, p.include_thinking);
        let line = write_heading(p, places.len(), rendered);
        text::say(&mut out, line.as_str());
        text::say(&mut out, "");
        if p.unparsed > 0 {
            let digits = text::size(p.unparsed);
            let plural: String = if p.unparsed == 1 {
                "".to_owned()
            } else {
                "s".to_owned()
            };
            text::say5(
                &mut out,
                "⚠ ",
                digits.as_str(),
                " line",
                plural.as_str(),
                " could not be parsed (dropped from this view)",
            );
            text::say(&mut out, "");
        }
        say_body(&mut out, p, &places);
        text::say_all(
            &mut out,
            &p.unmatched,
            write_unmatched,
            Ghost(|m: SubagentMatch| unmatched_lines(m)),
        );
    }
    proof {
        assert(views(out@) =~= page_lines(*p, places@));
    }
    out
}

/// The notice that a chain of sessions is shown.
pub fn chain_notice(member_count: usize, root_id: &str) -> (r: String)
    ensures
        r@ == "ℹ Showing full resume chain: "@ + decimal(member_count as nat) + " files (root "@
            + root_id@ + "). Use --no-chain to restrict."@,
{
    let digits = text::size(member_count);
    text::cat5(
        "ℹ Showing full resume chain: ",
        digits.as_str(),
        " files (root ",
        root_id,
        "). Use --no-chain to restrict.",
    )
}

/// The sum of some numbers.
pub open spec fn sum_of(counts: Seq<usize>) -> int
    decreases counts.len(),
{
    if counts.len() == 0 {
        0
    } else {
        sum_of(counts.drop_last()) + counts.last()
    }
}

/// The notice that only some chunks are shown.
pub open spec fn chunk_text(
    start: usize,
    end: usize,
    branches: int,
    total: usize,
    entries: usize,
) -> Seq<char> {
    "ℹ Showing "@ + (if start == end {
        "chunk "@ + decimal(start as nat)
    } else {
        "chunks "@ + decimal(start as nat) + "-"@ + decimal(end as nat)
    }) + " of "@ + decimal(total as nat) + " ("@ + decimal(entries as nat) + " entries)"@ + (
    if branches > 0 {
        " ("@ + decimal(branches as nat)
            + " abandoned branch(es) not shown — see `snatch chunks`)"@
    } else {
        Seq::empty()
    })
}

/// The notice that only the chunks from `start` to `end` are shown; `branches` gives the number
/// of abandoned branches of each chunk.
pub fn chunk_notice(start: usize, end: usize, branches: &Vec<usize>, entries: usize) -> (r: String)
    requires
        start <= end < branches@.len(),
    ensures
        r@ == chunk_text(
            start,
            end,
            sum_of(branches@.subrange(start as int, end + 1)),
            branches@.len() as usize,
            entries,
        ),
{
    let mut sum: u128 = 0;
    let mut k: usize = start;
    let count: usize = branches.len();
    proof {
        assert(branches@.subrange(start as int, start as int) =~= Seq::empty());
    }
    while k <= end
        invariant
            count == branches@.len(),
            start <= k <= end + 1,
            end < branches@.len(),
            sum == sum_of(branches@.subrange(start as int, k as int)),
            sum <= k * 0xffff_ffff_ffff_ffff,
        decreases end + 1 - k,
    {
        proof {
            let next = branches@.subrange(start as int, k + 1);
            assert(next.drop_last() =~= branches@.subrange(start as int, k as int));
        }
        sum = sum + branches[k] as u128;
        k = k + 1;
    }
    let first = text::size(start);
    let range: String = if start == end {
        text::cat2("chunk ", first.as_str())
    } else {
        let last = text::size(end);
        text::cat4("chunks ", first.as_str(), "-", last.as_str())
    };
    let total = text::size(branches.len());
    let shown = text::size(entries);
    let note: String = if sum > 0 {
        let digits = text::large(sum);
        text::cat3(
            " (",
            digits.as_str(),
            " abandoned branch(es) not shown — see `snatch chunks`)",
        )
    } else {
        String::new()
    };
    let head = text::cat5("ℹ Showing ", range.as_str(), " of ", total.as_str(), " (");
    text::cat4(head.as_str(), shown.as_str(), " entries)", note.as_str())
}

// ---------------------------------------------------------------------------
// Messages as values
// ---------------------------------------------------------------------------

/// What is handed out of a call.
#[derive(Debug, PartialEq, Eq)]
pub struct ToolDetailOutput {
    /// The name of the tool.
    pub tool_name: String,
    /// The file that it was given.
    pub file_path: Option<String>,
    /// The command that it was given.
    pub command: Option<String>,
    /// The pattern that it was given.
    pub pattern: Option<String>,
    /// The kind of session that it started.
    pub subagent_type: Option<String>,
    /// What it was told to do, in short.
    pub description: Option<String>,
    /// What it was told to do.
    pub prompt: Option<String>,
    /// The session that it started.
    pub subagent_session_id: Option<String>,
    /// What that session answered.
    pub subagent_result_preview: Option<String>,
    /// The messages of that session, where they are asked for.
    pub subagent_transcript: Option<Vec<MessageOutput>>,
}

/// What is handed out of a message.
#[derive(Debug, PartialEq, Eq)]
pub struct MessageOutput {
    /// Its place.
    pub index: usize,
    /// Its kind, in words.
    pub msg_type: String,
    /// When it was sent.
    pub timestamp: Option<String>,
    /// What was written.
    pub content: Option<String>,
    /// The branch that was checked out.
    pub git_branch: Option<String>,
    /// The model that wrote it.
    pub model: Option<String>,
    /// The names of the tools that were called.
    pub tool_calls: Option<Vec<String>>,
    /// The calls of tools.
    pub tool_details: Option<Vec<ToolDetailOutput>>,
    /// Set where there are thoughts.
    pub has_thinking: Option<bool>,
    /// The thoughts.
    pub thinking_preview: Option<String>,
}

/// The value of the last pair with this name.
pub open spec fn told(summary: Seq<(String, String)>, name: Seq<char>) -> Option<Seq<char>>
    decreases summary.len(),
{
    if summary.len() == 0 {
        None
    } else if summary.last().0@ == name {
        Some(summary.last().1@)
    } else {
        told(summary.drop_last(), name)
    }
}

/// What is told under a name is the value of a pair with that name, and no later pair has it.
pub proof fn last_word_is_told(summary: Seq<(String, String)>, name: Seq<char>)
    ensures
        told(summary, name) matches Some(v) ==> exists|i: int|
            0 <= i < summary.len() && (#[trigger] summary[i]).0@ == name && summary[i].1@ == v
                && forall|j: int| i < j < summary.len() ==> (#[trigger] summary[j]).0@ != name,
        told(summary, name) is None ==> forall|i: int|
            0 <= i < summary.len() ==> (#[trigger] summary[i]).0@ != name,
    decreases summary.len(),
{
    if summary.len() > 0 {
        let front = summary.drop_last();
        assert(summary[summary.len() - 1] == summary.last());
        if summary.last().0@ != name {
            last_word_is_told(front, name);
            match told(summary, name) {
                Some(v) => {
                    let i = choose|i: int|
                        0 <= i < front.len() && (#[trigger] front[i]).0@ == name && front[i].1@ == v
                            && forall|j: int|
                            i < j < front.len() ==> (#[trigger] front[j]).0@ != name;
                    assert(summary[i] == front[i]);
                    assert forall|j: int| i < j < summary.len() implies (#[trigger] summary[j]).0@
                        != name by {
                        if j < front.len() {
                            assert(front[j] == summary[j]);
                        }
                    }
                },
                None => {
                    assert forall|i: int| 0 <= i < summary.len() implies (
                    #[trigger] summary[i]).0@ != name by {
                        if i < front.len() {
                            assert(front[i] == summary[i]);
                        }
                    }
                },
            }
        }
    }
}

fn look_up(summary: &Vec<(String, String)>, name: &str) -> (r: Option<String>)
    ensures
        text_view(r) == told(summary@, name@),
{
    let mut i: usize = summary.len();
    proof {
        assert(summary@.take(i as int) =~= summary@);
    }
    while i > 0
        invariant
            i <= summary@.len(),
            told(summary@.take(i as int), name@) == told(summary@, name@),
        decreases i,
    {
        proof {
            let part = summary@.take(i as int);
            assert(part.last() == summary@[i - 1]);
            assert(part.drop_last() =~= summary@.take(i - 1));
        }
        if text::same(summary[i - 1].0.as_str(), name) {
            return Some(summary[i - 1].1.clone());
        }
        i = i - 1;
    }
    None
}

/// What is handed out of a call.
pub open spec fn is_detail_of(
    d: ToolDetailOutput,
    c: MessageToolUse,
    include_thinking: bool,
    transcripts: bool,
) -> bool {
    &&& d.tool_name@ == c.name@
    &&& text_view(d.file_path) == told(c.summary@, "file_path"@)
    &&& text_view(d.command) == told(c.summary@, "command"@)
    &&& text_view(d.pattern) == told(c.summary@, "pattern"@)
    &&& text_view(d.subagent_type) == told(c.summary@, "subagent_type"@)
    &&& text_view(d.description) == told(c.summary@, "description"@)
    &&& text_view(d.prompt) == told(c.summary@, "prompt"@)
    &&& match c.subagent {
        Some(m) => {
            &&& text_view(d.subagent_session_id) == Some(m.session_id@)
            &&& text_view(d.subagent_result_preview) == text_view(m.result_preview)
            &&& match d.subagent_transcript {
                Some(list) => transcripts && is_transcript_of_all(
                    list@,
                    m.messages@,
                    include_thinking,
                ),
                None => !transcripts,
            }
        },
        None => {
            &&& d.subagent_session_id is None
            &&& d.subagent_result_preview is None
            &&& d.subagent_transcript is None
        },
    }
}

fn detail_output(c: &MessageToolUse, include_thinking: bool, transcripts: bool) -> (r:
    ToolDetailOutput)
    ensures
        is_detail_of(r, *c, include_thinking, transcripts),
{
    let subagent_session_id: Option<String> = match &c.subagent {
        Some(m) => Some(m.session_id.clone()),
        None => None,
    };
    let subagent_result_preview: Option<String> = match &c.subagent {
        Some(m) => copy_text(&m.result_preview),
        None => None,
    };
    let subagent_transcript: Option<Vec<MessageOutput>> = match &c.subagent {
        Some(m) => if transcripts {
            Some(render_subagent_transcript(&m.messages, include_thinking))
        } else {
            None
        },
        None => None,
    };
    ToolDetailOutput {
        tool_name: c.name.clone(),
        file_path: look_up(&c.summary, "file_path"),
        command: look_up(&c.summary, "command"),
        pattern: look_up(&c.summary, "pattern"),
        subagent_type: look_up(&c.summary, "subagent_type"),
        description: look_up(&c.summary, "description"),
        prompt: look_up(&c.summary, "prompt"),
        subagent_session_id,
        subagent_result_preview,
        subagent_transcript,
    }
}

/// What is handed out of the calls of a message.
pub open spec fn details_ok(
    details: Seq<ToolDetailOutput>,
    calls: Seq<MessageToolUse>,
    include_thinking: bool,
    transcripts: bool,
) -> bool {
    &&& details.len() == calls.len()
    &&& forall|k: int|
        0 <= k < calls.len() ==> is_detail_of(
            #[trigger] details[k],
            calls[k],
            include_thinking,
            transcripts,
        )
}

/// What is handed out of a message at a level of detail, but for the calls of tools.
pub open spec fn is_plain_output_of(
    m: MessageOutput,
    index: usize,
    e: MessageEntry,
    detail: Detail,
    include_thinking: bool,
) -> bool {
    &&& m.index == index
    &&& m.msg_type@ == e.message_type@
    &&& text_view(m.timestamp) == stamped_if(e.time, false)
    &&& text_view(m.content) == content_at(e, detail)
    &&& text_view(m.git_branch) == text_view(e.git_branch)
    &&& text_view(m.model) == (if detail is Overview {
        None
    } else {
        text_view(e.model)
    })
    &&& match m.tool_calls {
        Some(names) => (detail is Standard || detail is Full) && names@ == e.tool_names@
            && names@.len() > 0,
        None => detail is Overview || detail is Conversation || e.tool_names@.len() == 0,
    }
    &&& m.has_thinking == (if !(detail is Overview) && e.has_thinking {
        Some(true)
    } else {
        None::<bool>
    })
    &&& text_view(m.thinking_preview) == (match e.thinking {
        Some(t) => if include_thinking && !(detail is Overview) {
            Some(t.preview@)
        } else {
            None
        },
        None => None,
    })
}

/// What is handed out of a message at a level of detail.
pub open spec fn is_output_of(
    m: MessageOutput,
    index: usize,
    e: MessageEntry,
    detail: Detail,
    include_thinking: bool,
    transcripts: bool,
) -> bool {
    &&& is_plain_output_of(m, index, e, detail, include_thinking)
    &&& match m.tool_details {
        Some(details) => detail is Full && calls_of(e).len() > 0 && details_ok(
            details@,
            calls_of(e),
            include_thinking,
            transcripts,
        ),
        None => !(detail is Full) || calls_of(e).len() == 0,
    }
}

/// What is handed out of one message at two levels differs in nothing but what the levels are about:
/// the same place, type, time and branch at all, the same model and thoughts at all but the
/// overview, the same calls at `standard` and `full`; the details of calls come at `full` alone, one
/// for each call of the assistant in order.
pub proof fn levels_hand_out_alike(
    m: MessageOutput,
    n: MessageOutput,
    index: usize,
    e: MessageEntry,
    d: Detail,
    f: Detail,
    include_thinking: bool,
    transcripts: bool,
)
    requires
        is_output_of(m, index, e, d, include_thinking, transcripts),
        is_output_of(n, index, e, f, include_thinking, transcripts),
    ensures
        m.index == n.index == index,
        m.msg_type@ == e.message_type@ && n.msg_type@ == e.message_type@,
        text_view(m.timestamp) == text_view(n.timestamp),
        text_view(m.git_branch) == text_view(e.git_branch),
        text_view(n.git_branch) == text_view(e.git_branch),
        d !is Overview && f !is Overview ==> text_view(m.model) == text_view(n.model)
            && m.has_thinking == n.has_thinking && text_view(m.thinking_preview) == text_view(
            n.thinking_preview,
        ),
        d is Overview ==> m.model is None && m.has_thinking is None && m.thinking_preview is None,
        d !is Overview ==> text_view(m.model) == text_view(e.model) && (m.has_thinking is Some
            <==> e.has_thinking) && (m.thinking_preview is Some <==> include_thinking && e.thinking
            is Some),
        d is Overview || d is Conversation ==> m.tool_calls is None,
        d is Standard || d is Full ==> (m.tool_calls is Some <==> e.tool_names@.len() > 0),
        m.tool_calls matches Some(names) ==> names@ == e.tool_names@,
        m.tool_details is Some <==> d is Full && e.kind is Assistant && e.tool_uses@.len() > 0,
        m.tool_details matches Some(details) ==> details@.len() == e.tool_uses@.len() && forall|
            k: int,
        |
            0 <= k < details@.len() ==> (#[trigger] details@[k]).tool_name@
                == e.tool_uses@[k].name@,
{
}

/// What is handed out of a message at a level of detail. Every message gives something.
pub fn build_message_output(
    index: usize,
    e: &MessageEntry,
    detail: Detail,
    include_thinking: bool,
    transcripts: bool,
) -> (r: Option<MessageOutput>)
    ensures
        r matches Some(m) && is_output_of(m, index, *e, detail, include_thinking, transcripts),
{
    let shows_tools: bool = matches!(detail, Detail::Standard) || matches!(detail, Detail::Full);
    let is_overview: bool = matches!(detail, Detail::Overview);
    let tool_calls: Option<Vec<String>> = if shows_tools && e.tool_names.len() > 0 {
        Some(names::copy_names(&e.tool_names))
    } else {
        None
    };
    let mut tool_details: Option<Vec<ToolDetailOutput>> = None;
    if matches!(detail, Detail::Full) && matches!(e.kind, MessageKind::Assistant)
        && e.tool_uses.len() > 0 {
        let mut details: Vec<ToolDetailOutput> = Vec::new();
        let mut k: usize = 0;
        while k < e.tool_uses.len()
            invariant
                k <= e.tool_uses@.len(),
                details@.len() == k,
                forall|j: int|
                    0 <= j < k ==> is_detail_of(
                        #[trigger] details@[j],
                        e.tool_uses@[j],
                        include_thinking,
                        transcripts,
                    ),
            decreases e.tool_uses@.len() - k,
        {
            details.push(detail_output(&e.tool_uses[k], include_thinking, transcripts));
            k = k + 1;
        }
        tool_details = Some(details);
    }
    let model: Option<String> = if is_overview {
        None
    } else {
        copy_text(&e.model)
    };
    let has_thinking: Option<bool> = if !is_overview && e.has_thinking {
        Some(true)
    } else {
        None
    };
    let thinking_preview: Option<String> = match &e.thinking {
        Some(t) => if include_thinking && !is_overview {
            Some(t.preview.clone())
        } else {
            None
        },
        None => None,
    };
    let content = content_of(e, detail);
    Some(
        MessageOutput {
            index,
            msg_type: e.message_type.clone(),
            timestamp: time::stamp_if(e.time, false),
            content,
            git_branch: copy_text(&e.git_branch),
            model,
            tool_calls,
            tool_details,
            has_thinking,
            thinking_preview,
        },
    )
}

/// What is handed out of a message of a started session: as at the usual level of detail, but
/// nothing of what was put beside a message.
pub open spec fn is_transcript_of(
    m: MessageOutput,
    index: usize,
    e: MessageEntry,
    include_thinking: bool,
) -> bool {
    &&& is_plain_output_of(
        m,
        index,
        MessageEntry { attachment: None, ..e },
        Detail::Standard,
        include_thinking,
    )
    &&& m.tool_details is None
}

/// What is handed out of the messages of a started session.
pub open spec fn is_transcript_of_all(
    list: Seq<MessageOutput>,
    entries: Seq<MessageEntry>,
    include_thinking: bool,
) -> bool {
    &&& list.len() == entries.len()
    &&& forall|k: int|
        0 <= k < list.len() ==> is_transcript_of(
            #[trigger] list[k],
            k as usize,
            entries[k],
            include_thinking,
        )
}

/// The messages of a started session.
pub fn render_subagent_transcript(entries: &Vec<MessageEntry>, include_thinking: bool) -> (r: Vec<
    MessageOutput,
>)
    ensures
        is_transcript_of_all(r@, entries@, include_thinking),
{
    let mut out: Vec<MessageOutput> = Vec::new();
    let mut k: usize = 0;
    while k < entries.len()
        invariant
            k <= entries@.len(),
            out@.len() == k,
            forall|j: int|
                0 <= j < k ==> is_transcript_of(
                    #[trigger] out@[j],
                    j as usize,
                    entries@[j],
                    include_thinking,
                ),
        decreases entries@.len() - k,
    {
        let e = &entries[k];
        let content: Option<String> = match e.kind {
            MessageKind::User => copy_text(&e.prompt),
            MessageKind::Assistant => copy_text(&e.summary),
            MessageKind::System => copy_text(&e.system),
            _ => None,
        };
        let tool_calls: Option<Vec<String>> = if e.tool_names.len() > 0 {
            Some(names::copy_names(&e.tool_names))
        } else {
            None
        };
        let has_thinking: Option<bool> = if e.has_thinking {
            Some(true)
        } else {
            None
        };
        let thinking_preview: Option<String> = match &e.thinking {
            Some(t) => if include_thinking {
                Some(t.preview.clone())
            } else {
                None
            },
            None => None,
        };
        out.push(
            MessageOutput {
                index: k,
                msg_type: e.message_type.clone(),
                timestamp: time::stamp_if(e.time, false),
                content,
                git_branch: copy_text(&e.git_branch),
                model: copy_text(&e.model),
                tool_calls,
                tool_details: None,
                has_thinking,
                thinking_preview,
            },
        );
        k = k + 1;
    }
    out
}

// ---------------------------------------------------------------------------
// As JSON
// ---------------------------------------------------------------------------

/// The fields of a message of a started session, whose calls are not told.
pub open spec fn spoken_fields(m: MessageOutput) -> Seq<(Seq<char>, JsonView)> {
    seq![
        ("index"@, number_json(m.index as nat)),
        ("msg_type"@, JsonView::Text(m.msg_type@)),
    ] + given_text("timestamp"@, m.timestamp) + given_text("content"@, m.content) + given_text("git_branch"@, m.git_branch) + given_text("model"@, m.model) + given_texts("tool_calls"@, m.tool_calls) + given_truth("has_thinking"@, m.has_thinking) + given_text("thinking_preview"@, m.thinking_preview)
}

fn spoken_json(m: &MessageOutput) -> (r: Json)
    ensures
        r@ == JsonView::Object(spoken_fields(*m)),
{
    let mut fields: Vec<(String, Json)> = Vec::new();
    let ghost before0 = fields_view(fields@);
    json::put(&mut fields, "index", json::of_size(m.index));
    json::put(&mut fields, "msg_type", json::of_text(m.msg_type.as_str()));
    proof {
        assert(fields_view(fields@) =~= before0 + seq![
            ("index"@, number_json(m.index as nat)),
            ("msg_type"@, JsonView::Text(m.msg_type@)),
        ]);
    }
    json::put_given_text(&mut fields, "timestamp", &m.timestamp);
    json::put_given_text(&mut fields, "content", &m.content);
    json::put_given_text(&mut fields, "git_branch", &m.git_branch);
    json::put_given_text(&mut fields, "model", &m.model);
    json::put_given_texts(&mut fields, "tool_calls", &m.tool_calls);
    json::put_given_truth(&mut fields, "has_thinking", m.has_thinking);
    json::put_given_text(&mut fields, "thinking_preview", &m.thinking_preview);
    proof {
        assert(fields_view(fields@) =~= spoken_fields(*m));
    }
    Json::Object(fields)
}

/// A field for the messages of a started session, where they are asked for.
pub open spec fn given_transcript(list: Option<Vec<MessageOutput>>) -> Seq<(Seq<char>, JsonView)> {
    match list {
        Some(v) => seq![
            (
                "subagent_transcript"@,
                JsonView::Array(
                    v@.map_values(|m: MessageOutput| JsonView::Object(spoken_fields(m))),
                ),
            ),
        ],
        None => Seq::empty(),
    }
}

fn put_transcript(fields: &mut Vec<(String, Json)>, list: &Option<Vec<MessageOutput>>)
    ensures
        fields_view(final(fields)@) == fields_view(old(fields)@) + given_transcript(*list),
{
    let ghost start = fields_view(fields@);
    match list {
        Some(v) => {
            let ghost g = |m: MessageOutput| JsonView::Object(spoken_fields(m));
            json::put(fields, "subagent_transcript", json::of_list(v, spoken_json, Ghost(g)));
        },
        None => {},
    }
    proof {
        assert(fields_view(fields@) =~= start + given_transcript(*list));
    }
}

/// The fields of a call.
pub open spec fn detail_fields(d: ToolDetailOutput) -> Seq<(Seq<char>, JsonView)> {
    seq![
        ("tool_name"@, JsonView::Text(d.tool_name@)),
    ] + given_text("file_path"@, d.file_path) + given_text("command"@, d.command) + given_text("pattern"@, d.pattern) + given_text("subagent_type"@, d.subagent_type) + given_text("description"@, d.description) + given_text("prompt"@, d.prompt) + given_text("subagent_session_id"@, d.subagent_session_id) + given_text("subagent_result_preview"@, d.subagent_result_preview) + given_transcript(d.subagent_transcript)
}

fn detail_json(d: &ToolDetailOutput) -> (r: Json)
    ensures
        r@ == JsonView::Object(detail_fields(*d)),
{
    let mut fields: Vec<(String, Json)> = Vec::new();
    let ghost before0 = fields_view(fields@);
    json::put(&mut fields, "tool_name", json::of_text(d.tool_name.as_str()));
    proof {
        assert(fields_view(fields@) =~= before0 + seq![
            ("tool_name"@, JsonView::Text(d.tool_name@)),
        ]);
    }
    json::put_given_text(&mut fields, "file_path", &d.file_path);
    json::put_given_text(&mut fields, "command", &d.command);
    json::put_given_text(&mut fields, "pattern", &d.pattern);
    json::put_given_text(&mut fields, "subagent_type", &d.subagent_type);
    json::put_given_text(&mut fields, "description", &d.description);
    json::put_given_text(&mut fields, "prompt", &d.prompt);
    json::put_given_text(&mut fields, "subagent_session_id", &d.subagent_session_id);
    json::put_given_text(&mut fields, "subagent_result_preview", &d.subagent_result_preview);
    put_transcript(&mut fields, &d.subagent_transcript);
    proof {
        assert(fields_view(fields@) =~= detail_fields(*d));
    }
    Json::Object(fields)
}

/// A field for the calls of a message, where they are told.
pub open spec fn given_details(list: Option<Vec<ToolDetailOutput>>) -> Seq<(Seq<char>, JsonView)> {
    match list {
        Some(v) => seq![
            (
                "tool_details"@,
                JsonView::Array(
                    v@.map_values(|d: ToolDetailOutput| JsonView::Object(detail_fields(d))),
                ),
            ),
        ],
        None => Seq::empty(),
    }
}

fn put_details(fields: &mut Vec<(String, Json)>, list: &Option<Vec<ToolDetailOutput>>)
    ensures
        fields_view(final(fields)@) == fields_view(old(fields)@) + given_details(*list),
{
    let ghost start = fields_view(fields@);
    match list {
        Some(v) => {
            let ghost g = |d: ToolDetailOutput| JsonView::Object(detail_fields(d));
            json::put(fields, "tool_details", json::of_list(v, detail_json, Ghost(g)));
        },
        None => {},
    }
    proof {
        assert(fields_view(fields@) =~= start + given_details(*list));
    }
}

/// The fields of a message.
pub open spec fn message_fields(m: MessageOutput) -> Seq<(Seq<char>, JsonView)> {
    seq![
        ("index"@, number_json(m.index as nat)),
        ("msg_type"@, JsonView::Text(m.msg_type@)),
    ] + given_text("timestamp"@, m.timestamp) + given_text("content"@, m.content) + given_text("git_branch"@, m.git_branch) + given_text("model"@, m.model) + given_texts("tool_calls"@, m.tool_calls) + given_details(m.tool_details) + given_truth("has_thinking"@, m.has_thinking) + given_text("thinking_preview"@, m.thinking_preview)
}

fn message_json(m: &MessageOutput) -> (r: Json)
    ensures
        r@ == JsonView::Object(message_fields(*m)),
{
    let mut fields: Vec<(String, Json)> = Vec::new();
    let ghost before0 = fields_view(fields@);
    json::put(&mut fields, "index", json::of_size(m.index));
    json::put(&mut fields, "msg_type", json::of_text(m.msg_type.as_str()));
    proof {
        assert(fields_view(fields@) =~= before0 + seq![
            ("index"@, number_json(m.index as nat)),
            ("msg_type"@, JsonView::Text(m.msg_type@)),
        ]);
    }
    json::put_given_text(&mut fields, "timestamp", &m.timestamp);
    json::put_given_text(&mut fields, "content", &m.content);
    json::put_given_text(&mut fields, "git_branch", &m.git_branch);
    json::put_given_text(&mut fields, "model", &m.model);
    json::put_given_texts(&mut fields, "tool_calls", &m.tool_calls);
    put_details(&mut fields, &m.tool_details);
    json::put_given_truth(&mut fields, "has_thinking", m.has_thinking);
    json::put_given_text(&mut fields, "thinking_preview", &m.thinking_preview);
    proof {
        assert(fields_view(fields@) =~= message_fields(*m));
    }
    Json::Object(fields)
}

/// The fields of a session that no call is known to have started.
pub open spec fn unlinked_fields(m: SubagentMatch) -> Seq<(Seq<char>, JsonView)> {
    seq![
        ("session_id"@, JsonView::Text(m.session_id@)),
    ] + given_size("message_count"@, m.message_count) + given_text("result_preview"@, m.result_preview)
}

fn unlinked_json(m: &SubagentMatch) -> (r: Json)
    ensures
        r@ == JsonView::Object(unlinked_fields(*m)),
{
    let mut fields: Vec<(String, Json)> = Vec::new();
    let ghost before0 = fields_view(fields@);
    json::put(&mut fields, "session_id", json::of_text(m.session_id.as_str()));
    proof {
        assert(fields_view(fields@) =~= before0 + seq![
            ("session_id"@, JsonView::Text(m.session_id@)),
        ]);
    }
    json::put_given_size(&mut fields, "message_count", m.message_count);
    json::put_given_text(&mut fields, "result_preview", &m.result_preview);
    proof {
        assert(fields_view(fields@) =~= unlinked_fields(*m));
    }
    Json::Object(fields)
}

/// Files that continue each other, where a session is one of several.
#[derive(Debug, Clone, PartialEq, Eq)]
pub struct MessageChain {
    /// The id of the first.
    pub root_id: String,
    /// The ids of all.
    pub members: Vec<String>,
}

/// The fields of the files that continue each other.
pub open spec fn chain_fields(chain: Option<MessageChain>) -> Seq<(Seq<char>, JsonView)> {
    match chain {
        Some(c) => seq![
            ("chain_id"@, JsonView::Text(c.root_id@)),
            ("chain_members"@, texts_json(views(c.members@))),
            ("chain_member_count"@, number_json(c.members@.len())),
        ],
        None => Seq::empty(),
    }
}

/// Messages of a session as they are handed out.
#[derive(Debug, PartialEq, Eq)]
pub struct MessagesOutput {
    /// The session.
    pub session_id: String,
    /// Its project.
    pub project_path: String,
    /// The files that it consists of, where there are several.
    pub chain: Option<MessageChain>,
    /// The number of messages that fit.
    pub total_messages: usize,
    /// The number of messages that were passed over.
    pub offset: usize,
    /// The messages.
    pub messages: Vec<MessageOutput>,
    /// The started sessions that belong to no call.
    pub unmatched: Vec<SubagentMatch>,
}

/// The fields of the messages of a session.
pub open spec fn messages_fields(o: MessagesOutput) -> Seq<(Seq<char>, JsonView)> {
    seq![
        ("session_id"@, JsonView::Text(o.session_id@)),
        ("project_path"@, JsonView::Text(o.project_path@)),
    ] + chain_fields(o.chain) + seq![
        ("total_messages"@, number_json(o.total_messages as nat)),
        ("returned"@, number_json(o.messages@.len())),
        ("offset"@, number_json(o.offset as nat)),
        (
            "messages"@,
            JsonView::Array(
                o.messages@.map_values(|m: MessageOutput| JsonView::Object(message_fields(m))),
            ),
        ),
    ] + some_items(
        "unmatched_subagents"@,
        o.unmatched@.map_values(|m: SubagentMatch| JsonView::Object(unlinked_fields(m))),
    )
}

/// The messages of a session as a JSON object.
pub fn messages_json(o: &MessagesOutput) -> (r: Json)
    ensures
        r@ == JsonView::Object(messages_fields(*o)),
{
    let mut fields: Vec<(String, Json)> = Vec::new();
    json::put(&mut fields, "session_id", json::of_text(o.session_id.as_str()));
    json::put(&mut fields, "project_path", json::of_text(o.project_path.as_str()));
    let ghost first = fields_view(fields@);
    proof {
        assert(first =~= seq![
            ("session_id"@, JsonView::Text(o.session_id@)),
            ("project_path"@, JsonView::Text(o.project_path@)),
        ]);
    }
    match &o.chain {
        Some(c) => {
            json::put(&mut fields, "chain_id", json::of_text(c.root_id.as_str()));
            json::put(&mut fields, "chain_members", json::of_texts(&c.members));
            json::put(&mut fields, "chain_member_count", json::of_size(c.members.len()));
        },
        None => {},
    }
    let ghost chained = fields_view(fields@);
    let ghost g1 = |m: MessageOutput| JsonView::Object(message_fields(m));
    let ghost g2 = |m: SubagentMatch| JsonView::Object(unlinked_fields(m));
    proof {
        assert(chained =~= first + chain_fields(o.chain));
    }
    json::put(&mut fields, "total_messages", json::of_size(o.total_messages));
    json::put(&mut fields, "returned", json::of_size(o.messages.len()));
    json::put(&mut fields, "offset", json::of_size(o.offset));
    json::put(&mut fields, "messages", json::of_list(&o.messages, message_json, Ghost(g1)));
    proof {
        assert(fields_view(fields@) =~= chained + seq![
            ("total_messages"@, number_json(o.total_messages as nat)),
            ("returned"@, number_json(o.messages@.len())),
            ("offset"@, number_json(o.offset as nat)),
            ("messages"@, JsonView::Array(o.messages@.map_values(g1))),
        ]);
    }
    let unmatched = json::of_list(&o.unmatched, unlinked_json, Ghost(g2));
    json::put_some_items(&mut fields, "unmatched_subagents", unmatched);
    Json::Object(fields)
}

// ---------------------------------------------------------------------------
// What a run shows
// ---------------------------------------------------------------------------

/// The arguments of the command.
#[derive(Debug, Clone, PartialEq, Eq)]
pub struct MessagesArgs {
    /// The session.
    pub session_id: String,
    /// How much is shown, in a word.
    pub detail: String,
    /// The type of messages.
    pub message_type: String,
    /// The most messages.
    pub limit: usize,
    /// The number of messages that are passed over.
    pub offset: usize,
    /// The latest first.
    pub reverse: bool,
    /// Thoughts are asked for.
    pub include_thinking: bool,
    /// Only what has to do with failed calls.
    pub errors_only: bool,
    /// Sent no earlier.
    pub after: Option<String>,
    /// Sent no later.
    pub before: Option<String>,
    /// The messages of started sessions are asked for.
    pub subagent_transcripts: bool,
}

/// What was read of a session.
#[derive(Debug, PartialEq, Eq)]
pub struct MessagesRead {
    /// Its messages, or those of the chunks that are asked for.
    pub entries: Vec<MessageEntry>,
    /// The ids of the calls that failed.
    pub failed: Vec<String>,
    /// The started sessions whose calls are not known.
    pub unmatched: Vec<SubagentMatch>,
    /// The number of lines that could not be read.
    pub unparsed: usize,
}

/// The page shows what is asked for of a session: started sessions only where everything is shown.
pub open spec fn is_page_of(
    p: MessagePage,
    args: MessagesArgs,
    read: MessagesRead,
    after: Option<int>,
    before: Option<int>,
) -> bool {
    let detail = detail_of(args.detail@);
    &&& p.session_id@ == args.session_id@
    &&& exists|filter: MessageFilter|
        {
            &&& filter.errors_only == args.errors_only
            &&& views(filter.failed@) == views(read.failed@)
            &&& filter.message_type@ == args.message_type@
            &&& time_view(filter.after) == after
            &&& time_view(filter.before) == before
            &&& filter.detail == detail
            &&& p.entries@ == #[trigger] asked_for(read.entries@, filter)
        }
    &&& p.reverse == args.reverse
    &&& p.offset == args.offset
    &&& p.limit == args.limit
    &&& p.detail == detail
    &&& p.include_thinking == (args.include_thinking || args.detail@ == "full"@)
    &&& p.transcripts == args.subagent_transcripts
    &&& p.unparsed == read.unparsed
    &&& p.unmatched@ == (if args.detail@ == "full"@ {
        read.unmatched@
    } else {
        Seq::empty()
    })
}

/// A time as a number.
pub open spec fn time_view(t: Option<i128>) -> Option<int> {
    match t {
        Some(n) => Some(n as int),
        None => None,
    }
}

/// What is shown of a session, or why nothing is. Nothing is returned where the calendar does not
/// hold a date.
pub fn run(args: &MessagesArgs, read: MessagesRead, now: i128) -> (r: Option<
    Result<MessagePage, SnatchError>,
>)
    ensures
        match (
            bound_filter(text_view(args.after), now),
            bound_filter(text_view(args.before), now),
        ) {
            (BoundFilter::OutOfRange, _) => r is None,
            (BoundFilter::Invalid(error), _) => r matches Some(Err(e)) && e@ == error,
            (BoundFilter::Bound(_), BoundFilter::OutOfRange) => r is None,
            (BoundFilter::Bound(_), BoundFilter::Invalid(error)) => r matches Some(Err(e)) && e@
                == error,
            (BoundFilter::Bound(after), BoundFilter::Bound(before)) => r matches Some(Ok(p))
                && is_page_of(p, *args, read, after, before),
        },
{
    let after: Option<i128> = match commands::parse_bound(helpers::text_ref(&args.after), now) {
        None => {
            return None;
        },
        Some(Err(e)) => {
            return Some(Err(e));
        },
        Some(Ok(t)) => t,
    };
    let before: Option<i128> = match commands::parse_bound(helpers::text_ref(&args.before), now) {
        None => {
            return None;
        },
        Some(Err(e)) => {
            return Some(Err(e));
        },
        Some(Ok(t)) => t,
    };
    let detail = parse_detail(args.detail.as_str());
    let filter = MessageFilter {
        errors_only: args.errors_only,
        failed: read.failed,
        message_type: args.message_type.clone(),
        after,
        before,
        detail,
    };
    let entries = select_messages(read.entries, &filter);
    let unmatched: Vec<SubagentMatch> = if text::same(args.detail.as_str(), "full") {
        read.unmatched
    } else {
        Vec::new()
    };
    Some(
        Ok(
            MessagePage {
                session_id: args.session_id.clone(),
                entries,
                reverse: args.reverse,
                offset: args.offset,
                limit: args.limit,
                detail,
                include_thinking: effective_include_thinking(
                    args.include_thinking,
                    args.detail.as_str(),
                ),
                transcripts: args.subagent_transcripts,
                unparsed: read.unparsed,
                unmatched,
            },
        ),
    )
}

/// What is handed out of the messages on a page.
pub open spec fn are_outputs_of(list: Seq<MessageOutput>, p: MessagePage) -> bool {
    &&& list.len() == shown_places(p).len()
    &&& forall|k: int|
        0 <= k < list.len() ==> is_output_of(
            #[trigger] list[k],
            shown_places(p)[k] as usize,
            p.entries@[shown_places(p)[k]],
            p.detail,
            p.include_thinking,
            p.transcripts,
        )
}

/// What is handed out of the messages on a page.
pub fn page_outputs(p: &MessagePage) -> (r: Vec<MessageOutput>)
    ensures
        are_outputs_of(r@, *p),
{
    let total: usize = p.entries.len();
    let places = paginate(total, p.reverse, p.offset, p.limit);
    let ghost all = shown_places(*p);
    let mut out: Vec<MessageOutput> = Vec::new();
    let mut k: usize = 0;
    proof {
        assert(places@.len() == places_view(places@).len());
    }
    while k < places.len()
        invariant
            k <= places@.len(),
            total == p.entries@.len(),
            all == shown_places(*p),
            places_view(places@) == all,
            places@.len() == all.len(),
            out@.len() == k,
            forall|j: int|
                0 <= j < k ==> is_output_of(
                    #[trigger] out@[j],
                    all[j] as usize,
                    p.entries@[all[j]],
                    p.detail,
                    p.include_thinking,
                    p.transcripts,
                ),
        decreases places@.len() - k,
    {
        let place: usize = places[k];
        proof {
            assert(places_view(places@)[k as int] == all[k as int]);
            pages_stay_within(total as int, p.reverse, p.offset as int, p.limit as int, k as int);
        }
        match build_message_output(
            place,
            &p.entries[place],
            p.detail,
            p.include_thinking,
            p.transcripts,
        ) {
            Some(m) => {
                out.push(m);
            },
            None => {},
        }
        k = k + 1;
    }
    out
}

// ---------------------------------------------------------------------------
// What calls hand back
// ---------------------------------------------------------------------------

/// Thoughts are shown where they are asked for, and by the fullest level without asking.
pub proof fn full_messages_have_thoughts(flag: bool, detail: &str, r: bool)
    ensures
        call_ensures(effective_include_thinking, (flag, detail), r) ==> {
            &&& flag ==> r
            &&& detail@ == "full"@ ==> r
            &&& r ==> flag || detail@ == "full"@
        },
{
}

/// A length that was given goes before that of the level, and changes nothing else.
pub proof fn given_lengths_count(detail: Detail, n: usize, r: MessageLengths, usual: MessageLengths)
    ensures
        call_ensures(message_lengths, (detail, Some(n)), r) ==> r.truncate_len == n,
        call_ensures(message_lengths, (detail, Some(n)), r) && call_ensures(
            message_lengths,
            (detail, None::<usize>),
            usual,
        ) ==> r.thinking_max_len == usual.thinking_max_len,
{
}

} // verus!
