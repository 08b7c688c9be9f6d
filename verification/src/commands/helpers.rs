//! What several commands share: the texts of entries, guesses at what a text is, and the choice
//! of projects and sessions.
use vstd::prelude::*;
use vstd::string::*;

use crate::commands::{bound_filter, optional_view, parse_bound, BoundFilter};
use crate::error::{invalid, invalid_argument, ErrorView, SnatchError};
use crate::model::{ContentBlock, LogEntry, Project, Session, UserContent};
use crate::order;
use crate::order::{first_of_list, sorted_by};
use crate::patterns;
use crate::patterns::match_count;
use crate::text;
use crate::text::{
    begins, byte_len, decimal, ends, has, joined, lines_of, lowercase, on_boundary,
    small_letters, trimmed, views, within_bytes, words_of,
};

verus! {

// ---------------------------------------------------------------------------
// The texts of an entry
// ---------------------------------------------------------------------------

/// The texts among the parts of a message.
pub open spec fn block_texts(blocks: Seq<ContentBlock>) -> Seq<Seq<char>>
    decreases blocks.len(),
{
    if blocks.len() == 0 {
        Seq::empty()
    } else {
        let before = block_texts(blocks.drop_last());
        match blocks.last() {
            ContentBlock::Text(t) => before.push(t@),
            _ => before,
        }
    }
}

/// The thoughts among the parts of a message.
pub open spec fn block_thoughts(blocks: Seq<ContentBlock>) -> Seq<Seq<char>>
    decreases blocks.len(),
{
    if blocks.len() == 0 {
        Seq::empty()
    } else {
        let before = block_thoughts(blocks.drop_last());
        match blocks.last() {
            ContentBlock::Thinking(t) => before.push(t@),
            _ => before,
        }
    }
}

/// A text, where it holds more than white space.
pub open spec fn unless_blank(s: Seq<char>) -> Option<Seq<char>> {
    if trimmed(s).len() == 0 {
        None
    } else {
        Some(s)
    }
}

/// The contents of an optional text.
pub open spec fn text_view(s: Option<String>) -> Option<Seq<char>> {
    match s {
        Some(t) => Some(t@),
        None => None,
    }
}

/// The text, where there is one.
pub fn text_ref(s: &Option<String>) -> (r: Option<&str>)
    ensures
        optional_view(r) == text_view(*s),
{
    match s {
        Some(t) => Some(t.as_str()),
        None => None,
    }
}

/// The texts of a message are those of its text parts, and the thoughts those of its thinking parts,
/// in order; nothing else is among either.
pub proof fn parts_give_their_texts(blocks: Seq<ContentBlock>, more: ContentBlock)
    ensures
        block_texts(Seq::empty()).len() == 0 && block_thoughts(Seq::empty()).len() == 0,
        match more {
            ContentBlock::Text(t) => block_texts(blocks.push(more)) == block_texts(blocks).push(t@)
                && block_thoughts(blocks.push(more)) == block_thoughts(blocks),
            ContentBlock::Thinking(t) => block_texts(blocks.push(more)) == block_texts(blocks)
                && block_thoughts(blocks.push(more)) == block_thoughts(blocks).push(t@),
            _ => block_texts(blocks.push(more)) == block_texts(blocks) && block_thoughts(
                blocks.push(more),
            ) == block_thoughts(blocks),
        },
{
    assert(blocks.push(more).drop_last() =~= blocks);
}

/// The visible text of an entry: what the user or the assistant wrote, its parts on lines of
/// their own; none where that is blank.
pub open spec fn entry_text(entry: LogEntry) -> Option<Seq<char>> {
    match entry {
        LogEntry::User(user) => match user.message {
            UserContent::Simple(content) => unless_blank(content@),
            UserContent::Blocks(blocks) => unless_blank(joined(block_texts(blocks@), "\n"@)),
        },
        LogEntry::Assistant(assistant) => unless_blank(
            joined(block_texts(assistant.content@), "\n"@),
        ),
        _ => None,
    }
}

fn collect_texts(blocks: &Vec<ContentBlock>) -> (r: Vec<String>)
    ensures
        views(r@) == block_texts(blocks@),
{
    let mut out: Vec<String> = Vec::new();
    let mut i: usize = 0;
    proof {
        assert(blocks@.take(0) =~= Seq::empty());
        assert(views(out@) =~= Seq::empty());
    }
    while i < blocks.len()
        invariant
            i <= blocks@.len(),
            views(out@) == block_texts(blocks@.take(i as int)),
        decreases blocks@.len() - i,
    {
        proof {
            assert(blocks@.take(i + 1).drop_last() =~= blocks@.take(i as int));
            assert(blocks@.take(i + 1).last() == blocks@[i as int]);
        }
        match &blocks[i] {
            ContentBlock::Text(t) => text::say(&mut out, t.as_str()),
            _ => {},
        }
        i = i + 1;
    }
    proof {
        assert(blocks@.take(i as int) =~= blocks@);
    }
    out
}

fn collect_thoughts(blocks: &Vec<ContentBlock>) -> (r: Vec<String>)
    ensures
        views(r@) == block_thoughts(blocks@),
{
    let mut out: Vec<String> = Vec::new();
    let mut i: usize = 0;
    proof {
        assert(blocks@.take(0) =~= Seq::empty());
        assert(views(out@) =~= Seq::empty());
    }
    while i < blocks.len()
        invariant
            i <= blocks@.len(),
            views(out@) == block_thoughts(blocks@.take(i as int)),
        decreases blocks@.len() - i,
    {
        proof {
            assert(blocks@.take(i + 1).drop_last() =~= blocks@.take(i as int));
            assert(blocks@.take(i + 1).last() == blocks@[i as int]);
        }
        match &blocks[i] {
            ContentBlock::Thinking(t) => text::say(&mut out, t.as_str()),
            _ => {},
        }
        i = i + 1;
    }
    proof {
        assert(blocks@.take(i as int) =~= blocks@);
    }
    out
}

/// A text, where it holds more than white space.
pub fn nonblank(s: String) -> (r: Option<String>)
    ensures
        text_view(r) == unless_blank(s@),
{
    let bare = text::trim(s.as_str());
    if bare.as_str().is_empty() {
        None
    } else {
        Some(s)
    }
}

/// The visible text of an entry of the user or the assistant.
pub fn extract_text(entry: &LogEntry) -> (r: Option<String>)
    ensures
        text_view(r) == entry_text(*entry),
{
    match entry {
        LogEntry::User(user) => match &user.message {
            UserContent::Simple(content) => nonblank(content.clone()),
            UserContent::Blocks(blocks) => {
                let texts = collect_texts(blocks);
                nonblank(text::join(&texts, "\n"))
            },
        },
        LogEntry::Assistant(assistant) => {
            let texts = collect_texts(&assistant.content);
            nonblank(text::join(&texts, "\n"))
        },
        _ => None,
    }
}

/// The thoughts of an entry of the assistant, each on lines of its own; none where that is
/// blank.
pub open spec fn entry_thinking(entry: LogEntry) -> Option<Seq<char>> {
    match entry {
        LogEntry::Assistant(assistant) => unless_blank(
            joined(block_thoughts(assistant.content@), "\n"@),
        ),
        _ => None,
    }
}

/// The thoughts of an entry of the assistant.
pub fn extract_thinking_text(entry: &LogEntry) -> (r: Option<String>)
    ensures
        text_view(r) == entry_thinking(*entry),
{
    match entry {
        LogEntry::Assistant(assistant) => {
            let texts = collect_thoughts(&assistant.content);
            nonblank(text::join(&texts, "\n"))
        },
        _ => None,
    }
}

/// An entry of the assistant calls a tool.
pub open spec fn calls_tool(entry: LogEntry) -> bool {
    match entry {
        LogEntry::Assistant(assistant) => exists|i: int|
            0 <= i < assistant.content@.len() && (#[trigger] assistant.content@[i]) is ToolUse,
        _ => false,
    }
}

/// Whether an entry of the assistant calls a tool.
pub fn has_tool_calls(entry: &LogEntry) -> (r: bool)
    ensures
        r == calls_tool(*entry),
{
    match entry {
        LogEntry::Assistant(assistant) => {
            let mut i: usize = 0;
            while i < assistant.content.len()
                invariant
                    *entry == LogEntry::Assistant(*assistant),
                    i <= assistant.content@.len(),
                    forall|k: int| 0 <= k < i ==> !((#[trigger] assistant.content@[k]) is ToolUse),
                decreases assistant.content@.len() - i,
            {
                match &assistant.content[i] {
                    ContentBlock::ToolUse(_) => {
                        proof {
                            assert(assistant.content@[i as int] is ToolUse);
                        }
                        return true;
                    },
                    _ => {},
                }
                i = i + 1;
            }
            false
        },
        _ => false,
    }
}

// ---------------------------------------------------------------------------
// Cutting texts
// ---------------------------------------------------------------------------

/// A text cut to a number of characters, with dots behind it. A text that has no more characters
/// than that is left as it is.
pub open spec fn cut_text(s: Seq<char>, max_chars: int) -> Seq<char> {
    if s.len() <= max_chars {
        s
    } else {
        s.take(max_chars) + "..."@
    }
}

/// Cuts a text to a number of characters, with dots behind it where something was cut off.
pub fn truncate(s: &str, max_chars: usize) -> (r: String)
    ensures
        r@ == cut_text(s@, max_chars as int),
{
    if s.unicode_len() <= max_chars {
        s.to_owned()
    } else {
        let front = text::take_chars(s, max_chars);
        text::cat2(front.as_str(), "...")
    }
}

/// A text that is cut has no more than the characters asked for and the three dots, and what
/// stands before the dots is how the text begins. A text is left as it is exactly where it has no
/// more characters than asked for.
pub proof fn cut_text_is_short(s: Seq<char>, max_chars: int)
    requires
        0 <= max_chars,
    ensures
        cut_text(s, max_chars).len() <= max_chars + 3,
        s.len() > max_chars ==> cut_text(s, max_chars) == s.take(max_chars) + "..."@,
        cut_text(s, max_chars) == s <==> s.len() <= max_chars || s == s.take(max_chars) + "..."@,
{
    reveal_strlit("...");
}

/// The first eight bytes of an id are whole characters, or the id is no longer than that.
pub open spec fn has_short_id(id: Seq<char>) -> bool {
    byte_len(id) <= 8 || on_boundary(id, 8)
}

/// The first eight bytes of an id.
pub open spec fn id_head(id: Seq<char>) -> Seq<char> {
    if byte_len(id) > 8 {
        within_bytes(id, 8)
    } else {
        id
    }
}

/// The first eight bytes of an id.
pub fn short_id(id: &str) -> (r: String)
    requires
        has_short_id(id@),
    ensures
        r@ == id_head(id@),
{
    if text::bytes(id) > 8 {
        let (front, _) = text::cut_bytes(id, 8);
        front
    } else {
        id.to_owned()
    }
}

/// Whether the first eight bytes of an id are whole characters.
pub fn can_shorten_id(id: &str) -> (r: bool)
    ensures
        r == has_short_id(id@),
{
    if text::bytes(id) <= 8 {
        true
    } else {
        let (_, used) = text::cut_bytes(id, 8);
        used == 8
    }
}

/// Every id of ASCII characters can be shortened, to its first eight characters.
pub proof fn ascii_ids_have_short_forms(id: Seq<char>)
    requires
        forall|i: int| 0 <= i < id.len() ==> (#[trigger] id[i] as int) < 0x80,
    ensures
        has_short_id(id),
        id_head(id) == text::first_chars(id, 8),
{
    lemma_ascii_bytes(id);
    if id.len() > 8 {
        lemma_ascii_bytes(id.take(8));
        lemma_ascii_bytes(id.take(9));
        text::lemma_chars_within(id, 8, 8);
    }
}

proof fn lemma_ascii_bytes(id: Seq<char>)
    requires
        forall|i: int| 0 <= i < id.len() ==> (#[trigger] id[i] as int) < 0x80,
    ensures
        byte_len(id) == id.len(),
    decreases id.len(),
{
    if id.len() > 0 {
        lemma_ascii_bytes(id.drop_last());
        assert((id[id.len() - 1] as int) < 0x80);
    }
}

// ---------------------------------------------------------------------------
// What a text seems to be
// ---------------------------------------------------------------------------

/// A line looks like code, a quotation or an address.
pub open spec fn looks_like_code(line: Seq<char>) -> bool {
    ||| begins(line, "```"@)
    ||| begins(line, "//"@)
    ||| begins(line, "#"@)
    ||| begins(line, "http"@)
    ||| has(line, "://"@)
    ||| begins(line, "$"@)
    ||| begins(line, ">"@)
}

/// A line of prose ends with a question mark.
pub open spec fn asks(line: Seq<char>) -> bool {
    !looks_like_code(trimmed(line)) && ends(trimmed(line), "?"@)
}

/// A line that begins or ends a block of code.
pub open spec fn is_fence() -> spec_fn(Seq<char>) -> bool {
    |line: Seq<char>| begins(trimmed(line), "```"@)
}

/// The line at a place stands in a block of code: an odd number of fences stands before it.
pub open spec fn is_fenced(lines: Seq<Seq<char>>, i: int) -> bool {
    lines.take(i).filter(is_fence()).len() % 2 == 1
}

/// The text begins with a word that begins a question.
pub open spec fn begins_question(lower: Seq<char>) -> bool {
    ||| begins(lower, "what "@)
    ||| begins(lower, "how "@)
    ||| begins(lower, "should "@)
    ||| begins(lower, "can "@)
    ||| begins(lower, "could "@)
    ||| begins(lower, "would "@)
    ||| begins(lower, "will "@)
    ||| begins(lower, "is "@)
    ||| begins(lower, "are "@)
    ||| begins(lower, "do "@)
    ||| begins(lower, "does "@)
    ||| begins(lower, "which "@)
    ||| begins(lower, "where "@)
    ||| begins(lower, "when "@)
    ||| begins(lower, "why "@)
    ||| begins(lower, "shall "@)
    ||| begins(lower, "have you "@)
    ||| begins(lower, "did "@)
}

/// A text without surrounding white space reads like a question; `lower` is the text in lower
/// case.
pub open spec fn reads_as_question(bare: Seq<char>, lower: Seq<char>) -> bool {
    ||| exists|i: int|
        0 <= i < lines_of(bare).len() && asks(#[trigger] lines_of(bare)[i]) && !is_fenced(
            lines_of(bare),
            i,
        )
    ||| begins_question(lower)
}

/// A text that begins with one of these words and a space is a question, however it goes on.
pub proof fn question_words_ask(bare: Seq<char>, rest: Seq<char>)
    ensures
        reads_as_question(bare, "what "@ + rest),
        reads_as_question(bare, "how "@ + rest),
        reads_as_question(bare, "should "@ + rest),
        reads_as_question(bare, "can "@ + rest),
        reads_as_question(bare, "could "@ + rest),
        reads_as_question(bare, "would "@ + rest),
        reads_as_question(bare, "will "@ + rest),
        reads_as_question(bare, "is "@ + rest),
        reads_as_question(bare, "are "@ + rest),
        reads_as_question(bare, "do "@ + rest),
        reads_as_question(bare, "does "@ + rest),
        reads_as_question(bare, "which "@ + rest),
        reads_as_question(bare, "where "@ + rest),
        reads_as_question(bare, "when "@ + rest),
        reads_as_question(bare, "why "@ + rest),
        reads_as_question(bare, "shall "@ + rest),
        reads_as_question(bare, "have you "@ + rest),
        reads_as_question(bare, "did "@ + rest),
{
    text::parts_make_the_whole("what "@ + rest, "what "@, Seq::empty(), rest);
    text::parts_make_the_whole("how "@ + rest, "how "@, Seq::empty(), rest);
    text::parts_make_the_whole("should "@ + rest, "should "@, Seq::empty(), rest);
    text::parts_make_the_whole("can "@ + rest, "can "@, Seq::empty(), rest);
    text::parts_make_the_whole("could "@ + rest, "could "@, Seq::empty(), rest);
    text::parts_make_the_whole("would "@ + rest, "would "@, Seq::empty(), rest);
    text::parts_make_the_whole("will "@ + rest, "will "@, Seq::empty(), rest);
    text::parts_make_the_whole("is "@ + rest, "is "@, Seq::empty(), rest);
    text::parts_make_the_whole("are "@ + rest, "are "@, Seq::empty(), rest);
    text::parts_make_the_whole("do "@ + rest, "do "@, Seq::empty(), rest);
    text::parts_make_the_whole("does "@ + rest, "does "@, Seq::empty(), rest);
    text::parts_make_the_whole("which "@ + rest, "which "@, Seq::empty(), rest);
    text::parts_make_the_whole("where "@ + rest, "where "@, Seq::empty(), rest);
    text::parts_make_the_whole("when "@ + rest, "when "@, Seq::empty(), rest);
    text::parts_make_the_whole("why "@ + rest, "why "@, Seq::empty(), rest);
    text::parts_make_the_whole("shall "@ + rest, "shall "@, Seq::empty(), rest);
    text::parts_make_the_whole("have you "@ + rest, "have you "@, Seq::empty(), rest);
    text::parts_make_the_whole("did "@ + rest, "did "@, Seq::empty(), rest);
}

/// A line that begins like code, a quotation or an address, or that holds an address, asks nothing,
/// though it end with a question mark.
pub proof fn code_asks_nothing(line: Seq<char>, before: Seq<char>, rest: Seq<char>)
    ensures
        trimmed(line) == "```"@ + rest ==> !asks(line),
        trimmed(line) == "//"@ + rest ==> !asks(line),
        trimmed(line) == "#"@ + rest ==> !asks(line),
        trimmed(line) == "http"@ + rest ==> !asks(line),
        trimmed(line) == before + "://"@ + rest ==> !asks(line),
        trimmed(line) == "$"@ + rest ==> !asks(line),
        trimmed(line) == ">"@ + rest ==> !asks(line),
        asks(line) ==> ends(trimmed(line), "?"@),
{
    let t = trimmed(line);
    text::parts_make_the_whole(t, "```"@, before, rest);
    text::parts_make_the_whole(t, "//"@, before, rest);
    text::parts_make_the_whole(t, "#"@, before, rest);
    text::parts_make_the_whole(t, "http"@, before, rest);
    text::parts_make_the_whole(t, "://"@, before, rest);
    text::parts_make_the_whole(t, "$"@, before, rest);
    text::parts_make_the_whole(t, ">"@, before, rest);
}

/// A text in which no block of code begins asks where one of its lines is prose that ends with a
/// question mark; a line that stands between the first fence and the second asks nothing.
pub proof fn prose_asks(bare: Seq<char>, lower: Seq<char>, i: int)
    requires
        0 <= i < lines_of(bare).len(),
        forall|k: int|
            0 <= k < i ==> !begins(trimmed(#[trigger] lines_of(bare)[k]), "```"@),
    ensures
        asks(lines_of(bare)[i]) ==> reads_as_question(bare, lower),
        i + 1 < lines_of(bare).len() && begins(trimmed(lines_of(bare)[i]), "```"@) ==> is_fenced(
            lines_of(bare),
            i + 1,
        ),
        !is_fenced(lines_of(bare), i),
{
    let lines = lines_of(bare);
    let front = lines.take(i);
    let kept = front.filter(is_fence());
    order::filtering_is_exact(front, is_fence());
    if kept.len() > 0 {
        assert(kept.contains(kept[0]));
        let k = choose|k: int| 0 <= k < front.len() && front[k] == kept[0];
        assert(lines[k] == kept[0]);
    }
    if i + 1 < lines.len() && begins(trimmed(lines[i]), "```"@) {
        broadcast use Seq::lemma_filter_push;

        assert(lines.take(i + 1) =~= front.push(lines[i]));
    }
}

fn line_asks(line: &str) -> (r: bool)
    ensures
        r == asks(line@),
{
    let bare = text::trim(line);
    let s = bare.as_str();
    let code: bool = text::starts_with(s, "```") || text::starts_with(s, "//") || text::starts_with(
        s,
        "#",
    ) || text::starts_with(s, "http") || text::contains(s, "://") || text::starts_with(s, "$")
        || text::starts_with(s, ">");
    !code && text::ends_with(s, "?")
}

fn line_fences(line: &str) -> (r: bool)
    ensures
        r == is_fence()(line@),
{
    let bare = text::trim(line);
    text::starts_with(bare.as_str(), "```")
}

fn begins_with_question_word(lower: &str) -> (r: bool)
    ensures
        r == begins_question(lower@),
{
    text::starts_with(lower, "what ") || text::starts_with(lower, "how ") || text::starts_with(
        lower,
        "should ",
    ) || text::starts_with(lower, "can ") || text::starts_with(lower, "could ")
        || text::starts_with(lower, "would ") || text::starts_with(lower, "will ")
        || text::starts_with(lower, "is ") || text::starts_with(lower, "are ") || text::starts_with(
        lower,
        "do ",
    ) || text::starts_with(lower, "does ") || text::starts_with(lower, "which ")
        || text::starts_with(lower, "where ") || text::starts_with(lower, "when ")
        || text::starts_with(lower, "why ") || text::starts_with(lower, "shall ")
        || text::starts_with(lower, "have you ") || text::starts_with(lower, "did ")
}

/// Whether a text without surrounding white space reads like a question. `lower` is the text
/// in lower case.
pub fn interrogative_in(bare: &str, lower: &str) -> (r: bool)
    ensures
        r == reads_as_question(bare@, lower@),
{
    let rows = text::lines(bare);
    let ghost all = lines_of(bare@);
    let mut fenced: bool = false;
    let mut i: usize = 0;
    proof {
        assert(all.take(0) =~= Seq::empty());
    }
    while i < rows.len()
        invariant
            all == lines_of(bare@),
            views(rows@) == all,
            i <= rows@.len(),
            fenced == is_fenced(all, i as int),
            forall|k: int| 0 <= k < i ==> !(asks(#[trigger] all[k]) && !is_fenced(all, k)),
        decreases rows@.len() - i,
    {
        proof {
            broadcast use Seq::lemma_filter_push;

            assert(all[i as int] == rows@[i as int]@);
            assert(all.take(i + 1) =~= all.take(i as int).push(all[i as int]));
        }
        if !fenced && line_asks(rows[i].as_str()) {
            return true;
        }
        if line_fences(rows[i].as_str()) {
            fenced = !fenced;
        }
        i = i + 1;
    }
    begins_with_question_word(lower)
}

/// Whether a text reads like a question: a line of prose, outside of blocks of code, ends with a
/// question mark, or the text begins with a question word.
pub fn is_interrogative(s: &str) -> (r: bool)
    ensures
        r == reads_as_question(trimmed(s@), lowercase(trimmed(s@))),
{
    let bare = text::trim(s);
    let lower = text::to_lowercase(bare.as_str());
    interrogative_in(bare.as_str(), lower.as_str())
}

/// The text weighs one thing against another.
pub open spec fn deliberates(lower: Seq<char>) -> bool {
    ||| has(lower, "alternatively"@)
    ||| has(lower, "or we could"@)
    ||| has(lower, "another approach"@)
    ||| has(lower, "another option"@)
    ||| has(lower, "we could also"@)
    ||| has(lower, "you could also"@)
    ||| has(lower, "versus"@)
    ||| has(lower, " vs "@)
    ||| has(lower, " vs."@)
    ||| has(lower, "trade-off"@)
    ||| has(lower, "tradeoff"@)
    ||| has(lower, "on the other hand"@)
    ||| has(lower, "the downside"@)
    ||| has(lower, "the upside"@)
    ||| has(lower, "compared to"@)
    ||| has(lower, "either way"@)
    ||| has(lower, "pros:"@)
    ||| has(lower, "cons:"@)
    ||| has(lower, "however,"@)
    ||| has(lower, "recommend"@)
    ||| has(lower, "i'd suggest"@)
    ||| has(lower, "i would suggest"@)
    ||| has(lower, "the best approach"@)
    ||| has(lower, "prefer"@)
}

/// The text names options side by side.
pub open spec fn names_options(lower: Seq<char>) -> bool {
    ||| has(lower, "option a"@) && has(lower, "option b"@)
    ||| has(lower, "approach 1"@) && has(lower, "approach 2"@)
    ||| has(lower, "option 1"@) && has(lower, "option 2"@)
    ||| has(lower, "pros:"@) && has(lower, "cons:"@)
    ||| has(lower, "advantages"@) && has(lower, "disadvantages"@)
}

/// The text lays out options: it names them, or it has a list of numbered or marked items that
/// is long enough, two items less counting where the text also weighs one against another.
pub open spec fn lays_out_options(lower: Seq<char>, numbered: int, bullets: int) -> bool {
    ||| names_options(lower)
    ||| numbered >= 3
    ||| numbered >= 2 && deliberates(lower)
    ||| bullets >= 4
    ||| bullets >= 3 && deliberates(lower)
}

/// Named options are options however the text goes on. Else the number of items decides: three
/// numbered or four marked ones, and one less of either where the text weighs one thing against
/// another.
pub proof fn items_make_options(lower: Seq<char>, numbered: int, bullets: int)
    ensures
        !names_options(lower) && !deliberates(lower) ==> (lays_out_options(lower, numbered, bullets)
            <==> numbered > 2 || bullets > 3),
        !names_options(lower) && deliberates(lower) ==> (lays_out_options(lower, numbered, bullets)
            <==> numbered > 1 || bullets > 2),
        has(lower, "option a"@) && has(lower, "option b"@) ==> lays_out_options(
            lower,
            numbered,
            bullets,
        ),
        has(lower, "approach 1"@) && has(lower, "approach 2"@) ==> lays_out_options(
            lower,
            numbered,
            bullets,
        ),
        has(lower, "option 1"@) && has(lower, "option 2"@) ==> lays_out_options(
            lower,
            numbered,
            bullets,
        ),
        has(lower, "pros:"@) && has(lower, "cons:"@) ==> lays_out_options(lower, numbered, bullets),
        has(lower, "advantages"@) && has(lower, "disadvantages"@) ==> lays_out_options(
            lower,
            numbered,
            bullets,
        ),
{
}

/// A text that holds one of these phrases anywhere weighs one thing against another: two numbered items
/// then make options, and so do three marked ones.
pub proof fn weighing_words_weigh(before: Seq<char>, rest: Seq<char>)
    ensures
        lays_out_options(before + "alternatively"@ + rest, 2, 0),
        lays_out_options(before + "or we could"@ + rest, 2, 0),
        lays_out_options(before + "another approach"@ + rest, 2, 0),
        lays_out_options(before + "another option"@ + rest, 2, 0),
        lays_out_options(before + "we could also"@ + rest, 2, 0),
        lays_out_options(before + "you could also"@ + rest, 2, 0),
        lays_out_options(before + "versus"@ + rest, 2, 0),
        lays_out_options(before + " vs "@ + rest, 2, 0),
        lays_out_options(before + " vs."@ + rest, 2, 0),
        lays_out_options(before + "trade-off"@ + rest, 2, 0),
        lays_out_options(before + "tradeoff"@ + rest, 2, 0),
        lays_out_options(before + "on the other hand"@ + rest, 2, 0),
        lays_out_options(before + "the downside"@ + rest, 2, 0),
        lays_out_options(before + "the upside"@ + rest, 2, 0),
        lays_out_options(before + "compared to"@ + rest, 2, 0),
        lays_out_options(before + "either way"@ + rest, 2, 0),
        lays_out_options(before + "pros:"@ + rest, 2, 0),
        lays_out_options(before + "cons:"@ + rest, 2, 0),
        lays_out_options(before + "however,"@ + rest, 2, 0),
        lays_out_options(before + "recommend"@ + rest, 2, 0),
        lays_out_options(before + "i'd suggest"@ + rest, 2, 0),
        lays_out_options(before + "i would suggest"@ + rest, 2, 0),
        lays_out_options(before + "the best approach"@ + rest, 2, 0),
        lays_out_options(before + "prefer"@ + rest, 2, 0),
{
    text::parts_make_the_whole(before + "alternatively"@ + rest, "alternatively"@, before, rest);
    text::parts_make_the_whole(before + "or we could"@ + rest, "or we could"@, before, rest);
    text::parts_make_the_whole(before + "another approach"@ + rest, "another approach"@, before, rest);
    text::parts_make_the_whole(before + "another option"@ + rest, "another option"@, before, rest);
    text::parts_make_the_whole(before + "we could also"@ + rest, "we could also"@, before, rest);
    text::parts_make_the_whole(before + "you could also"@ + rest, "you could also"@, before, rest);
    text::parts_make_the_whole(before + "versus"@ + rest, "versus"@, before, rest);
    text::parts_make_the_whole(before + " vs "@ + rest, " vs "@, before, rest);
    text::parts_make_the_whole(before + " vs."@ + rest, " vs."@, before, rest);
    text::parts_make_the_whole(before + "trade-off"@ + rest, "trade-off"@, before, rest);
    text::parts_make_the_whole(before + "tradeoff"@ + rest, "tradeoff"@, before, rest);
    text::parts_make_the_whole(before + "on the other hand"@ + rest, "on the other hand"@, before, rest);
    text::parts_make_the_whole(before + "the downside"@ + rest, "the downside"@, before, rest);
    text::parts_make_the_whole(before + "the upside"@ + rest, "the upside"@, before, rest);
    text::parts_make_the_whole(before + "compared to"@ + rest, "compared to"@, before, rest);
    text::parts_make_the_whole(before + "either way"@ + rest, "either way"@, before, rest);
    text::parts_make_the_whole(before + "pros:"@ + rest, "pros:"@, before, rest);
    text::parts_make_the_whole(before + "cons:"@ + rest, "cons:"@, before, rest);
    text::parts_make_the_whole(before + "however,"@ + rest, "however,"@, before, rest);
    text::parts_make_the_whole(before + "recommend"@ + rest, "recommend"@, before, rest);
    text::parts_make_the_whole(before + "i'd suggest"@ + rest, "i'd suggest"@, before, rest);
    text::parts_make_the_whole(before + "i would suggest"@ + rest, "i would suggest"@, before, rest);
    text::parts_make_the_whole(before + "the best approach"@ + rest, "the best approach"@, before, rest);
    text::parts_make_the_whole(before + "prefer"@ + rest, "prefer"@, before, rest);
}

fn text_deliberates(lower: &str) -> (r: bool)
    ensures
        r == deliberates(lower@),
{
    text::contains(lower, "alternatively") || text::contains(lower, "or we could")
        || text::contains(lower, "another approach") || text::contains(lower, "another option")
        || text::contains(lower, "we could also") || text::contains(lower, "you could also")
        || text::contains(lower, "versus") || text::contains(lower, " vs ") || text::contains(
        lower,
        " vs.",
    ) || text::contains(lower, "trade-off") || text::contains(lower, "tradeoff") || text::contains(
        lower,
        "on the other hand",
    ) || text::contains(lower, "the downside") || text::contains(lower, "the upside")
        || text::contains(lower, "compared to") || text::contains(lower, "either way")
        || text::contains(lower, "pros:") || text::contains(lower, "cons:") || text::contains(
        lower,
        "however,",
    ) || text::contains(lower, "recommend") || text::contains(lower, "i'd suggest")
        || text::contains(lower, "i would suggest") || text::contains(lower, "the best approach")
        || text::contains(lower, "prefer")
}

fn text_names_options(lower: &str) -> (r: bool)
    ensures
        r == names_options(lower@),
{
    (text::contains(lower, "option a") && text::contains(lower, "option b")) || (text::contains(
        lower,
        "approach 1",
    ) && text::contains(lower, "approach 2")) || (text::contains(lower, "option 1")
        && text::contains(lower, "option 2")) || (text::contains(lower, "pros:") && text::contains(
        lower,
        "cons:",
    )) || (text::contains(lower, "advantages") && text::contains(lower, "disadvantages"))
}

/// Whether a text lays out options. `lower` is the text in lower case, `numbered` and
/// `bullets` count its list items.
pub fn options_in(lower: &str, numbered: usize, bullets: usize) -> (r: bool)
    ensures
        r == lays_out_options(lower@, numbered as int, bullets as int),
{
    if text_names_options(lower) {
        return true;
    }
    let weighs: bool = text_deliberates(lower);
    numbered >= 3 || (numbered >= 2 && weighs) || bullets >= 4 || (bullets >= 3 && weighs)
}

/// The expression for the head of a numbered list item.
pub open spec fn numbered_item() -> Seq<char> {
    "(?m)^\\s*\\d+[\\.\\)]\\s+"@
}

/// The expression for the head of a marked list item.
pub open spec fn marked_item() -> Seq<char> {
    "(?m)^\\s*[-*]\\s+"@
}

/// How often an expression matches; an expression that does not compile matches nothing.
pub open spec fn occurrences(pattern: Seq<char>, s: Seq<char>) -> int {
    match match_count(pattern, s) {
        Some(n) => n as int,
        None => 0,
    }
}

/// An assistant's text lays out options.
pub open spec fn has_options(s: Seq<char>) -> bool {
    lays_out_options(lowercase(s), occurrences(numbered_item(), s), occurrences(marked_item(), s))
}

fn count_items(pattern: &str, s: &str) -> (r: usize)
    ensures
        r == occurrences(pattern@, s@),
{
    match patterns::count_matches(pattern, s) {
        Some(n) => n,
        None => 0,
    }
}

/// Whether a text lays out options.
pub fn has_options_pattern(s: &str) -> (r: bool)
    ensures
        r == has_options(s@),
{
    let lower = text::to_lowercase(s);
    let numbered: usize = count_items("(?m)^\\s*\\d+[\\.\\)]\\s+", s);
    let bullets: usize = count_items("(?m)^\\s*[-*]\\s+", s);
    options_in(lower.as_str(), numbered, bullets)
}

/// The text begins with a word of consent.
pub open spec fn consents(lower: Seq<char>) -> bool {
    ||| begins(lower, "yes"@)
    ||| begins(lower, "yeah"@)
    ||| begins(lower, "yep"@)
    ||| begins(lower, "yup"@)
    ||| begins(lower, "sure"@)
    ||| begins(lower, "ok"@)
    ||| begins(lower, "okay"@)
    ||| begins(lower, "sounds good"@)
    ||| begins(lower, "go for it"@)
    ||| begins(lower, "do it"@)
    ||| begins(lower, "let's do it"@)
    ||| begins(lower, "let's go"@)
    ||| begins(lower, "perfect"@)
    ||| begins(lower, "exactly"@)
    ||| begins(lower, "agreed"@)
    ||| begins(lower, "correct"@)
    ||| begins(lower, "right"@)
    ||| begins(lower, "absolutely"@)
    ||| begins(lower, "that works"@)
    ||| begins(lower, "makes sense"@)
    ||| begins(lower, "go ahead"@)
    ||| begins(lower, "proceed"@)
    ||| begins(lower, "i agree"@)
    ||| begins(lower, "i like"@)
    ||| begins(lower, "i think so"@)
    ||| begins(lower, "definitely"@)
}

/// The text begins with a choice.
pub open spec fn chooses(lower: Seq<char>) -> bool {
    ||| begins(lower, "option "@)
    ||| begins(lower, "approach "@)
    ||| begins(lower, "let's go with"@)
    ||| begins(lower, "go with "@)
    ||| begins(lower, "i prefer"@)
    ||| begins(lower, "i'd prefer"@)
    ||| begins(lower, "i'll go with"@)
    ||| begins(lower, "let's use"@)
    ||| begins(lower, "i choose"@)
    ||| begins(lower, "i pick"@)
}

/// The text has a word of approval.
pub open spec fn approves(lower: Seq<char>) -> bool {
    ||| has(lower, "agree"@)
    ||| has(lower, "go with"@)
    ||| has(lower, "let's"@)
    ||| has(lower, "sounds"@)
    ||| has(lower, "perfect"@)
    ||| has(lower, "great"@)
}

/// A text without surrounding white space affirms: it begins with consent or a choice, or it
/// is short, asks nothing and approves. `lower` is the text in lower case.
pub open spec fn affirms(bare: Seq<char>, lower: Seq<char>) -> bool {
    ||| consents(lower)
    ||| chooses(lower)
    ||| words_of(bare).len() <= 30 && !bare.contains('?') && approves(lower)
}

/// A text that begins with one of these words affirms, however it goes on.
pub proof fn words_of_consent_affirm(bare: Seq<char>, rest: Seq<char>)
    ensures
        affirms(bare, "yes"@ + rest),
        affirms(bare, "yeah"@ + rest),
        affirms(bare, "yep"@ + rest),
        affirms(bare, "yup"@ + rest),
        affirms(bare, "sure"@ + rest),
        affirms(bare, "ok"@ + rest),
        affirms(bare, "okay"@ + rest),
        affirms(bare, "sounds good"@ + rest),
        affirms(bare, "go for it"@ + rest),
        affirms(bare, "do it"@ + rest),
        affirms(bare, "let's do it"@ + rest),
        affirms(bare, "let's go"@ + rest),
        affirms(bare, "perfect"@ + rest),
        affirms(bare, "exactly"@ + rest),
        affirms(bare, "agreed"@ + rest),
        affirms(bare, "correct"@ + rest),
        affirms(bare, "right"@ + rest),
        affirms(bare, "absolutely"@ + rest),
        affirms(bare, "that works"@ + rest),
        affirms(bare, "makes sense"@ + rest),
        affirms(bare, "go ahead"@ + rest),
        affirms(bare, "proceed"@ + rest),
        affirms(bare, "i agree"@ + rest),
        affirms(bare, "i like"@ + rest),
        affirms(bare, "i think so"@ + rest),
        affirms(bare, "definitely"@ + rest),
{
    text::parts_make_the_whole("yes"@ + rest, "yes"@, Seq::empty(), rest);
    text::parts_make_the_whole("yeah"@ + rest, "yeah"@, Seq::empty(), rest);
    text::parts_make_the_whole("yep"@ + rest, "yep"@, Seq::empty(), rest);
    text::parts_make_the_whole("yup"@ + rest, "yup"@, Seq::empty(), rest);
    text::parts_make_the_whole("sure"@ + rest, "sure"@, Seq::empty(), rest);
    text::parts_make_the_whole("ok"@ + rest, "ok"@, Seq::empty(), rest);
    text::parts_make_the_whole("okay"@ + rest, "okay"@, Seq::empty(), rest);
    text::parts_make_the_whole("sounds good"@ + rest, "sounds good"@, Seq::empty(), rest);
    text::parts_make_the_whole("go for it"@ + rest, "go for it"@, Seq::empty(), rest);
    text::parts_make_the_whole("do it"@ + rest, "do it"@, Seq::empty(), rest);
    text::parts_make_the_whole("let's do it"@ + rest, "let's do it"@, Seq::empty(), rest);
    text::parts_make_the_whole("let's go"@ + rest, "let's go"@, Seq::empty(), rest);
    text::parts_make_the_whole("perfect"@ + rest, "perfect"@, Seq::empty(), rest);
    text::parts_make_the_whole("exactly"@ + rest, "exactly"@, Seq::empty(), rest);
    text::parts_make_the_whole("agreed"@ + rest, "agreed"@, Seq::empty(), rest);
    text::parts_make_the_whole("correct"@ + rest, "correct"@, Seq::empty(), rest);
    text::parts_make_the_whole("right"@ + rest, "right"@, Seq::empty(), rest);
    text::parts_make_the_whole("absolutely"@ + rest, "absolutely"@, Seq::empty(), rest);
    text::parts_make_the_whole("that works"@ + rest, "that works"@, Seq::empty(), rest);
    text::parts_make_the_whole("makes sense"@ + rest, "makes sense"@, Seq::empty(), rest);
    text::parts_make_the_whole("go ahead"@ + rest, "go ahead"@, Seq::empty(), rest);
    text::parts_make_the_whole("proceed"@ + rest, "proceed"@, Seq::empty(), rest);
    text::parts_make_the_whole("i agree"@ + rest, "i agree"@, Seq::empty(), rest);
    text::parts_make_the_whole("i like"@ + rest, "i like"@, Seq::empty(), rest);
    text::parts_make_the_whole("i think so"@ + rest, "i think so"@, Seq::empty(), rest);
    text::parts_make_the_whole("definitely"@ + rest, "definitely"@, Seq::empty(), rest);
}

/// A text that begins with one of these choices affirms, however it goes on.
pub proof fn words_of_choice_affirm(bare: Seq<char>, rest: Seq<char>)
    ensures
        affirms(bare, "option "@ + rest),
        affirms(bare, "approach "@ + rest),
        affirms(bare, "let's go with"@ + rest),
        affirms(bare, "go with "@ + rest),
        affirms(bare, "i prefer"@ + rest),
        affirms(bare, "i'd prefer"@ + rest),
        affirms(bare, "i'll go with"@ + rest),
        affirms(bare, "let's use"@ + rest),
        affirms(bare, "i choose"@ + rest),
        affirms(bare, "i pick"@ + rest),
{
    text::parts_make_the_whole("option "@ + rest, "option "@, Seq::empty(), rest);
    text::parts_make_the_whole("approach "@ + rest, "approach "@, Seq::empty(), rest);
    text::parts_make_the_whole("let's go with"@ + rest, "let's go with"@, Seq::empty(), rest);
    text::parts_make_the_whole("go with "@ + rest, "go with "@, Seq::empty(), rest);
    text::parts_make_the_whole("i prefer"@ + rest, "i prefer"@, Seq::empty(), rest);
    text::parts_make_the_whole("i'd prefer"@ + rest, "i'd prefer"@, Seq::empty(), rest);
    text::parts_make_the_whole("i'll go with"@ + rest, "i'll go with"@, Seq::empty(), rest);
    text::parts_make_the_whole("let's use"@ + rest, "let's use"@, Seq::empty(), rest);
    text::parts_make_the_whole("i choose"@ + rest, "i choose"@, Seq::empty(), rest);
    text::parts_make_the_whole("i pick"@ + rest, "i pick"@, Seq::empty(), rest);
}

/// A text of at most thirty words that asks nothing affirms where it holds one of these words; a
/// longer text, or one that asks, does not affirm by such a word.
pub proof fn words_of_approval_affirm(bare: Seq<char>, before: Seq<char>, rest: Seq<char>)
    ensures
        forall|lower: Seq<char>| #[trigger]
            affirms(bare, lower) && !consents(lower) && !chooses(lower) ==> words_of(bare).len()
                <= 30 && !bare.contains('?'),
        words_of(bare).len() <= 30 && !bare.contains('?') ==> affirms(bare, before + "agree"@ + rest),
        words_of(bare).len() <= 30 && !bare.contains('?') ==> affirms(bare, before + "go with"@ + rest),
        words_of(bare).len() <= 30 && !bare.contains('?') ==> affirms(bare, before + "let's"@ + rest),
        words_of(bare).len() <= 30 && !bare.contains('?') ==> affirms(bare, before + "sounds"@ + rest),
        words_of(bare).len() <= 30 && !bare.contains('?') ==> affirms(bare, before + "perfect"@ + rest),
        words_of(bare).len() <= 30 && !bare.contains('?') ==> affirms(bare, before + "great"@ + rest),
{
    text::parts_make_the_whole(before + "agree"@ + rest, "agree"@, before, rest);
    text::parts_make_the_whole(before + "go with"@ + rest, "go with"@, before, rest);
    text::parts_make_the_whole(before + "let's"@ + rest, "let's"@, before, rest);
    text::parts_make_the_whole(before + "sounds"@ + rest, "sounds"@, before, rest);
    text::parts_make_the_whole(before + "perfect"@ + rest, "perfect"@, before, rest);
    text::parts_make_the_whole(before + "great"@ + rest, "great"@, before, rest);
}

fn text_consents(lower: &str) -> (r: bool)
    ensures
        r == consents(lower@),
{
    text::starts_with(lower, "yes") || text::starts_with(lower, "yeah") || text::starts_with(
        lower,
        "yep",
    ) || text::starts_with(lower, "yup") || text::starts_with(lower, "sure") || text::starts_with(
        lower,
        "ok",
    ) || text::starts_with(lower, "okay") || text::starts_with(lower, "sounds good")
        || text::starts_with(lower, "go for it") || text::starts_with(lower, "do it")
        || text::starts_with(lower, "let's do it") || text::starts_with(lower, "let's go")
        || text::starts_with(lower, "perfect") || text::starts_with(lower, "exactly")
        || text::starts_with(lower, "agreed") || text::starts_with(lower, "correct")
        || text::starts_with(lower, "right") || text::starts_with(lower, "absolutely")
        || text::starts_with(lower, "that works") || text::starts_with(lower, "makes sense")
        || text::starts_with(lower, "go ahead") || text::starts_with(lower, "proceed")
        || text::starts_with(lower, "i agree") || text::starts_with(lower, "i like")
        || text::starts_with(lower, "i think so") || text::starts_with(lower, "definitely")
}

fn text_chooses(lower: &str) -> (r: bool)
    ensures
        r == chooses(lower@),
{
    text::starts_with(lower, "option ") || text::starts_with(lower, "approach ")
        || text::starts_with(lower, "let's go with") || text::starts_with(lower, "go with ")
        || text::starts_with(lower, "i prefer") || text::starts_with(lower, "i'd prefer")
        || text::starts_with(lower, "i'll go with") || text::starts_with(lower, "let's use")
        || text::starts_with(lower, "i choose") || text::starts_with(lower, "i pick")
}

/// Whether a text without surrounding white space affirms. `lower` is the text in lower case.
pub fn affirmative_in(bare: &str, lower: &str) -> (r: bool)
    ensures
        r == affirms(bare@, lower@),
{
    if text_consents(lower) || text_chooses(lower) {
        return true;
    }
    let list = text::words(bare);
    proof {
        assert(views(list@).len() == list@.len());
    }
    if list.len() <= 30 && !text::contains_char(bare, '?') {
        text::contains(lower, "agree") || text::contains(lower, "go with") || text::contains(
            lower,
            "let's",
        ) || text::contains(lower, "sounds") || text::contains(lower, "perfect")
            || text::contains(lower, "great")
    } else {
        false
    }
}

/// Whether a user's answer affirms.
pub fn is_affirmative(s: &str) -> (r: bool)
    ensures
        r == affirms(trimmed(s@), lowercase(trimmed(s@))),
{
    let bare = text::trim(s);
    let lower = text::to_lowercase(bare.as_str());
    affirmative_in(bare.as_str(), lower.as_str())
}

/// The text says that something was decided.
pub open spec fn announces_decision(lower: Seq<char>) -> bool {
    ||| has(lower, "we decided"@)
    ||| has(lower, "design decision"@)
    ||| has(lower, "the decision is"@)
    ||| has(lower, "final decision"@)
    ||| has(lower, "agreed to"@)
    ||| has(lower, "agreed that"@)
    ||| has(lower, "agreed on"@)
    ||| has(lower, "after discussion"@)
    ||| has(lower, "after considering"@)
}

/// The text says that someone decided to do something.
pub open spec fn reports_decision(lower: Seq<char>) -> bool {
    ||| has(lower, "we decided to"@)
    ||| has(lower, "they decided to"@)
    ||| has(lower, "team decided to"@)
}

/// A text looks like a decision: it lays out options, or says, whatever the case of its letters,
/// that something was decided or that someone decided to do something.
pub open spec fn is_decision(s: Seq<char>) -> bool {
    ||| has_options(s)
    ||| announces_decision(lowercase(s))
    ||| reports_decision(small_letters(s))
}

/// A text that in small letters holds one of these phrases looks like a decision.
pub proof fn announcements_are_decisions(s: Seq<char>, before: Seq<char>, rest: Seq<char>)
    ensures
        lowercase(s) == before + "we decided"@ + rest ==> is_decision(s),
        lowercase(s) == before + "design decision"@ + rest ==> is_decision(s),
        lowercase(s) == before + "the decision is"@ + rest ==> is_decision(s),
        lowercase(s) == before + "final decision"@ + rest ==> is_decision(s),
        lowercase(s) == before + "agreed to"@ + rest ==> is_decision(s),
        lowercase(s) == before + "agreed that"@ + rest ==> is_decision(s),
        lowercase(s) == before + "agreed on"@ + rest ==> is_decision(s),
        lowercase(s) == before + "after discussion"@ + rest ==> is_decision(s),
        lowercase(s) == before + "after considering"@ + rest ==> is_decision(s),
{
    text::parts_make_the_whole(before + "we decided"@ + rest, "we decided"@, before, rest);
    text::parts_make_the_whole(before + "design decision"@ + rest, "design decision"@, before, rest);
    text::parts_make_the_whole(before + "the decision is"@ + rest, "the decision is"@, before, rest);
    text::parts_make_the_whole(before + "final decision"@ + rest, "final decision"@, before, rest);
    text::parts_make_the_whole(before + "agreed to"@ + rest, "agreed to"@, before, rest);
    text::parts_make_the_whole(before + "agreed that"@ + rest, "agreed that"@, before, rest);
    text::parts_make_the_whole(before + "agreed on"@ + rest, "agreed on"@, before, rest);
    text::parts_make_the_whole(before + "after discussion"@ + rest, "after discussion"@, before, rest);
    text::parts_make_the_whole(before + "after considering"@ + rest, "after considering"@, before, rest);
}

/// Whether a text says that something was decided. `lower` is the text in lower case.
pub fn announces_in(lower: &str) -> (r: bool)
    ensures
        r == announces_decision(lower@),
{
    text::contains(lower, "we decided") || text::contains(lower, "design decision")
        || text::contains(lower, "the decision is") || text::contains(lower, "final decision")
        || text::contains(lower, "agreed to") || text::contains(lower, "agreed that")
        || text::contains(lower, "agreed on") || text::contains(lower, "after discussion")
        || text::contains(lower, "after considering")
}

/// The expression for someone who decided to do something.
spec fn decided_to() -> Seq<char> {
    "(?i)(?:we|they|team) decided to"@
}

/// Those who decide.
spec fn deciders() -> Seq<Seq<char>> {
    seq!["we"@, "they"@, "team"@]
}

proof fn lemma_decided_to(lower: Seq<char>)
    ensures
        patterns::is_choice(decided_to(), deciders(), " decided to"@),
        patterns::holds_choice(lower, deciders(), " decided to"@) <==> reports_decision(lower),
{
    reveal_strlit("(?i)(?:we|they|team) decided to");
    reveal_strlit("(?i)(?:");
    reveal_strlit("|");
    reveal_strlit(")");
    reveal_strlit("we");
    reveal_strlit("they");
    reveal_strlit("team");
    reveal_strlit(" decided to");
    reveal_strlit("we decided to");
    reveal_strlit("they decided to");
    reveal_strlit("team decided to");
    let words = deciders();
    reveal_with_fuel(joined, 4);
    assert(words.drop_last() =~= seq!["we"@, "they"@]);
    assert(words.drop_last().drop_last() =~= seq!["we"@]);
    assert("we"@ + " decided to"@ =~= "we decided to"@);
    assert("they"@ + " decided to"@ =~= "they decided to"@);
    assert("team"@ + " decided to"@ =~= "team decided to"@);
    assert(joined(words, "|"@) =~= "we"@ + "|"@ + "they"@ + "|"@ + "team"@);
    assert("(?i)(?:"@ + joined(words, "|"@) + ")"@ + " decided to"@
        =~= "(?i)(?:we|they|team) decided to"@);
    assert(words[0] == "we"@ && words[1] == "they"@ && words[2] == "team"@);
}

/// Whether a text looks like a decision.
pub fn looks_like_decision(s: &str) -> (r: bool)
    ensures
        r == is_decision(s@),
{
    proof {
        lemma_decided_to(text::small_letters(s@));
    }
    if has_options_pattern(s) {
        return true;
    }
    let lower = text::to_lowercase(s);
    if announces_in(lower.as_str()) {
        return true;
    }
    match patterns::is_match("(?i)(?:we|they|team) decided to", false, s) {
        Some(found) => found,
        None => false,
    }
}

// ---------------------------------------------------------------------------
// Projects
// ---------------------------------------------------------------------------

/// The project with exactly this path.
pub open spec fn at_path(filter: Seq<char>) -> spec_fn(Project) -> bool {
    |p: Project| p.decoded_path@ == filter
}

/// The project whose path ends with this name.
pub open spec fn named(filter: Seq<char>) -> spec_fn(Project) -> bool {
    |p: Project| ends(p.decoded_path@, "/"@ + filter)
}

/// The project whose path or directory name holds this text.
pub open spec fn mentioning(filter: Seq<char>) -> spec_fn(Project) -> bool {
    |p: Project| has(p.decoded_path@, filter) || has(p.encoded_name@, filter)
}

/// The projects that a filter stands for: the only one at that path, else the only one of that
/// name, else all that mention it.
pub open spec fn filtered(projects: Seq<Project>, filter: Seq<char>) -> Seq<Project> {
    if projects.filter(at_path(filter)).len() == 1 {
        projects.filter(at_path(filter))
    } else if projects.filter(named(filter)).len() == 1 {
        projects.filter(named(filter))
    } else {
        projects.filter(mentioning(filter))
    }
}

/// A project that a filter stands for is one of the projects, and its path or directory name holds
/// the filter. The only project at a path, or else the only one of a name, stands alone.
pub proof fn filtered_projects_mention_the_filter(
    projects: Seq<Project>,
    filter: Seq<char>,
    p: Project,
)
    requires
        filtered(projects, filter).contains(p),
    ensures
        projects.contains(p),
        mentioning(filter)(p),
        projects.filter(at_path(filter)).len() == 1 ==> filtered(projects, filter) == seq![p]
            && p.decoded_path@ == filter,
        projects.filter(at_path(filter)).len() != 1 && projects.filter(named(filter)).len() == 1
            ==> filtered(projects, filter) == seq![p] && named(filter)(p),
{
    let path = p.decoded_path@;
    let found = filtered(projects, filter);
    let i = choose|i: int| 0 <= i < found.len() && found[i] == p;
    if projects.filter(at_path(filter)).len() == 1 {
        order::filtered_items_fit(projects, at_path(filter), p);
        assert(path.subrange(0, filter.len() as int) =~= filter);
        assert(text::occurs_at(path, filter, 0));
        assert(found =~= seq![p]);
    } else if projects.filter(named(filter)).len() == 1 {
        order::filtered_items_fit(projects, named(filter), p);
        let tail = "/"@ + filter;
        let at = path.len() - tail.len();
        reveal_strlit("/");
        assert(text::occurs_at(path, tail, at));
        assert(path.subrange(at + 1, at + 1 + filter.len()) =~= filter) by {
            assert forall|k: int| 0 <= k < filter.len() implies path[at + 1 + k] == filter[k] by {
                assert(tail[k + 1] == filter[k]);
                assert(path.subrange(at, at + tail.len())[k + 1] == path[at + 1 + k]);
            }
        }
        assert(text::occurs_at(path, filter, at + 1));
        assert(found =~= seq![p]);
    } else {
        order::filtered_items_fit(projects, mentioning(filter), p);
    }
}

/// A project is found by a filter if it is the only one with that path; else, where no project alone
/// has that path, if it is the only one whose path ends with a slash and the filter; else, where no
/// project alone does that either, every project whose path or directory name holds the filter.
pub proof fn filters_find_projects(projects: Seq<Project>, filter: Seq<char>, p: Project)
    requires
        projects.contains(p),
    ensures
        p.decoded_path@ == filter && projects.filter(
            |q: Project| q.decoded_path@ == filter,
        ).len() == 1 ==> filtered(projects, filter).contains(p),
        projects.filter(|q: Project| q.decoded_path@ == filter).len() != 1 && ends(
            p.decoded_path@,
            "/"@ + filter,
        ) && projects.filter(|q: Project| ends(q.decoded_path@, "/"@ + filter)).len() == 1
            ==> filtered(projects, filter).contains(p),
        projects.filter(|q: Project| q.decoded_path@ == filter).len() != 1 && projects.filter(
            |q: Project| ends(q.decoded_path@, "/"@ + filter),
        ).len() != 1 ==> (filtered(projects, filter).contains(p) <==> has(p.decoded_path@, filter)
            || has(p.encoded_name@, filter)),
{
    assert(at_path(filter) =~= (|q: Project| q.decoded_path@ == filter));
    assert(named(filter) =~= (|q: Project| ends(q.decoded_path@, "/"@ + filter)));
    order::filtering_is_exact(projects, at_path(filter));
    order::filtering_is_exact(projects, named(filter));
    order::filtering_is_exact(projects, mentioning(filter));
    assert(projects.filter(at_path(filter)).contains(p) <==> at_path(filter)(p));
    assert(projects.filter(named(filter)).contains(p) <==> named(filter)(p));
    assert(projects.filter(mentioning(filter)).contains(p) <==> mentioning(filter)(p));
}

/// The projects that a filter stands for.
pub fn filter_projects(projects: Vec<Project>, filter: &str) -> (r: Vec<Project>)
    ensures
        r@ == filtered(projects@, filter@),
{
    let suffix = text::cat2("/", filter);
    let is_at = |p: &Project| -> (o: bool)
        ensures
            o == at_path(filter@)(*p),
        { text::same(p.decoded_path.as_str(), filter) };
    let is_named = |p: &Project| -> (o: bool)
        ensures
            o == named(filter@)(*p),
        { text::ends_with(p.decoded_path.as_str(), suffix.as_str()) };
    if order::count(&projects, is_at, Ghost(at_path(filter@))) == 1 {
        return order::keep(projects, is_at, Ghost(at_path(filter@)));
    }
    if order::count(&projects, is_named, Ghost(named(filter@))) == 1 {
        return order::keep(projects, is_named, Ghost(named(filter@)));
    }
    let mentions = |p: &Project| -> (o: bool)
        ensures
            o == mentioning(filter@)(*p),
        {
            text::contains(p.decoded_path.as_str(), filter) || text::contains(
                p.encoded_name.as_str(),
                filter,
            )
        };
    order::keep(projects, mentions, Ghost(mentioning(filter@)))
}

/// The paths of a list of projects.
pub open spec fn paths_of(projects: Seq<Project>) -> Seq<Seq<char>> {
    Seq::new(projects.len(), |i: int| projects[i].decoded_path@)
}

/// The only one of the projects that were found; an error where there is none or more than one.
pub open spec fn is_only_project(
    found: Seq<Project>,
    filter: Seq<char>,
    r: Result<Project, SnatchError>,
) -> bool {
    if found.len() == 0 {
        r matches Err(e) && e@ == (ErrorView::ProjectNotFound {
            project_path: "No project matching '"@ + filter + "'"@,
        })
    } else if found.len() == 1 {
        r == Ok::<Project, SnatchError>(found[0])
    } else {
        r matches Err(e) && e@ == invalid(
            "project"@,
            "Ambiguous filter '"@ + filter + "' matches "@ + decimal(found.len()) + " projects: "@
                + joined(paths_of(found), ", "@),
        )
    }
}

/// The only one of the projects that were found; an error where there is none or more than one.
pub fn only_project(found: Vec<Project>, filter: &str) -> (r: Result<Project, SnatchError>)
    ensures
        is_only_project(found@, filter@, r),
{
    let mut found = found;
    if found.len() == 0 {
        return Err(
            SnatchError::ProjectNotFound {
                project_path: text::cat3("No project matching '", filter, "'"),
            },
        );
    }
    if found.len() == 1 {
        return Ok(found.remove(0));
    }
    let mut paths: Vec<String> = Vec::new();
    let mut i: usize = 0;
    while i < found.len()
        invariant
            i <= found@.len(),
            paths@.len() == i,
            forall|k: int| 0 <= k < i ==> (#[trigger] paths@[k])@ == found@[k].decoded_path@,
        decreases found@.len() - i,
    {
        paths.push(found[i].decoded_path.clone());
        i = i + 1;
    }
    proof {
        assert(views(paths@) =~= paths_of(found@));
    }
    let list = text::join(&paths, ", ");
    let n = text::size(found.len());
    let head = text::cat4("Ambiguous filter '", filter, "' matches ", n.as_str());
    Err(
        invalid_argument(
            "project",
            text::cat3(head.as_str(), " projects: ", list.as_str()),
        ),
    )
}

/// The only project that a filter stands for; an error where there is none or more than one.
pub fn resolve_single_project(projects: Vec<Project>, filter: &str) -> (r: Result<
    Project,
    SnatchError,
>)
    ensures
        is_only_project(filtered(projects@, filter@), filter@, r),
{
    let found = filter_projects(projects, filter);
    only_project(found, filter)
}

// ---------------------------------------------------------------------------
// Sessions
// ---------------------------------------------------------------------------

/// How sessions are chosen.
pub struct SessionCollectParams<'a> {
    /// Filter to a single session by ID.
    pub session: Option<&'a str>,
    /// Filter to sessions matching this project path substring.
    pub project: Option<&'a str>,
    /// Only sessions modified after this date/duration string.
    pub since: Option<&'a str>,
    /// Only sessions modified before this date/duration string.
    pub until: Option<&'a str>,
    /// Take the N most recently modified sessions.
    pub recent: Option<usize>,
    /// Exclude subagent sessions.
    pub no_subagents: bool,
}

/// When the contents of a session begin: at its first message, else when it was modified.
pub open spec fn start_of(s: Session) -> i128 {
    match s.times {
        Some(times) => match times.start_time {
            Some(t) => t,
            None => s.modified,
        },
        None => s.modified,
    }
}

/// When the contents of a session end: at its last message, else when it was modified.
pub open spec fn end_of(s: Session) -> i128 {
    match s.times {
        Some(times) => match times.end_time {
            Some(t) => t,
            None => s.modified,
        },
        None => s.modified,
    }
}

/// The contents of a session overlap a span of time with optional bounds.
pub open spec fn overlaps(since: Option<int>, until: Option<int>) -> spec_fn(Session) -> bool {
    |s: Session|
        {
            &&& match since {
                Some(bound) => end_of(s) >= bound,
                None => true,
            }
            &&& match until {
                Some(bound) => start_of(s) <= bound,
                None => true,
            }
        }
}

/// A wider span of time keeps every session that a narrower one keeps, and no span at all keeps
/// every session.
pub proof fn wider_dates_keep_more(
    s: Session,
    since: int,
    until: int,
    earlier: int,
    later: int,
)
    requires
        earlier <= since,
        until <= later,
    ensures
        overlaps(Some(since), Some(until))(s) ==> overlaps(Some(earlier), Some(later))(s),
        overlaps(Some(since), None)(s) ==> overlaps(Some(earlier), None)(s),
        overlaps(None, Some(until))(s) ==> overlaps(None, Some(later))(s),
        overlaps(None, None)(s),
{
}

/// A session overlaps a span of time if and only if its contents do not end before it and do not
/// begin after it. A time that its contents do not give is that of its file.
pub proof fn contents_decide_overlap(s: Session, since: Option<int>, until: Option<int>)
    ensures
        overlaps(since, until)(s) <==> {
            &&& since is Some && s.times is Some && s.times->0.end_time is Some ==> since->0
                <= s.times->0.end_time->0
            &&& since is Some && (s.times is None || s.times->0.end_time is None) ==> since->0
                <= s.modified
            &&& until is Some && s.times is Some && s.times->0.start_time is Some
                ==> s.times->0.start_time->0 <= until->0
            &&& until is Some && (s.times is None || s.times->0.start_time is None) ==> s.modified
                <= until->0
        },
{
}

fn session_overlaps(s: &Session, since: Option<i128>, until: Option<i128>) -> (r: bool)
    ensures
        r == overlaps(bound_view(since), bound_view(until))(*s),
{
    let (start, end) = match &s.times {
        Some(times) => {
            let a: i128 = match times.start_time {
                Some(t) => t,
                None => s.modified,
            };
            let b: i128 = match times.end_time {
                Some(t) => t,
                None => s.modified,
            };
            (a, b)
        },
        None => (s.modified, s.modified),
    };
    match since {
        Some(bound) => if end < bound {
            return false;
        },
        None => {},
    }
    match until {
        Some(bound) => if start > bound {
            return false;
        },
        None => {},
    }
    true
}

/// An optional bound as a number.
pub open spec fn bound_view(bound: Option<i128>) -> Option<int> {
    match bound {
        Some(t) => Some(t as int),
        None => None,
    }
}

/// What became of choosing sessions by date.
pub enum Chosen {
    /// The sessions that are left.
    Sessions(Seq<Session>),
    /// A bound that the calendar does not hold.
    OutOfRange,
    /// A bound that cannot be read.
    Invalid(ErrorView),
}

/// The sessions whose contents overlap the span between two date filters. The first filter is
/// read first.
pub open spec fn chosen_by_date(
    sessions: Seq<Session>,
    since: Option<Seq<char>>,
    until: Option<Seq<char>>,
    now: i128,
) -> Chosen {
    match bound_filter(since, now) {
        BoundFilter::OutOfRange => Chosen::OutOfRange,
        BoundFilter::Invalid(e) => Chosen::Invalid(e),
        BoundFilter::Bound(a) => match bound_filter(until, now) {
            BoundFilter::OutOfRange => Chosen::OutOfRange,
            BoundFilter::Invalid(e) => Chosen::Invalid(e),
            BoundFilter::Bound(b) => Chosen::Sessions(sessions.filter(overlaps(a, b))),
        },
    }
}

/// The result states what became of choosing sessions.
pub open spec fn states_choice(
    r: Option<Result<Vec<Session>, SnatchError>>,
    chosen: Chosen,
) -> bool {
    match chosen {
        Chosen::Sessions(s) => r matches Some(Ok(v)) && v@ == s,
        Chosen::OutOfRange => r is None,
        Chosen::Invalid(error) => r matches Some(Err(e)) && e@ == error,
    }
}

/// The sessions whose contents overlap the span between two date filters; none where the
/// calendar does not hold a bound.
pub fn filter_sessions_by_date(
    sessions: Vec<Session>,
    since: Option<&str>,
    until: Option<&str>,
    now: i128,
) -> (r: Option<Result<Vec<Session>, SnatchError>>)
    ensures
        states_choice(
            r,
            chosen_by_date(sessions@, optional_view(since), optional_view(until), now),
        ),
{
    let a: Option<i128> = match parse_bound(since, now) {
        Some(Ok(bound)) => bound,
        Some(Err(e)) => {
            return Some(Err(e));
        },
        None => {
            return None;
        },
    };
    let b: Option<i128> = match parse_bound(until, now) {
        Some(Ok(bound)) => bound,
        Some(Err(e)) => {
            return Some(Err(e));
        },
        None => {
            return None;
        },
    };
    let within = |s: &Session| -> (o: bool)
        ensures
            o == overlaps(bound_view(a), bound_view(b))(*s),
        { session_overlaps(s, a, b) };
    let kept = order::keep(sessions, within, Ghost(overlaps(bound_view(a), bound_view(b))));
    Some(Ok(kept))
}

/// The file of the session was modified within the span of time.
pub open spec fn modified_within(since: Option<i128>, until: Option<i128>) -> spec_fn(
    Session,
) -> bool {
    |s: Session|
        (since matches Some(a) ==> a <= s.modified) && (until matches Some(b) ==> s.modified <= b)
}

/// A session is kept if and only if its file was modified neither before the span nor after it.
pub proof fn kept_files_lie_within(
    sessions: Seq<Session>,
    since: Option<i128>,
    until: Option<i128>,
    s: Session,
)
    ensures
        sessions.filter(modified_within(since, until)).contains(s) <==> {
            &&& sessions.contains(s)
            &&& since is Some ==> since->0 <= s.modified
            &&& until is Some ==> s.modified <= until->0
        },
{
    order::filtering_is_exact(sessions, modified_within(since, until));
    assert(sessions.filter(modified_within(since, until)).contains(s) <==> sessions.contains(s)
        && modified_within(since, until)(s));
}

/// The sessions whose file was modified within the span of time.
pub fn keep_modified_within(
    sessions: Vec<Session>,
    since: Option<i128>,
    until: Option<i128>,
) -> (r: Vec<Session>)
    ensures
        r@ == sessions@.filter(modified_within(since, until)),
{
    let timely = |s: &Session| -> (o: bool)
        ensures
            o == modified_within(since, until)(*s),
        {
            let m: i128 = s.modified;
            let late_enough: bool = match since {
                Some(a) => a <= m,
                None => true,
            };
            let early_enough: bool = match until {
                Some(b) => m <= b,
                None => true,
            };
            late_enough && early_enough
        };
    order::keep(sessions, timely, Ghost(modified_within(since, until)))
}

/// The session that was modified later comes first.
pub open spec fn later_first() -> spec_fn(Session, Session) -> bool {
    |a: Session, b: Session| b.modified < a.modified
}

fn modified_later(a: &Session, b: &Session) -> (o: bool)
    ensures
        o == later_first()(*a, *b),
{
    let x: i128 = b.modified;
    let y: i128 = a.modified;
    x < y
}

/// Not spawned by another session.
pub open spec fn is_main() -> spec_fn(Session) -> bool {
    |s: Session| !s.is_subagent
}

/// The sessions that are left after the number of recent ones and subagents are looked at. The
/// number is taken first.
pub open spec fn recent_sessions(
    sessions: Seq<Session>,
    recent: Option<usize>,
    no_subagents: bool,
) -> Seq<Session> {
    let cut = match recent {
        Some(n) => first_of_list(sorted_by(sessions, later_first()), n as int),
        None => sessions,
    };
    if no_subagents {
        cut.filter(is_main())
    } else {
        cut
    }
}

/// The recent sessions are those that were modified last, and without subagents those of them that
/// no other session spawned: a session that is left out is a subagent, or was modified no later
/// than any that is left.
pub proof fn recent_sessions_are_latest(
    sessions: Seq<Session>,
    recent: Option<usize>,
    no_subagents: bool,
)
    ensures
        ({
            let left = recent_sessions(sessions, recent, no_subagents);
            &&& forall|i: int|
                0 <= i < left.len() ==> sessions.contains(#[trigger] left[i]) && (no_subagents
                    ==> !left[i].is_subagent)
            &&& recent matches Some(n) ==> left.len() <= n
            &&& recent is Some && !no_subagents ==> (left.len() == recent->0 || left.len()
                == sessions.len())
            &&& recent is Some && !no_subagents ==> forall|i: int, j: int|
                0 <= i < j < left.len() ==> (#[trigger] left[j]).modified <= (
                #[trigger] left[i]).modified
            &&& recent is Some ==> forall|s: Session, i: int|
                #![trigger sessions.contains(s), left[i]]
                sessions.contains(s) && 0 <= i < left.len() && !left.contains(s) ==> (no_subagents
                    && s.is_subagent) || s.modified <= left[i].modified
            &&& recent is None ==> forall|s: Session| #[trigger]
                sessions.contains(s) && !(no_subagents && s.is_subagent) ==> left.contains(s)
        }),
{
    let left = recent_sessions(sessions, recent, no_subagents);
    let cut = match recent {
        Some(n) => first_of_list(sorted_by(sessions, later_first()), n as int),
        None => sessions,
    };
    if recent is Some {
        order::first_are_foremost(sessions, later_first(), recent->0 as int);
    }
    order::filtering_is_exact(cut, is_main());
    assert forall|i: int| 0 <= i < left.len() implies sessions.contains(#[trigger] left[i]) && (
    no_subagents ==> !left[i].is_subagent) && cut.contains(left[i]) by {
        if no_subagents {
            assert(cut.filter(is_main()).contains(left[i]));
        } else {
            assert(cut.contains(cut[i]));
        }
        let k = choose|k: int| 0 <= k < cut.len() && cut[k] == left[i];
        assert(sessions.contains(cut[k]));
    }
    if recent is Some {
        assert forall|s: Session, i: int|
            #![trigger sessions.contains(s), left[i]]
            sessions.contains(s) && 0 <= i < left.len() && !left.contains(s) implies (no_subagents
            && s.is_subagent) || s.modified <= left[i].modified by {
            let k = choose|k: int| 0 <= k < cut.len() && cut[k] == left[i];
            if cut.contains(s) && !(no_subagents && s.is_subagent) {
                assert(cut.filter(is_main()).contains(s) <==> cut.contains(s) && is_main()(s));
            } else {
                if !cut.contains(s) {
                    assert(!later_first()(s, cut[k]));
                }
            }
        }
        if !no_subagents {
            assert forall|i: int, j: int| 0 <= i < j < left.len() implies (
            #[trigger] left[j]).modified <= (#[trigger] left[i]).modified by {
                assert(!later_first()(left[j], left[i]));
            }
        }
    } else {
        assert forall|s: Session| #[trigger]
            sessions.contains(s) && !(no_subagents && s.is_subagent) implies left.contains(s) by {
            assert(cut.filter(is_main()).contains(s) <==> cut.contains(s) && is_main()(s));
        }
    }
}

/// Which sessions are looked at before the other filters.
#[derive(Debug, Clone, PartialEq, Eq)]
pub enum SessionSource {
    /// The one with an id.
    One(String),
    /// Those of the projects that a filter stands for.
    OfProjects(String),
    /// All.
    All,
}

/// Which sessions are looked at: the one that is named, else those of the named projects, else
/// all.
pub fn session_source(params: &SessionCollectParams) -> (r: SessionSource)
    ensures
        match (params.session, params.project) {
            (Some(id), _) => r matches SessionSource::One(s) && s@ == id@,
            (None, Some(filter)) => r matches SessionSource::OfProjects(s) && s@ == filter@,
            (None, None) => r is All,
        },
{
    match params.session {
        Some(id) => SessionSource::One(id.to_owned()),
        None => match params.project {
            Some(filter) => SessionSource::OfProjects(filter.to_owned()),
            None => SessionSource::All,
        },
    }
}

/// The session that was looked for by its id.
pub fn require_session<T>(found: Option<T>, session_id: &str) -> (r: Result<T, SnatchError>)
    ensures
        match found {
            Some(s) => r == Ok::<T, SnatchError>(s),
            None => r matches Err(e) && e@ == (ErrorView::SessionNotFound {
                session_id: session_id@,
            }),
        },
{
    match found {
        Some(s) => Ok(s),
        None => Err(SnatchError::SessionNotFound { session_id: session_id.to_owned() }),
    }
}

/// The sessions that are left of those that were found: by date, then the most recent ones,
/// then without subagents. None where the calendar does not hold a bound.
pub fn collect_sessions(sessions: Vec<Session>, params: &SessionCollectParams, now: i128) -> (r:
    Option<Result<Vec<Session>, SnatchError>>)
    ensures
        states_choice(
            r,
            match chosen_by_date(
                sessions@,
                optional_view(params.since),
                optional_view(params.until),
                now,
            ) {
                Chosen::Sessions(s) => Chosen::Sessions(
                    recent_sessions(s, params.recent, params.no_subagents),
                ),
                other => other,
            },
        ),
{
    let mut kept = match filter_sessions_by_date(sessions, params.since, params.until, now) {
        Some(Ok(kept)) => kept,
        other => {
            return other;
        },
    };
    match params.recent {
        Some(n) => {
            kept = order::sort(kept, modified_later, Ghost(later_first()));
            if n < kept.len() {
                kept.truncate(n);
            }
        },
        None => {},
    }
    if params.no_subagents {
        let stays = |s: &Session| -> (o: bool)
            ensures
                o == is_main()(*s),
            { !s.is_subagent };
        kept = order::keep(kept, stays, Ghost(is_main()));
    }
    Some(Ok(kept))
}

/// On the main thread, from the user or the assistant.
pub open spec fn on_main_thread() -> spec_fn(LogEntry) -> bool {
    |e: LogEntry| !e.aside() && (e is User || e is Assistant)
}

/// An entry is on the main thread if and only if it is a message of the user or of the assistant
/// that does not stand beside it.
pub proof fn main_thread_is_exact(entries: Seq<LogEntry>, e: LogEntry)
    ensures
        entries.filter(on_main_thread()).contains(e) <==> entries.contains(e) && ((e
            matches LogEntry::User(u) && !u.is_sidechain) || (e matches LogEntry::Assistant(a)
            && !a.is_sidechain)),
{
    order::filtering_is_exact(entries, on_main_thread());
    assert(entries.filter(on_main_thread()).contains(e) <==> entries.contains(e)
        && on_main_thread()(e));
}

/// The entries of the main thread that are from the user or the assistant.
pub fn main_thread_entries(entries: &Vec<LogEntry>) -> (r: Vec<&LogEntry>)
    ensures
        r@.unref() == entries@.filter(on_main_thread()),
{
    let mut out: Vec<&LogEntry> = Vec::new();
    let mut i: usize = 0;
    proof {
        assert(entries@.take(0) =~= Seq::empty());
        assert(out@.unref() =~= Seq::empty());
    }
    while i < entries.len()
        invariant
            i <= entries@.len(),
            out@.unref() == entries@.take(i as int).filter(on_main_thread()),
        decreases entries@.len() - i,
    {
        let entry = &entries[i];
        proof {
            broadcast use Seq::lemma_filter_push;

            assert(entries@.take(i + 1) =~= entries@.take(i as int).push(entries@[i as int]));
            assert(out@.push(entry).unref() =~= out@.unref().push(*entry));
        }
        if !entry.is_sidechain() {
            match entry {
                LogEntry::User(_) => {
                    out.push(entry);
                },
                LogEntry::Assistant(_) => {
                    out.push(entry);
                },
                _ => {},
            }
        }
        i = i + 1;
    }
    proof {
        assert(entries@.take(i as int) =~= entries@);
    }
    out
}

/// A project, where there is one: that none matches is no error, but that several do is.
pub fn project_if_found(found: Result<Project, SnatchError>) -> (r: Result<
    Option<Project>,
    SnatchError,
>)
    ensures
        match found {
            Ok(p) => r == Ok::<Option<Project>, SnatchError>(Some(p)),
            Err(SnatchError::ProjectNotFound { .. }) => r == Ok::<Option<Project>, SnatchError>(
                None,
            ),
            Err(e) => r == Err::<Option<Project>, SnatchError>(e),
        },
{
    match found {
        Ok(p) => Ok(Some(p)),
        Err(SnatchError::ProjectNotFound { .. }) => Ok(None),
        Err(e) => Err(e),
    }
}

/// What is said where there is nothing to work on; none where there is something.
pub fn say_if_empty(count: usize, quiet: bool, line: &str) -> (r: Option<Vec<String>>)
    ensures
        match r {
            Some(lines) => count == 0 && views(lines@) == (if quiet {
                Seq::empty()
            } else {
                seq![line@]
            }),
            None => count > 0,
        },
{
    if count > 0 {
        return None;
    }
    let mut out: Vec<String> = Vec::new();
    if !quiet {
        text::say(&mut out, line);
    }
    proof {
        assert(views(out@) =~= (if quiet {
            Seq::empty()
        } else {
            seq![line@]
        }));
    }
    Some(out)
}

// ---------------------------------------------------------------------------
// Flags that do not go together
// ---------------------------------------------------------------------------

/// The contents of a list of flags.
pub open spec fn flag_views(flags: Seq<(String, bool)>) -> Seq<(Seq<char>, bool)> {
    Seq::new(flags.len(), |i: int| (flags[i].0@, flags[i].1))
}

/// The names of the flags that were given, in order.
pub open spec fn given_flags(flags: Seq<(Seq<char>, bool)>) -> Seq<Seq<char>>
    decreases flags.len(),
{
    if flags.len() == 0 {
        Seq::empty()
    } else {
        let before = given_flags(flags.drop_last());
        if flags.last().1 {
            before.push(flags.last().0)
        } else {
            before
        }
    }
}

/// The flags that are named are those that were given, and no others.
pub proof fn given_flags_are_named(flags: Seq<(Seq<char>, bool)>)
    ensures
        forall|name: Seq<char>| #[trigger]
            given_flags(flags).contains(name) <==> exists|i: int|
                0 <= i < flags.len() && (#[trigger] flags[i]).1 && flags[i].0 == name,
        given_flags(flags).len() <= flags.len(),
    decreases flags.len(),
{
    if flags.len() > 0 {
        let front = flags.drop_last();
        let (all, before) = (given_flags(flags), given_flags(front));
        given_flags_are_named(front);
        assert forall|name: Seq<char>| #[trigger]
            all.contains(name) <==> exists|i: int|
                0 <= i < flags.len() && (#[trigger] flags[i]).1 && flags[i].0 == name by {
            if all.contains(name) {
                let k = choose|k: int| 0 <= k < all.len() && all[k] == name;
                if k < before.len() {
                    assert(before[k] == name);
                    assert(before.contains(name));
                    let i = choose|i: int|
                        0 <= i < front.len() && (#[trigger] front[i]).1 && front[i].0 == name;
                    assert(flags[i].1 && flags[i].0 == name);
                } else {
                    assert(flags[flags.len() - 1].1 && flags[flags.len() - 1].0 == name);
                }
            }
            if exists|i: int| 0 <= i < flags.len() && (#[trigger] flags[i]).1 && flags[i].0 == name {
                let i = choose|i: int|
                    0 <= i < flags.len() && (#[trigger] flags[i]).1 && flags[i].0 == name;
                if i < front.len() {
                    assert(front[i].1 && front[i].0 == name);
                    assert(before.contains(name));
                    let k = choose|k: int| 0 <= k < before.len() && before[k] == name;
                    assert(all[k] == name);
                } else {
                    assert(all[all.len() - 1] == name);
                }
            }
        }
    }
}

/// Refuses what is asked for where a flag was given that does not go with it.
pub fn refuse_unsupported_flags(route: &str, flags: &Vec<(String, bool)>) -> (r: Result<
    (),
    SnatchError,
>)
    ensures
        if given_flags(flag_views(flags@)).len() > 0 {
            r matches Err(e) && e@ == (ErrorView::UnsupportedFlags {
                route: route@,
                flags: given_flags(flag_views(flags@)),
            })
        } else {
            r is Ok
        },
{
    let ghost all = flag_views(flags@);
    let mut given: Vec<String> = Vec::new();
    let mut i: usize = 0;
    proof {
        assert(all.take(0) =~= Seq::empty());
        assert(views(given@) =~= Seq::empty());
    }
    while i < flags.len()
        invariant
            i <= flags@.len(),
            all == flag_views(flags@),
            views(given@) == given_flags(all.take(i as int)),
        decreases flags@.len() - i,
    {
        proof {
            let next = all.take(i + 1);
            assert(next.drop_last() =~= all.take(i as int));
            assert(next.last() == all[i as int]);
        }
        if flags[i].1 {
            text::say(&mut given, flags[i].0.as_str());
        }
        i = i + 1;
    }
    proof {
        assert(all.take(i as int) =~= all);
        assert(views(given@).len() == given@.len());
    }
    if given.len() > 0 {
        Err(SnatchError::UnsupportedFlags { route: route.to_owned(), flags: given })
    } else {
        Ok(())
    }
}

// ---------------------------------------------------------------------------
// What calls hand back
// ---------------------------------------------------------------------------

/// A session that was named goes before a project, and a project before all sessions.
pub proof fn sessions_are_taken_from_the_narrowest(
    session: &str,
    project: &str,
    params: SessionCollectParams,
    r: SessionSource,
)
    ensures
        call_ensures(session_source, (&params,), r) ==> {
            &&& r is One <==> params.session is Some
            &&& r is OfProjects <==> params.session is None && params.project is Some
            &&& params.session == Some(session) ==> (r matches SessionSource::One(s) && s@
                == session@)
            &&& params.session is None && params.project == Some(project) ==> (r matches
                SessionSource::OfProjects(s) && s@ == project@)
        },
{
}

/// Something is said of nothing if and only if there is nothing, and only where it is wanted.
pub proof fn nothing_is_told(count: usize, quiet: bool, line: &str, r: Option<Vec<String>>)
    ensures
        call_ensures(say_if_empty, (count, quiet, line), r) ==> {
            &&& r is Some <==> count == 0
            &&& r matches Some(lines) ==> (lines@.len() == 0 <==> quiet) && lines@.len() <= 1
            &&& count == 0 && !quiet ==> r->0@[0]@ == line@
        },
{
    if call_ensures(say_if_empty, (count, quiet, line), r) && count == 0 {
        let lines = r->0;
        assert(views(lines@).len() == lines@.len());
        if !quiet {
            assert(views(lines@)[0] == lines@[0]@);
        }
    }
}

/// A project that was not found is none; any other failure is handed on.
pub proof fn unknown_projects_are_none(
    found: Result<Project, SnatchError>,
    r: Result<Option<Project>, SnatchError>,
)
    ensures
        call_ensures(project_if_found, (found,), r) ==> {
            &&& found is Ok ==> r == Ok::<Option<Project>, SnatchError>(Some(found->Ok_0))
            &&& (r matches Ok(p) && p is None) <==> (found matches Err(e) && e is ProjectNotFound)
            &&& r is Err ==> found == Err::<Project, SnatchError>(r->Err_0)
        },
{
}

} // verus!
