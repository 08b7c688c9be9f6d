//! The blocks of code in a conversation.
use vstd::prelude::*;

use crate::commands::chain::{text_or, write_or};
use crate::commands::helpers::text_view;
use crate::commands::OutputFormat;
use crate::error::{ErrorView, SnatchError};
use crate::json;
use crate::json::{fields_view, given_text, number_json, optional_text, time_json, Json, JsonView};
use crate::model::{ContentBlock, UserContent};
use crate::order;
use crate::order::first_of_list;
use crate::provider::copy_text;
use crate::text;
use crate::text::{
    begins, decimal, first_chars, has, joined, lines_of, lowercase, views, zero_filled,
};
use crate::time;
use crate::time::shown_or;

verus! {

/// A block of code, as a text holds it.
#[derive(Debug, Clone, PartialEq, Eq)]
pub struct CodeBlock {
    /// The language that is named.
    pub language: Option<String>,
    /// The code.
    pub code: String,
}

/// A message and the blocks of code in it.
#[derive(Debug, Clone, PartialEq, Eq)]
pub enum CodeEntry {
    /// Of the user.
    User {
        /// Whether a person wrote it, as far as that is known.
        is_human: bool,
        /// Its time, as it is shown.
        timestamp: Option<i128>,
        /// The blocks.
        blocks: Vec<CodeBlock>,
    },
    /// Of the assistant: the blocks of all its texts.
    Assistant {
        /// Its time, as it is shown.
        timestamp: Option<i128>,
        /// The blocks.
        blocks: Vec<CodeBlock>,
    },
    /// Anything else.
    Other,
}

/// A block of code with where it is from.
#[derive(Debug, Clone, PartialEq, Eq)]
pub struct ExtractedCode {
    /// The language that is named.
    pub language: Option<String>,
    /// The code.
    pub code: String,
    /// Who wrote it.
    pub source: String,
    /// When, as it is shown.
    pub timestamp: Option<i128>,
    /// Its place among all blocks.
    pub index: usize,
    /// The provider.
    pub provider: Option<String>,
    /// The qualified id of the session.
    pub qualified_id: Option<String>,
}

/// The contents of a block of code.
#[verifier::ext_equal]
pub struct CodeView {
    /// The language that is named.
    pub language: Option<Seq<char>>,
    /// The code.
    pub code: Seq<char>,
    /// Who wrote it.
    pub source: Seq<char>,
    /// When.
    pub timestamp: Option<i128>,
    /// Its place among all blocks.
    pub index: int,
    /// The provider.
    pub provider: Option<Seq<char>>,
    /// The qualified id of the session.
    pub qualified_id: Option<Seq<char>>,
}

impl View for ExtractedCode {
    type V = CodeView;

    open spec fn view(&self) -> CodeView {
        CodeView {
            language: text_view(self.language),
            code: self.code@,
            source: self.source@,
            timestamp: self.timestamp,
            index: self.index as int,
            provider: text_view(self.provider),
            qualified_id: text_view(self.qualified_id),
        }
    }
}

// ---------------------------------------------------------------------------
// Where the conversation is
// ---------------------------------------------------------------------------

/// Whether the session is taken from a provider: one is asked for, or the id is that of one. Only
/// an id with a colon can be.
pub fn uses_provider(provider: &Vec<String>, session: &str, looks_qualified: bool) -> (r: bool)
    ensures
        r == (provider@.len() > 0 || (session@.contains(':') && looks_qualified)),
{
    provider.len() > 0 || (text::contains_char(session, ':') && looks_qualified)
}

/// The id begins with what is asked for.
pub open spec fn is_meant(id: String, asked: Seq<char>) -> bool {
    begins(id@, asked)
}

/// The first session whose id begins with what is asked for.
pub fn find_session(ids: &Vec<String>, asked: &str) -> (r: Result<usize, SnatchError>)
    ensures
        match r {
            Ok(k) => k < ids@.len() && is_meant(ids@[k as int], asked@) && forall|j: int|
                0 <= j < k ==> !is_meant(#[trigger] ids@[j], asked@),
            Err(e) => e@ == (ErrorView::SessionNotFound { session_id: asked@ }) && forall|j: int|
                0 <= j < ids@.len() ==> !is_meant(#[trigger] ids@[j], asked@),
        },
{
    let mut k: usize = 0;
    while k < ids.len()
        invariant
            k <= ids@.len(),
            forall|j: int| 0 <= j < k ==> !is_meant(#[trigger] ids@[j], asked@),
        decreases ids@.len() - k,
    {
        if text::starts_with(ids[k].as_str(), asked) {
            return Ok(k);
        }
        k = k + 1;
    }
    Err(SnatchError::SessionNotFound { session_id: asked.to_owned() })
}

/// The texts among some parts of a message.
pub open spec fn texts_in(blocks: Seq<ContentBlock>) -> Seq<Seq<char>>
    decreases blocks.len(),
{
    if blocks.len() == 0 {
        Seq::empty()
    } else {
        let before = texts_in(blocks.drop_last());
        match blocks.last() {
            ContentBlock::Text(t) => before.push(t@),
            _ => before,
        }
    }
}

/// The text of a message of the user in which code is looked for.
pub open spec fn searched_text(content: UserContent) -> Seq<char> {
    match content {
        UserContent::Simple(t) => t@,
        UserContent::Blocks(blocks) => joined(texts_in(blocks@), "\n"@),
    }
}

/// The text of a message of the user in which code is looked for.
pub fn user_text(content: &UserContent) -> (r: String)
    ensures
        r@ == searched_text(*content),
{
    match content {
        UserContent::Simple(t) => t.clone(),
        UserContent::Blocks(blocks) => {
            let mut parts: Vec<String> = Vec::new();
            let mut i: usize = 0;
            proof {
                assert(blocks@.take(0) =~= Seq::empty());
                assert(views(parts@) =~= Seq::empty());
            }
            while i < blocks.len()
                invariant
                    i <= blocks@.len(),
                    *content == UserContent::Blocks(*blocks),
                    views(parts@) == texts_in(blocks@.take(i as int)),
                decreases blocks@.len() - i,
            {
                proof {
                    let next = blocks@.take(i + 1);
                    assert(next.drop_last() =~= blocks@.take(i as int));
                    assert(next.last() == blocks@[i as int]);
                }
                match &blocks[i] {
                    ContentBlock::Text(t) => text::say(&mut parts, t.as_str()),
                    _ => {},
                }
                i = i + 1;
            }
            proof {
                assert(blocks@.take(i as int) =~= blocks@);
            }
            text::join(&parts, "\n")
        },
    }
}

// ---------------------------------------------------------------------------
// The blocks
// ---------------------------------------------------------------------------

/// Which blocks are asked for.
#[derive(Debug, Clone, PartialEq, Eq)]
pub struct CodeQuery {
    /// Only those of the assistant.
    pub assistant_only: bool,
    /// Only those of the user.
    pub user_only: bool,
    /// The provider of the session.
    pub provider: Option<String>,
    /// The qualified id of the session.
    pub qualified_id: Option<String>,
}

/// The block of code that a message holds, with where it is from.
pub open spec fn code_of(
    block: CodeBlock,
    source: Seq<char>,
    timestamp: Option<i128>,
    index: int,
    q: CodeQuery,
) -> CodeView {
    CodeView {
        language: text_view(block.language),
        code: block.code@,
        source,
        timestamp,
        index,
        provider: text_view(q.provider),
        qualified_id: text_view(q.qualified_id),
    }
}

/// The blocks of a message, numbered from a place on.
pub open spec fn numbered(
    blocks: Seq<CodeBlock>,
    source: Seq<char>,
    timestamp: Option<i128>,
    from: int,
    q: CodeQuery,
) -> Seq<CodeView> {
    Seq::new(blocks.len(), |i: int| code_of(blocks[i], source, timestamp, from + i, q))
}

/// The blocks of a message that are asked for, numbered from a place on.
pub open spec fn entry_code(e: CodeEntry, from: int, q: CodeQuery) -> Seq<CodeView> {
    match e {
        CodeEntry::User { is_human, timestamp, blocks } => if !q.assistant_only && is_human {
            numbered(blocks@, "user"@, timestamp, from, q)
        } else {
            Seq::empty()
        },
        CodeEntry::Assistant { timestamp, blocks } => if !q.user_only {
            numbered(blocks@, "assistant"@, timestamp, from, q)
        } else {
            Seq::empty()
        },
        CodeEntry::Other => Seq::empty(),
    }
}

/// The blocks of a conversation that are asked for, numbered in order.
pub open spec fn all_code(entries: Seq<CodeEntry>, q: CodeQuery) -> Seq<CodeView>
    decreases entries.len(),
{
    if entries.len() == 0 {
        Seq::empty()
    } else {
        let before = all_code(entries.drop_last(), q);
        before + entry_code(entries.last(), before.len() as int, q)
    }
}

/// The contents of blocks.
pub open spec fn code_views(list: Seq<ExtractedCode>) -> Seq<CodeView> {
    list.map_values(|c: ExtractedCode| c@)
}

/// Each block is numbered with its place.
pub proof fn blocks_are_numbered_in_order(entries: Seq<CodeEntry>, q: CodeQuery, k: int)
    requires
        0 <= k < all_code(entries, q).len(),
    ensures
        all_code(entries, q)[k].index == k,
    decreases entries.len(),
{
    let before = all_code(entries.drop_last(), q);
    if k < before.len() {
        blocks_are_numbered_in_order(entries.drop_last(), q, k);
    }
}

fn append_blocks(
    out: &mut Vec<ExtractedCode>,
    blocks: &Vec<CodeBlock>,
    source: &str,
    timestamp: Option<i128>,
    q: &CodeQuery,
)
    ensures
        code_views(final(out)@) == code_views(old(out)@) + numbered(
            blocks@,
            source@,
            timestamp,
            old(out)@.len() as int,
            *q,
        ),
{
    let ghost start = code_views(out@);
    let ghost all = numbered(blocks@, source@, timestamp, start.len() as int, *q);
    let mut i: usize = 0;
    proof {
        assert(start + all.take(0) =~= start);
    }
    while i < blocks.len()
        invariant
            i <= blocks@.len(),
            out@.len() == start.len() + i,
            all == numbered(blocks@, source@, timestamp, start.len() as int, *q),
            code_views(out@) == start + all.take(i as int),
        decreases blocks@.len() - i,
    {
        let place: usize = out.len();
        let code = ExtractedCode {
            language: copy_text(&blocks[i].language),
            code: blocks[i].code.clone(),
            source: source.to_owned(),
            timestamp,
            index: place,
            provider: copy_text(&q.provider),
            qualified_id: copy_text(&q.qualified_id),
        };
        let ghost before = code_views(out@);
        proof {
            assert(all.take(i + 1) =~= all.take(i as int).push(all[i as int]));
            assert(code@ == all[i as int]);
        }
        out.push(code);
        proof {
            assert(code_views(out@) =~= before.push(all[i as int]));
            assert(code_views(out@) =~= start + all.take(i + 1));
        }
        i = i + 1;
    }
    proof {
        assert(all.take(i as int) =~= all);
    }
}

/// The blocks of a conversation that are asked for, numbered in order.
pub fn extract_code_from_conversation(entries: &Vec<CodeEntry>, q: &CodeQuery) -> (r: Vec<
    ExtractedCode,
>)
    ensures
        code_views(r@) == all_code(entries@, *q),
{
    let mut out: Vec<ExtractedCode> = Vec::new();
    let mut i: usize = 0;
    proof {
        assert(entries@.take(0) =~= Seq::empty());
        assert(code_views(out@) =~= Seq::empty());
    }
    while i < entries.len()
        invariant
            i <= entries@.len(),
            code_views(out@) == all_code(entries@.take(i as int), *q),
        decreases entries@.len() - i,
    {
        let ghost before = code_views(out@);
        proof {
            let next = entries@.take(i + 1);
            assert(next.drop_last() =~= entries@.take(i as int));
            assert(next.last() == entries@[i as int]);
            assert(before.len() == out@.len());
            assert(before + Seq::<CodeView>::empty() =~= before);
        }
        match &entries[i] {
            CodeEntry::User { is_human, timestamp, blocks } => {
                if !q.assistant_only && *is_human {
                    append_blocks(&mut out, blocks, "user", *timestamp, q);
                }
            },
            CodeEntry::Assistant { timestamp, blocks } => {
                if !q.user_only {
                    append_blocks(&mut out, blocks, "assistant", *timestamp, q);
                }
            },
            CodeEntry::Other => {},
        }
        i = i + 1;
    }
    proof {
        assert(entries@.take(i as int) =~= entries@);
    }
    out
}

/// In this language, whatever the case of the letters; one that names no language is in none.
pub open spec fn in_language(lang: Option<Seq<char>>) -> spec_fn(ExtractedCode) -> bool {
    |c: ExtractedCode|
        lang matches Some(l) ==> (c.language matches Some(own) && has(
            lowercase(own@),
            lowercase(l),
        ))
}

/// The blocks in a language, no more than the limit.
pub fn choose_blocks(list: Vec<ExtractedCode>, lang: &Option<String>, limit: Option<usize>) -> (r:
    Vec<ExtractedCode>)
    ensures
        ({
            let kept = list@.filter(in_language(text_view(*lang)));
            r@ == (match limit {
                Some(n) => first_of_list(kept, n as int),
                None => kept,
            })
        }),
{
    let test = |c: &ExtractedCode| -> (o: bool)
        ensures
            o == in_language(text_view(*lang))(*c),
        {
            match lang {
                Some(l) => match &c.language {
                    Some(own) => {
                        let needle = text::to_lowercase(l.as_str());
                        let lower = text::to_lowercase(own.as_str());
                        text::contains(lower.as_str(), needle.as_str())
                    },
                    None => false,
                },
                None => true,
            }
        };
    let mut kept = order::keep(list, test, Ghost(in_language(text_view(*lang))));
    match limit {
        Some(n) => {
            if n < kept.len() {
                kept.truncate(n);
            }
        },
        None => {},
    }
    kept
}

// ---------------------------------------------------------------------------
// Output
// ---------------------------------------------------------------------------

/// How blocks are printed.
#[derive(Debug, Clone, Copy, PartialEq, Eq)]
pub struct CodeStyle {
    /// With where they are from.
    pub metadata: bool,
    /// One after another, without anything round them.
    pub concatenate: bool,
    /// Into files.
    pub files: bool,
}

/// The first line of a text.
pub open spec fn first_line(s: Seq<char>) -> Seq<char> {
    if lines_of(s).len() > 0 {
        lines_of(s)[0]
    } else {
        Seq::empty()
    }
}

/// The first line of a text.
pub fn take_first_line(s: &str) -> (r: String)
    ensures
        r@ == first_line(s@),
{
    let lines = text::lines(s);
    proof {
        assert(views(lines@).len() == lines@.len());
    }
    if lines.len() > 0 {
        proof {
            assert(views(lines@)[0] == lines@[0]@);
        }
        lines[0].clone()
    } else {
        let empty = "".to_owned();
        proof {
            reveal_strlit("");
            assert(empty@ =~= Seq::empty());
        }
        empty
    }
}

/// The row of a block in a table of values: the first fifty characters of its first line.
pub open spec fn code_row(c: ExtractedCode) -> Seq<char> {
    decimal(c.index as nat) + "\t"@ + text_or(c.language, "-"@) + "\t"@ + c.source@ + "\t"@
        + shown_or(c.timestamp, "%Y-%m-%d %H:%M"@, "-"@) + "\t"@ + first_chars(first_line(c.code@), 50)
}

/// The lines of a block that stands without anything round it.
pub open spec fn plain_lines(i: int, c: ExtractedCode, metadata: bool) -> Seq<Seq<char>> {
    (if i > 0 {
        seq![""@]
    } else {
        Seq::empty()
    }) + (if metadata {
        seq![
            "# --- Block "@ + decimal(c.index as nat) + " ("@ + text_or(c.language, "text"@)
                + ", "@ + c.source@ + ") ---"@,
        ]
    } else {
        Seq::empty()
    }) + seq![c.code@]
}

/// The lines of a block.
pub open spec fn block_lines(c: ExtractedCode, metadata: bool) -> Seq<Seq<char>> {
    if metadata {
        seq![
            "=== Block "@ + decimal(c.index as nat) + " ==="@,
            "Language: "@ + text_or(c.language, "text"@),
            "Source: "@ + c.source@,
            "Timestamp: "@ + shown_or(c.timestamp, "%Y-%m-%d %H:%M:%S"@, "-"@),
            "Lines: "@ + decimal(lines_of(c.code@).len()),
            "---"@,
            c.code@,
            ""@,
        ]
    } else {
        seq!["```"@ + text_or(c.language, "text"@), c.code@, "```"@, ""@]
    }
}

/// What is printed of the blocks; for JSON there is a value instead.
pub open spec fn code_output(list: Seq<ExtractedCode>, style: CodeStyle, format: OutputFormat) -> Seq<
    Seq<char>,
> {
    match format {
        OutputFormat::Json => Seq::empty(),
        OutputFormat::Tsv => seq!["index\tlanguage\tsource\ttimestamp\tcode_preview"@]
            + list.map_values(|c: ExtractedCode| code_row(c)),
        _ => if style.concatenate {
            text::spread_numbered(
                list,
                |i: int, c: ExtractedCode| plain_lines(i, c, style.metadata),
            )
        } else if style.files {
            Seq::empty()
        } else {
            text::spread(list, |c: ExtractedCode| block_lines(c, style.metadata))
        },
    }
}

fn write_row(c: &ExtractedCode) -> (r: String)
    ensures
        r@ == code_row(*c),
{
    let place = text::size(c.index);
    let lang = write_or(&c.language, "-");
    let time = time::show_or(c.timestamp, "%Y-%m-%d %H:%M", "-");
    let lines = text::lines(c.code.as_str());
    let first: String = if lines.len() > 0 {
        lines[0].clone()
    } else {
        String::new()
    };
    proof {
        assert(views(lines@).len() == lines@.len());
        if lines@.len() > 0 {
            assert(views(lines@)[0] == lines@[0]@);
        }
        assert(first@ =~= first_line(c.code@));
    }
    let cut = text::take_chars(first.as_str(), 50);
    let head = text::cat4(place.as_str(), "\t", lang.as_str(), "\t");
    let middle = text::cat5(head.as_str(), c.source.as_str(), "\t", time.as_str(), "\t");
    text::cat2(middle.as_str(), cut.as_str())
}

fn write_plain(i: usize, c: &ExtractedCode, metadata: bool) -> (r: Vec<String>)
    ensures
        views(r@) == plain_lines(i as int, *c, metadata),
{
    let mut out: Vec<String> = Vec::new();
    if i > 0 {
        text::say(&mut out, "");
    }
    if metadata {
        let place = text::size(c.index);
        let lang = write_or(&c.language, "text");
        let head = text::cat4("# --- Block ", place.as_str(), " (", lang.as_str());
        text::say4(&mut out, head.as_str(), ", ", c.source.as_str(), ") ---");
    }
    text::say(&mut out, c.code.as_str());
    proof {
        assert(views(out@) =~= plain_lines(i as int, *c, metadata));
    }
    out
}

fn write_block(c: &ExtractedCode, metadata: bool) -> (r: Vec<String>)
    ensures
        views(r@) == block_lines(*c, metadata),
{
    let mut out: Vec<String> = Vec::new();
    let lang = write_or(&c.language, "text");
    if metadata {
        let place = text::size(c.index);
        let time = time::show_or(c.timestamp, "%Y-%m-%d %H:%M:%S", "-");
        let lines = text::lines(c.code.as_str());
        proof {
            assert(views(lines@).len() == lines@.len());
        }
        let count = text::size(lines.len());
        text::say3(&mut out, "=== Block ", place.as_str(), " ===");
        text::say2(&mut out, "Language: ", lang.as_str());
        text::say2(&mut out, "Source: ", c.source.as_str());
        text::say2(&mut out, "Timestamp: ", time.as_str());
        text::say2(&mut out, "Lines: ", count.as_str());
        text::say(&mut out, "---");
    } else {
        text::say2(&mut out, "```", lang.as_str());
    }
    text::say(&mut out, c.code.as_str());
    if !metadata {
        text::say(&mut out, "```");
    }
    text::say(&mut out, "");
    proof {
        assert(views(out@) =~= block_lines(*c, metadata));
    }
    out
}

/// What is printed of the blocks; for JSON see [`code_json`].
pub fn print_code(list: &Vec<ExtractedCode>, style: CodeStyle, format: OutputFormat) -> (r: Vec<
    String,
>)
    ensures
        views(r@) == code_output(list@, style, format),
{
    let mut out: Vec<String> = Vec::new();
    proof {
        assert(views(out@) =~= Seq::empty());
    }
    match format {
        OutputFormat::Json => {},
        OutputFormat::Tsv => {
            text::say(&mut out, "index\tlanguage\tsource\ttimestamp\tcode_preview");
            text::say_each(&mut out, list, write_row, Ghost(|c: ExtractedCode| code_row(c)));
        },
        _ => {
            let metadata: bool = style.metadata;
            if style.concatenate {
                let write = |i: usize, c: &ExtractedCode| -> (o: Vec<String>)
                    ensures
                        views(o@) == plain_lines(i as int, *c, metadata),
                    { write_plain(i, c, metadata) };
                let ghost g = |i: int, c: ExtractedCode| plain_lines(i, c, metadata);
                text::say_numbered(&mut out, list, write, Ghost(g));
            } else if !style.files {
                let write = |c: &ExtractedCode| -> (o: Vec<String>)
                    ensures
                        views(o@) == block_lines(*c, metadata),
                    { write_block(c, metadata) };
                let ghost g = |c: ExtractedCode| block_lines(c, metadata);
                text::say_all(&mut out, list, write, Ghost(g));
            }
        },
    }
    proof {
        assert(views(out@) =~= code_output(list@, style, format));
    }
    out
}

/// What is said behind the blocks: their number, where each was printed for itself.
pub fn extracted_notice(count: usize, style: CodeStyle, format: OutputFormat, quiet: bool) -> (r:
    Vec<String>)
    ensures
        views(r@) == (if (format is Text || format is Compact) && !quiet && !style.files
            && !style.concatenate {
            seq![""@, "Extracted "@ + decimal(count as nat) + " code block(s)"@]
        } else {
            Seq::empty()
        }),
{
    let mut out: Vec<String> = Vec::new();
    let for_people: bool = matches!(format, OutputFormat::Text) || matches!(
        format,
        OutputFormat::Compact
    );
    proof {
        assert(views(out@) =~= Seq::empty());
    }
    if for_people && !quiet && !style.files && !style.concatenate {
        let digits = text::size(count);
        text::say(&mut out, "");
        text::say3(&mut out, "Extracted ", digits.as_str(), " code block(s)");
        proof {
            assert(views(out@) =~= seq![
                ""@,
                "Extracted "@ + decimal(count as nat) + " code block(s)"@,
            ]);
        }
    }
    out
}

/// Whether the blocks are written to files of their own.
pub fn writes_files(style: CodeStyle, format: OutputFormat) -> (r: bool)
    ensures
        r == ((format is Text || format is Compact) && style.files && !style.concatenate),
{
    let for_people: bool = matches!(format, OutputFormat::Text) || matches!(
        format,
        OutputFormat::Compact
    );
    for_people && style.files && !style.concatenate
}

/// What is said of the files that were written.
pub fn written_notice(paths: &Vec<String>, directory: &str, quiet: bool) -> (r: Vec<String>)
    ensures
        views(r@) == (if quiet {
            Seq::empty()
        } else {
            views(paths@).map_values(|p: Seq<char>| "Wrote: "@ + p)
        }) + seq![""@, "Wrote "@ + decimal(paths@.len()) + " file(s) to "@ + directory@],
{
    let ghost g = |p: Seq<char>| "Wrote: "@ + p;
    let mut out: Vec<String> = Vec::new();
    proof {
        assert(views(out@) =~= Seq::empty());
    }
    if !quiet {
        let write = |p: &String| -> (o: String)
            ensures
                o@ == "Wrote: "@ + p@,
            { text::cat2("Wrote: ", p.as_str()) };
        text::say_each(&mut out, paths, write, Ghost(|p: String| g(p@)));
        proof {
            assert(views(out@) =~= views(paths@).map_values(g));
        }
    }
    let ghost first = views(out@);
    let digits = text::size(paths.len());
    text::say(&mut out, "");
    text::say4(&mut out, "Wrote ", digits.as_str(), " file(s) to ", directory);
    proof {
        assert(views(out@) =~= first + seq![
            ""@,
            "Wrote "@ + decimal(paths@.len()) + " file(s) to "@ + directory@,
        ]);
    }
    out
}

// ---------------------------------------------------------------------------
// Files
// ---------------------------------------------------------------------------

/// A character that may stand in the name of a file.
pub open spec fn is_safe(c: char) -> bool {
    ('a' <= c && c <= 'z') || ('A' <= c && c <= 'Z') || ('0' <= c && c <= '9') || c == '-' || c
        == '_'
}

fn safe(c: char) -> (r: bool)
    ensures
        r == is_safe(c),
{
    (c >= 'a' && c <= 'z') || (c >= 'A' && c <= 'Z') || (c >= '0' && c <= '9') || c == '-' || c
        == '_'
}

/// The first eight characters of an id that may stand in the name of a file; another word where
/// there are none.
pub open spec fn prefix_of(id: Seq<char>) -> Seq<char> {
    let kept = first_of_list(id.filter(|c: char| is_safe(c)), 8);
    if kept.len() == 0 {
        "session"@
    } else {
        kept
    }
}

/// The first eight characters of an id that may stand in the name of a file.
pub fn safe_session_prefix(native_id: &str) -> (r: String)
    ensures
        r@ == prefix_of(native_id@),
{
    let chars = text::chars_of(native_id);
    let ghost p = |c: char| is_safe(c);
    let fits = |c: &char| -> (o: bool)
        ensures
            o == p(*c),
        { safe(*c) };
    let mut kept = order::keep(chars, fits, Ghost(p));
    if 8 < kept.len() {
        kept.truncate(8);
    }
    if kept.len() == 0 {
        "session".to_owned()
    } else {
        let total: usize = kept.len();
        let prefix = text::text_of(&kept, 0, total);
        proof {
            assert(prefix@ =~= kept@);
        }
        prefix
    }
}

/// A prefix is one to eight characters long, all of which may stand in the name of a file.
pub proof fn prefixes_are_safe(id: Seq<char>)
    ensures
        1 <= prefix_of(id).len() <= 8,
        forall|i: int| 0 <= i < prefix_of(id).len() ==> is_safe(#[trigger] prefix_of(id)[i]),
{
    reveal_strlit("session");
    let p = |c: char| is_safe(c);
    let kept = id.filter(p);
    assert forall|i: int| 0 <= i < prefix_of(id).len() implies is_safe(
        #[trigger] prefix_of(id)[i],
    ) by {
        if first_of_list(kept, 8).len() > 0 {
            id.lemma_filter_pred(p, i);
        }
    }
}

/// The ending of the name of a file in a language, which is named in small letters.
pub open spec fn extension_for(l: Seq<char>) -> Seq<char> {
    if l == "rust"@ || l == "rs"@ {
        "rs"@
    } else if l == "python"@ || l == "py"@ {
        "py"@
    } else if l == "javascript"@ || l == "js"@ {
        "js"@
    } else if l == "typescript"@ || l == "ts"@ {
        "ts"@
    } else if l == "go"@ || l == "golang"@ {
        "go"@
    } else if l == "java"@ {
        "java"@
    } else if l == "c"@ {
        "c"@
    } else if l == "cpp"@ || l == "c++"@ {
        "cpp"@
    } else if l == "csharp"@ || l == "c#"@ || l == "cs"@ {
        "cs"@
    } else if l == "ruby"@ || l == "rb"@ {
        "rb"@
    } else if l == "php"@ {
        "php"@
    } else if l == "swift"@ {
        "swift"@
    } else if l == "kotlin"@ || l == "kt"@ {
        "kt"@
    } else if l == "scala"@ {
        "scala"@
    } else if l == "bash"@ || l == "sh"@ || l == "shell"@ {
        "sh"@
    } else if l == "zsh"@ {
        "zsh"@
    } else if l == "fish"@ {
        "fish"@
    } else if l == "powershell"@ || l == "ps1"@ {
        "ps1"@
    } else if l == "sql"@ {
        "sql"@
    } else if l == "html"@ {
        "html"@
    } else if l == "css"@ {
        "css"@
    } else if l == "scss"@ || l == "sass"@ {
        "scss"@
    } else if l == "less"@ {
        "less"@
    } else if l == "json"@ {
        "json"@
    } else if l == "yaml"@ || l == "yml"@ {
        "yaml"@
    } else if l == "toml"@ {
        "toml"@
    } else if l == "xml"@ {
        "xml"@
    } else if l == "markdown"@ || l == "md"@ {
        "md"@
    } else if l == "dockerfile"@ || l == "docker"@ {
        "dockerfile"@
    } else if l == "makefile"@ || l == "make"@ {
        "makefile"@
    } else if l == "lua"@ {
        "lua"@
    } else if l == "perl"@ || l == "pl"@ {
        "pl"@
    } else if l == "r"@ {
        "r"@
    } else if l == "julia"@ || l == "jl"@ {
        "jl"@
    } else if l == "elixir"@ || l == "ex"@ {
        "ex"@
    } else if l == "erlang"@ || l == "erl"@ {
        "erl"@
    } else if l == "haskell"@ || l == "hs"@ {
        "hs"@
    } else if l == "ocaml"@ || l == "ml"@ {
        "ml"@
    } else if l == "clojure"@ || l == "clj"@ {
        "clj"@
    } else if l == "vue"@ {
        "vue"@
    } else if l == "svelte"@ {
        "svelte"@
    } else if l == "jsx"@ {
        "jsx"@
    } else if l == "tsx"@ {
        "tsx"@
    } else if l == "graphql"@ || l == "gql"@ {
        "graphql"@
    } else if l == "proto"@ || l == "protobuf"@ {
        "proto"@
    } else if l == "terraform"@ || l == "tf"@ || l == "hcl"@ {
        "tf"@
    } else if l == "nix"@ {
        "nix"@
    } else if l == "zig"@ {
        "zig"@
    } else if l == "v"@ || l == "vlang"@ {
        "v"@
    } else if l == "nim"@ {
        "nim"@
    } else if l == "crystal"@ || l == "cr"@ {
        "cr"@
    } else if l == "dart"@ {
        "dart"@
    } else if l == "groovy"@ {
        "groovy"@
    } else if l == "assembly"@ || l == "asm"@ {
        "asm"@
    } else {
        "txt"@
    }
}

/// The ending of the name of a file in a language, which is named in small letters.
#[verifier::rlimit(40)]
pub fn extension_of_lower(lower: &str) -> (r: String)
    ensures
        r@ == extension_for(lower@),
{
    if text::same(lower, "rust") || text::same(lower, "rs") {
        "rs".to_owned()
    } else if text::same(lower, "python") || text::same(lower, "py") {
        "py".to_owned()
    } else if text::same(lower, "javascript") || text::same(lower, "js") {
        "js".to_owned()
    } else if text::same(lower, "typescript") || text::same(lower, "ts") {
        "ts".to_owned()
    } else if text::same(lower, "go") || text::same(lower, "golang") {
        "go".to_owned()
    } else if text::same(lower, "java") {
        "java".to_owned()
    } else if text::same(lower, "c") {
        "c".to_owned()
    } else if text::same(lower, "cpp") || text::same(lower, "c++") {
        "cpp".to_owned()
    } else if text::same(lower, "csharp") || text::same(lower, "c#") || text::same(lower, "cs") {
        "cs".to_owned()
    } else if text::same(lower, "ruby") || text::same(lower, "rb") {
        "rb".to_owned()
    } else if text::same(lower, "php") {
        "php".to_owned()
    } else if text::same(lower, "swift") {
        "swift".to_owned()
    } else if text::same(lower, "kotlin") || text::same(lower, "kt") {
        "kt".to_owned()
    } else if text::same(lower, "scala") {
        "scala".to_owned()
    } else if text::same(lower, "bash") || text::same(lower, "sh") || text::same(lower, "shell") {
        "sh".to_owned()
    } else if text::same(lower, "zsh") {
        "zsh".to_owned()
    } else if text::same(lower, "fish") {
        "fish".to_owned()
    } else if text::same(lower, "powershell") || text::same(lower, "ps1") {
        "ps1".to_owned()
    } else if text::same(lower, "sql") {
        "sql".to_owned()
    } else if text::same(lower, "html") {
        "html".to_owned()
    } else if text::same(lower, "css") {
        "css".to_owned()
    } else if text::same(lower, "scss") || text::same(lower, "sass") {
        "scss".to_owned()
    } else if text::same(lower, "less") {
        "less".to_owned()
    } else if text::same(lower, "json") {
        "json".to_owned()
    } else if text::same(lower, "yaml") || text::same(lower, "yml") {
        "yaml".to_owned()
    } else if text::same(lower, "toml") {
        "toml".to_owned()
    } else if text::same(lower, "xml") {
        "xml".to_owned()
    } else if text::same(lower, "markdown") || text::same(lower, "md") {
        "md".to_owned()
    } else if text::same(lower, "dockerfile") || text::same(lower, "docker") {
        "dockerfile".to_owned()
    } else if text::same(lower, "makefile") || text::same(lower, "make") {
        "makefile".to_owned()
    } else if text::same(lower, "lua") {
        "lua".to_owned()
    } else if text::same(lower, "perl") || text::same(lower, "pl") {
        "pl".to_owned()
    } else if text::same(lower, "r") {
        "r".to_owned()
    } else if text::same(lower, "julia") || text::same(lower, "jl") {
        "jl".to_owned()
    } else if text::same(lower, "elixir") || text::same(lower, "ex") {
        "ex".to_owned()
    } else if text::same(lower, "erlang") || text::same(lower, "erl") {
        "erl".to_owned()
    } else if text::same(lower, "haskell") || text::same(lower, "hs") {
        "hs".to_owned()
    } else if text::same(lower, "ocaml") || text::same(lower, "ml") {
        "ml".to_owned()
    } else if text::same(lower, "clojure") || text::same(lower, "clj") {
        "clj".to_owned()
    } else if text::same(lower, "vue") {
        "vue".to_owned()
    } else if text::same(lower, "svelte") {
        "svelte".to_owned()
    } else if text::same(lower, "jsx") {
        "jsx".to_owned()
    } else if text::same(lower, "tsx") {
        "tsx".to_owned()
    } else if text::same(lower, "graphql") || text::same(lower, "gql") {
        "graphql".to_owned()
    } else if text::same(lower, "proto") || text::same(lower, "protobuf") {
        "proto".to_owned()
    } else if text::same(lower, "terraform") || text::same(lower, "tf") || text::same(lower, "hcl") {
        "tf".to_owned()
    } else if text::same(lower, "nix") {
        "nix".to_owned()
    } else if text::same(lower, "zig") {
        "zig".to_owned()
    } else if text::same(lower, "v") || text::same(lower, "vlang") {
        "v".to_owned()
    } else if text::same(lower, "nim") {
        "nim".to_owned()
    } else if text::same(lower, "crystal") || text::same(lower, "cr") {
        "cr".to_owned()
    } else if text::same(lower, "dart") {
        "dart".to_owned()
    } else if text::same(lower, "groovy") {
        "groovy".to_owned()
    } else if text::same(lower, "assembly") || text::same(lower, "asm") {
        "asm".to_owned()
    } else {
        "txt".to_owned()
    }
}

/// The ending of the name of a file in a language.
pub fn language_to_extension(language: Option<&str>) -> (r: String)
    ensures
        r@ == (match language {
            Some(l) => extension_for(lowercase(l@)),
            None => "txt"@,
        }),
{
    match language {
        Some(l) => {
            let lower = text::to_lowercase(l);
            extension_of_lower(lower.as_str())
        },
        None => "txt".to_owned(),
    }
}

/// The name of the file of a block.
pub fn block_file_name(native_id: &str, c: &ExtractedCode) -> (r: String)
    ensures
        r@ == prefix_of(native_id@) + "_block_"@ + zero_filled(c.index as nat, 3) + "."@ + (
        match c.language {
            Some(l) => extension_for(lowercase(l@)),
            None => "txt"@,
        }),
{
    let prefix = safe_session_prefix(native_id);
    let place = text::zero_fill(c.index as u64, 3);
    let extension: String = match &c.language {
        Some(l) => language_to_extension(Some(l.as_str())),
        None => language_to_extension(None),
    };
    text::cat5(prefix.as_str(), "_block_", place.as_str(), ".", extension.as_str())
}

// ---------------------------------------------------------------------------
// As JSON
// ---------------------------------------------------------------------------

/// The fields of a block.
pub open spec fn block_fields(c: ExtractedCode) -> Seq<(Seq<char>, JsonView)> {
    seq![
        ("language"@, optional_text(c.language)),
        ("code"@, JsonView::Text(c.code@)),
        ("source"@, JsonView::Text(c.source@)),
        ("timestamp"@, time_json(c.timestamp, true)),
        ("index"@, number_json(c.index as nat)),
    ] + given_text("provider"@, c.provider) + given_text("qualified_id"@, c.qualified_id)
}

fn block_json(c: &ExtractedCode) -> (r: Json)
    ensures
        r@ == JsonView::Object(block_fields(*c)),
{
    let mut fields: Vec<(String, Json)> = Vec::new();
    let ghost before0 = fields_view(fields@);
    json::put(&mut fields, "language", json::of_option(&c.language));
    json::put(&mut fields, "code", json::of_text(c.code.as_str()));
    json::put(&mut fields, "source", json::of_text(c.source.as_str()));
    json::put(&mut fields, "timestamp", json::of_time(c.timestamp, true));
    json::put(&mut fields, "index", json::of_size(c.index));
    proof {
        assert(fields_view(fields@) =~= before0 + seq![
            ("language"@, optional_text(c.language)),
            ("code"@, JsonView::Text(c.code@)),
            ("source"@, JsonView::Text(c.source@)),
            ("timestamp"@, time_json(c.timestamp, true)),
            ("index"@, number_json(c.index as nat)),
        ]);
    }
    json::put_given_text(&mut fields, "provider", &c.provider);
    json::put_given_text(&mut fields, "qualified_id", &c.qualified_id);
    proof {
        assert(fields_view(fields@) =~= block_fields(*c));
    }
    Json::Object(fields)
}

/// The blocks as a JSON list.
pub fn code_json(list: &Vec<ExtractedCode>) -> (r: Json)
    ensures
        r@ == JsonView::Array(
            list@.map_values(|c: ExtractedCode| JsonView::Object(block_fields(c))),
        ),
{
    let ghost g = |c: ExtractedCode| JsonView::Object(block_fields(c));
    json::of_list(list, block_json, Ghost(g))
}

// ---------------------------------------------------------------------------
// Which code is taken
// ---------------------------------------------------------------------------

/// A further entry adds the blocks of a message: of the user only where a person wrote it and the
/// code of the assistant is not asked for alone, of the assistant unless the code of the user is
/// asked for alone, and of nobody else. Each block keeps its code, its language and the time of the
/// message, and names who wrote it.
pub proof fn entries_add_their_blocks(entries: Seq<CodeEntry>, e: CodeEntry, q: CodeQuery)
    ensures
        ({
            let before = all_code(entries, q);
            let after = all_code(entries.push(e), q);
            let added = after.skip(before.len() as int);
            &&& after.len() >= before.len() && after.take(before.len() as int) == before
            &&& e is Other ==> added.len() == 0
            &&& e matches CodeEntry::User { is_human, timestamp, blocks } ==> if is_human
                && !q.assistant_only {
                added.len() == blocks@.len() && forall|k: int|
                    0 <= k < added.len() ==> (#[trigger] added[k]).code == blocks@[k].code@
                        && added[k].language == text_view(blocks@[k].language) && added[k].source
                        == "user"@ && added[k].timestamp == timestamp
            } else {
                added.len() == 0
            }
            &&& e matches CodeEntry::Assistant { timestamp, blocks } ==> if !q.user_only {
                added.len() == blocks@.len() && forall|k: int|
                    0 <= k < added.len() ==> (#[trigger] added[k]).code == blocks@[k].code@
                        && added[k].language == text_view(blocks@[k].language) && added[k].source
                        == "assistant"@ && added[k].timestamp == timestamp
            } else {
                added.len() == 0
            }
        }),
{
    let before = all_code(entries, q);
    let after = all_code(entries.push(e), q);
    assert(entries.push(e).drop_last() =~= entries);
    assert(after == before + entry_code(e, before.len() as int, q));
    assert(after.take(before.len() as int) =~= before);
    assert(after.skip(before.len() as int) =~= entry_code(e, before.len() as int, q));
}

/// Where a language is asked for, exactly the blocks are left whose own language holds it without
/// regard to case; a block without a language is never left.
pub proof fn blocks_of_a_language_are_left(
    list: Seq<ExtractedCode>,
    lang: Option<Seq<char>>,
    c: ExtractedCode,
)
    ensures
        list.filter(in_language(lang)).contains(c) <==> list.contains(c) && (lang is Some ==> (
        c.language is Some && has(lowercase(c.language->0@), lowercase(lang->0)))),
{
    order::filtering_is_exact(list, in_language(lang));
    assert(list.filter(in_language(lang)).contains(c) <==> list.contains(c) && in_language(lang)(c));
}

/// An id of letters, digits, hyphens and underscores begins a file name with its first eight
/// characters, or with all of them where it has fewer.
pub proof fn plain_ids_begin_file_names(id: Seq<char>)
    requires
        id.len() > 0,
        forall|i: int|
            0 <= i < id.len() ==> ('a' <= #[trigger] id[i] && id[i] <= 'z') || ('A' <= id[i]
                && id[i] <= 'Z') || ('0' <= id[i] && id[i] <= '9') || id[i] == '-' || id[i] == '_',
    ensures
        prefix_of(id) == (if id.len() > 8 {
            id.take(8)
        } else {
            id
        }),
{
    let p = |c: char| is_safe(c);
    lemma_all_safe(id);
    assert(id.filter(p) == id);
}

proof fn lemma_all_safe(id: Seq<char>)
    requires
        forall|i: int| 0 <= i < id.len() ==> is_safe(#[trigger] id[i]),
    ensures
        id.filter(|c: char| is_safe(c)) == id,
    decreases id.len(),
{
    broadcast use Seq::lemma_filter_push;

    if id.len() > 0 {
        let front = id.drop_last();
        assert forall|i: int| 0 <= i < front.len() implies is_safe(#[trigger] front[i]) by {
            assert(front[i] == id[i]);
        }
        lemma_all_safe(front);
        assert(id =~= front.push(id.last()));
        assert(is_safe(id[id.len() - 1]));
    }
}

// ---------------------------------------------------------------------------
// What calls hand back
// ---------------------------------------------------------------------------

/// The session that is meant is the first whose id begins with what was asked for; it is missing
/// if and only if no id does.
pub proof fn first_session_is_meant(
    ids: Vec<String>,
    asked: &str,
    r: Result<usize, SnatchError>,
    k: int,
    rest: Seq<char>,
)
    requires
        0 <= k < ids@.len(),
        ids@[k]@ == asked@ + rest,
    ensures
        call_ensures(find_session, (&ids, asked), r) ==> (r matches Ok(found) && found <= k
            && begins(ids@[found as int]@, asked@)),
{
    text::parts_make_the_whole(ids@[k]@, asked@, Seq::empty(), rest);
    assert(is_meant(ids@[k], asked@));
    if call_ensures(find_session, (&ids, asked), r) {
        match r {
            Ok(found) => {
                assert(is_meant(ids@[found as int], asked@));
                if k < found {
                    assert(!is_meant(ids@[k], asked@));
                }
            },
            Err(_) => {
                assert(!is_meant(ids@[k], asked@));
            },
        }
    }
}

/// Files are written only where they were asked for, one to a block, and only by formats that
/// people read.
pub proof fn files_are_written_for_people(style: CodeStyle, format: OutputFormat, r: bool)
    ensures
        call_ensures(writes_files, (style, format), r) ==> {
            &&& r ==> style.files && !style.concatenate
            &&& style.files && !style.concatenate ==> (r <==> format is Text || format is Compact)
        },
{
}

/// Blocks of a language that is not asked for are left out, those that are left keep coming from
/// the session, and no more of them than the limit.
pub proof fn chosen_blocks_are_few(
    list: Vec<ExtractedCode>,
    lang: Option<String>,
    limit: Option<usize>,
    r: Vec<ExtractedCode>,
)
    ensures
        call_ensures(choose_blocks, (list, &lang, limit), r) ==> {
            &&& limit matches Some(n) ==> r@.len() <= n
            &&& forall|k: int| 0 <= k < r@.len() ==> list@.contains(#[trigger] r@[k])
            &&& lang is None && limit is None ==> r@.len() == list@.len()
            &&& lang is None ==> (limit matches Some(n) ==> n <= list@.len() ==> r@.len() == n)
        },
{
    let p = in_language(text_view(lang));
    let kept = list@.filter(p);
    order::filtering_is_exact(list@, p);
    assert forall|k: int| 0 <= k < kept.len() implies list@.contains(#[trigger] kept[k]) by {
        assert(kept.contains(kept[k]));
    }
    if lang is None {
        lemma_all_blocks_stay(list@, p);
    }
}

proof fn lemma_all_blocks_stay(list: Seq<ExtractedCode>, p: spec_fn(ExtractedCode) -> bool)
    requires
        forall|c: ExtractedCode| #[trigger] p(c),
    ensures
        list.filter(p) == list,
    decreases list.len(),
{
    reveal(Seq::filter);
    if list.len() > 0 {
        lemma_all_blocks_stay(list.drop_last(), p);
        assert(list.drop_last().push(list.last()) =~= list);
    } else {
        assert(list.filter(p) =~= list);
    }
}

// ---------------------------------------------------------------------------
// Endings of files
// ---------------------------------------------------------------------------

/// A language gives its files the ending that goes with it, under each of its names; no name at
/// all, and one longer than any of these, gives them the ending of plain text.
#[verifier::rlimit(100)]
pub proof fn languages_have_their_endings(l: Seq<char>)
    ensures
        l == "rust"@ || l == "rs"@ ==> extension_for(l) == "rs"@,
        l == "python"@ || l == "py"@ ==> extension_for(l) == "py"@,
        l == "javascript"@ || l == "js"@ ==> extension_for(l) == "js"@,
        l == "typescript"@ || l == "ts"@ ==> extension_for(l) == "ts"@,
        l == "go"@ || l == "golang"@ ==> extension_for(l) == "go"@,
        l == "java"@ ==> extension_for(l) == "java"@,
        l == "c"@ ==> extension_for(l) == "c"@,
        l == "cpp"@ || l == "c++"@ ==> extension_for(l) == "cpp"@,
        l == "csharp"@ || l == "c#"@ || l == "cs"@ ==> extension_for(l) == "cs"@,
        l == "ruby"@ || l == "rb"@ ==> extension_for(l) == "rb"@,
        l == "php"@ ==> extension_for(l) == "php"@,
        l == "swift"@ ==> extension_for(l) == "swift"@,
        l == "kotlin"@ || l == "kt"@ ==> extension_for(l) == "kt"@,
        l == "scala"@ ==> extension_for(l) == "scala"@,
        l == "bash"@ || l == "sh"@ || l == "shell"@ ==> extension_for(l) == "sh"@,
        l == "zsh"@ ==> extension_for(l) == "zsh"@,
        l == "fish"@ ==> extension_for(l) == "fish"@,
        l == "powershell"@ || l == "ps1"@ ==> extension_for(l) == "ps1"@,
        l == "sql"@ ==> extension_for(l) == "sql"@,
        l == "html"@ ==> extension_for(l) == "html"@,
        l == "css"@ ==> extension_for(l) == "css"@,
        l == "scss"@ || l == "sass"@ ==> extension_for(l) == "scss"@,
        l == "less"@ ==> extension_for(l) == "less"@,
        l == "json"@ ==> extension_for(l) == "json"@,
        l == "yaml"@ || l == "yml"@ ==> extension_for(l) == "yaml"@,
        l == "toml"@ ==> extension_for(l) == "toml"@,
        l == "xml"@ ==> extension_for(l) == "xml"@,
        l == "markdown"@ || l == "md"@ ==> extension_for(l) == "md"@,
        l == "dockerfile"@ || l == "docker"@ ==> extension_for(l) == "dockerfile"@,
        l == "makefile"@ || l == "make"@ ==> extension_for(l) == "makefile"@,
        l == "lua"@ ==> extension_for(l) == "lua"@,
        l == "perl"@ || l == "pl"@ ==> extension_for(l) == "pl"@,
        l == "r"@ ==> extension_for(l) == "r"@,
        l == "julia"@ || l == "jl"@ ==> extension_for(l) == "jl"@,
        l == "elixir"@ || l == "ex"@ ==> extension_for(l) == "ex"@,
        l == "erlang"@ || l == "erl"@ ==> extension_for(l) == "erl"@,
        l == "haskell"@ || l == "hs"@ ==> extension_for(l) == "hs"@,
        l == "ocaml"@ || l == "ml"@ ==> extension_for(l) == "ml"@,
        l == "clojure"@ || l == "clj"@ ==> extension_for(l) == "clj"@,
        l == "vue"@ ==> extension_for(l) == "vue"@,
        l == "svelte"@ ==> extension_for(l) == "svelte"@,
        l == "jsx"@ ==> extension_for(l) == "jsx"@,
        l == "tsx"@ ==> extension_for(l) == "tsx"@,
        l == "graphql"@ || l == "gql"@ ==> extension_for(l) == "graphql"@,
        l == "proto"@ || l == "protobuf"@ ==> extension_for(l) == "proto"@,
        l == "terraform"@ || l == "tf"@ || l == "hcl"@ ==> extension_for(l) == "tf"@,
        l == "nix"@ ==> extension_for(l) == "nix"@,
        l == "zig"@ ==> extension_for(l) == "zig"@,
        l == "v"@ || l == "vlang"@ ==> extension_for(l) == "v"@,
        l == "nim"@ ==> extension_for(l) == "nim"@,
        l == "crystal"@ || l == "cr"@ ==> extension_for(l) == "cr"@,
        l == "dart"@ ==> extension_for(l) == "dart"@,
        l == "groovy"@ ==> extension_for(l) == "groovy"@,
        l == "assembly"@ || l == "asm"@ ==> extension_for(l) == "asm"@,
        l.len() > 10 || l.len() == 0 ==> extension_for(l) == "txt"@,
{
    reveal_strlit("asm");
    reveal_strlit("assembly");
    reveal_strlit("bash");
    reveal_strlit("c");
    reveal_strlit("c#");
    reveal_strlit("c++");
    reveal_strlit("clj");
    reveal_strlit("clojure");
    reveal_strlit("cpp");
    reveal_strlit("cr");
    reveal_strlit("crystal");
    reveal_strlit("cs");
    reveal_strlit("csharp");
    reveal_strlit("css");
    reveal_strlit("dart");
    reveal_strlit("docker");
    reveal_strlit("dockerfile");
    reveal_strlit("elixir");
    reveal_strlit("erl");
    reveal_strlit("erlang");
    reveal_strlit("ex");
    reveal_strlit("fish");
    reveal_strlit("go");
    reveal_strlit("golang");
    reveal_strlit("gql");
    reveal_strlit("graphql");
    reveal_strlit("groovy");
    reveal_strlit("haskell");
    reveal_strlit("hcl");
    reveal_strlit("hs");
    reveal_strlit("html");
    reveal_strlit("java");
    reveal_strlit("javascript");
    reveal_strlit("jl");
    reveal_strlit("js");
    reveal_strlit("json");
    reveal_strlit("jsx");
    reveal_strlit("julia");
    reveal_strlit("kotlin");
    reveal_strlit("kt");
    reveal_strlit("less");
    reveal_strlit("lua");
    reveal_strlit("make");
    reveal_strlit("makefile");
    reveal_strlit("markdown");
    reveal_strlit("md");
    reveal_strlit("ml");
    reveal_strlit("nim");
    reveal_strlit("nix");
    reveal_strlit("ocaml");
    reveal_strlit("perl");
    reveal_strlit("php");
    reveal_strlit("pl");
    reveal_strlit("powershell");
    reveal_strlit("proto");
    reveal_strlit("protobuf");
    reveal_strlit("ps1");
    reveal_strlit("py");
    reveal_strlit("python");
    reveal_strlit("r");
    reveal_strlit("rb");
    reveal_strlit("rs");
    reveal_strlit("ruby");
    reveal_strlit("rust");
    reveal_strlit("sass");
    reveal_strlit("scala");
    reveal_strlit("scss");
    reveal_strlit("sh");
    reveal_strlit("shell");
    reveal_strlit("sql");
    reveal_strlit("svelte");
    reveal_strlit("swift");
    reveal_strlit("terraform");
    reveal_strlit("tf");
    reveal_strlit("toml");
    reveal_strlit("ts");
    reveal_strlit("tsx");
    reveal_strlit("txt");
    reveal_strlit("typescript");
    reveal_strlit("v");
    reveal_strlit("vlang");
    reveal_strlit("vue");
    reveal_strlit("xml");
    reveal_strlit("yaml");
    reveal_strlit("yml");
    reveal_strlit("zig");
    reveal_strlit("zsh");
    assert("asm"@[0] == 'a' && "asm"@[1] == 's' && "asm"@[2] == 'm');
    assert("assembly"@[0] == 'a' && "assembly"@[1] == 's' && "assembly"@[2] == 's' && "assembly"@[3] == 'e' && "assembly"@[4] == 'm' && "assembly"@[5] == 'b' && "assembly"@[6] == 'l' && "assembly"@[7] == 'y');
    assert("bash"@[0] == 'b' && "bash"@[1] == 'a' && "bash"@[2] == 's' && "bash"@[3] == 'h');
    assert("c"@[0] == 'c');
    assert("c#"@[0] == 'c' && "c#"@[1] == '#');
    assert("c++"@[0] == 'c' && "c++"@[1] == '+' && "c++"@[2] == '+');
    assert("clj"@[0] == 'c' && "clj"@[1] == 'l' && "clj"@[2] == 'j');
    assert("clojure"@[0] == 'c' && "clojure"@[1] == 'l' && "clojure"@[2] == 'o' && "clojure"@[3] == 'j' && "clojure"@[4] == 'u' && "clojure"@[5] == 'r' && "clojure"@[6] == 'e');
    assert("cpp"@[0] == 'c' && "cpp"@[1] == 'p' && "cpp"@[2] == 'p');
    assert("cr"@[0] == 'c' && "cr"@[1] == 'r');
    assert("crystal"@[0] == 'c' && "crystal"@[1] == 'r' && "crystal"@[2] == 'y' && "crystal"@[3] == 's' && "crystal"@[4] == 't' && "crystal"@[5] == 'a' && "crystal"@[6] == 'l');
    assert("cs"@[0] == 'c' && "cs"@[1] == 's');
    assert("csharp"@[0] == 'c' && "csharp"@[1] == 's' && "csharp"@[2] == 'h' && "csharp"@[3] == 'a' && "csharp"@[4] == 'r' && "csharp"@[5] == 'p');
    assert("css"@[0] == 'c' && "css"@[1] == 's' && "css"@[2] == 's');
    assert("dart"@[0] == 'd' && "dart"@[1] == 'a' && "dart"@[2] == 'r' && "dart"@[3] == 't');
    assert("docker"@[0] == 'd' && "docker"@[1] == 'o' && "docker"@[2] == 'c' && "docker"@[3] == 'k' && "docker"@[4] == 'e' && "docker"@[5] == 'r');
    assert("dockerfile"@[0] == 'd' && "dockerfile"@[1] == 'o' && "dockerfile"@[2] == 'c' && "dockerfile"@[3] == 'k' && "dockerfile"@[4] == 'e' && "dockerfile"@[5] == 'r' && "dockerfile"@[6] == 'f' && "dockerfile"@[7] == 'i' && "dockerfile"@[8] == 'l' && "dockerfile"@[9] == 'e');
    assert("elixir"@[0] == 'e' && "elixir"@[1] == 'l' && "elixir"@[2] == 'i' && "elixir"@[3] == 'x' && "elixir"@[4] == 'i' && "elixir"@[5] == 'r');
    assert("erl"@[0] == 'e' && "erl"@[1] == 'r' && "erl"@[2] == 'l');
    assert("erlang"@[0] == 'e' && "erlang"@[1] == 'r' && "erlang"@[2] == 'l' && "erlang"@[3] == 'a' && "erlang"@[4] == 'n' && "erlang"@[5] == 'g');
    assert("ex"@[0] == 'e' && "ex"@[1] == 'x');
    assert("fish"@[0] == 'f' && "fish"@[1] == 'i' && "fish"@[2] == 's' && "fish"@[3] == 'h');
    assert("go"@[0] == 'g' && "go"@[1] == 'o');
    assert("golang"@[0] == 'g' && "golang"@[1] == 'o' && "golang"@[2] == 'l' && "golang"@[3] == 'a' && "golang"@[4] == 'n' && "golang"@[5] == 'g');
    assert("gql"@[0] == 'g' && "gql"@[1] == 'q' && "gql"@[2] == 'l');
    assert("graphql"@[0] == 'g' && "graphql"@[1] == 'r' && "graphql"@[2] == 'a' && "graphql"@[3] == 'p' && "graphql"@[4] == 'h' && "graphql"@[5] == 'q' && "graphql"@[6] == 'l');
    assert("groovy"@[0] == 'g' && "groovy"@[1] == 'r' && "groovy"@[2] == 'o' && "groovy"@[3] == 'o' && "groovy"@[4] == 'v' && "groovy"@[5] == 'y');
    assert("haskell"@[0] == 'h' && "haskell"@[1] == 'a' && "haskell"@[2] == 's' && "haskell"@[3] == 'k' && "haskell"@[4] == 'e' && "haskell"@[5] == 'l' && "haskell"@[6] == 'l');
    assert("hcl"@[0] == 'h' && "hcl"@[1] == 'c' && "hcl"@[2] == 'l');
    assert("hs"@[0] == 'h' && "hs"@[1] == 's');
    assert("html"@[0] == 'h' && "html"@[1] == 't' && "html"@[2] == 'm' && "html"@[3] == 'l');
    assert("java"@[0] == 'j' && "java"@[1] == 'a' && "java"@[2] == 'v' && "java"@[3] == 'a');
    assert("javascript"@[0] == 'j' && "javascript"@[1] == 'a' && "javascript"@[2] == 'v' && "javascript"@[3] == 'a' && "javascript"@[4] == 's' && "javascript"@[5] == 'c' && "javascript"@[6] == 'r' && "javascript"@[7] == 'i' && "javascript"@[8] == 'p' && "javascript"@[9] == 't');
    assert("jl"@[0] == 'j' && "jl"@[1] == 'l');
    assert("js"@[0] == 'j' && "js"@[1] == 's');
    assert("json"@[0] == 'j' && "json"@[1] == 's' && "json"@[2] == 'o' && "json"@[3] == 'n');
    assert("jsx"@[0] == 'j' && "jsx"@[1] == 's' && "jsx"@[2] == 'x');
    assert("julia"@[0] == 'j' && "julia"@[1] == 'u' && "julia"@[2] == 'l' && "julia"@[3] == 'i' && "julia"@[4] == 'a');
    assert("kotlin"@[0] == 'k' && "kotlin"@[1] == 'o' && "kotlin"@[2] == 't' && "kotlin"@[3] == 'l' && "kotlin"@[4] == 'i' && "kotlin"@[5] == 'n');
    assert("kt"@[0] == 'k' && "kt"@[1] == 't');
    assert("less"@[0] == 'l' && "less"@[1] == 'e' && "less"@[2] == 's' && "less"@[3] == 's');
    assert("lua"@[0] == 'l' && "lua"@[1] == 'u' && "lua"@[2] == 'a');
    assert("make"@[0] == 'm' && "make"@[1] == 'a' && "make"@[2] == 'k' && "make"@[3] == 'e');
    assert("makefile"@[0] == 'm' && "makefile"@[1] == 'a' && "makefile"@[2] == 'k' && "makefile"@[3] == 'e' && "makefile"@[4] == 'f' && "makefile"@[5] == 'i' && "makefile"@[6] == 'l' && "makefile"@[7] == 'e');
    assert("markdown"@[0] == 'm' && "markdown"@[1] == 'a' && "markdown"@[2] == 'r' && "markdown"@[3] == 'k' && "markdown"@[4] == 'd' && "markdown"@[5] == 'o' && "markdown"@[6] == 'w' && "markdown"@[7] == 'n');
    assert("md"@[0] == 'm' && "md"@[1] == 'd');
    assert("ml"@[0] == 'm' && "ml"@[1] == 'l');
    assert("nim"@[0] == 'n' && "nim"@[1] == 'i' && "nim"@[2] == 'm');
    assert("nix"@[0] == 'n' && "nix"@[1] == 'i' && "nix"@[2] == 'x');
    assert("ocaml"@[0] == 'o' && "ocaml"@[1] == 'c' && "ocaml"@[2] == 'a' && "ocaml"@[3] == 'm' && "ocaml"@[4] == 'l');
    assert("perl"@[0] == 'p' && "perl"@[1] == 'e' && "perl"@[2] == 'r' && "perl"@[3] == 'l');
    assert("php"@[0] == 'p' && "php"@[1] == 'h' && "php"@[2] == 'p');
    assert("pl"@[0] == 'p' && "pl"@[1] == 'l');
    assert("powershell"@[0] == 'p' && "powershell"@[1] == 'o' && "powershell"@[2] == 'w' && "powershell"@[3] == 'e' && "powershell"@[4] == 'r' && "powershell"@[5] == 's' && "powershell"@[6] == 'h' && "powershell"@[7] == 'e' && "powershell"@[8] == 'l' && "powershell"@[9] == 'l');
    assert("proto"@[0] == 'p' && "proto"@[1] == 'r' && "proto"@[2] == 'o' && "proto"@[3] == 't' && "proto"@[4] == 'o');
    assert("protobuf"@[0] == 'p' && "protobuf"@[1] == 'r' && "protobuf"@[2] == 'o' && "protobuf"@[3] == 't' && "protobuf"@[4] == 'o' && "protobuf"@[5] == 'b' && "protobuf"@[6] == 'u' && "protobuf"@[7] == 'f');
    assert("ps1"@[0] == 'p' && "ps1"@[1] == 's' && "ps1"@[2] == '1');
    assert("py"@[0] == 'p' && "py"@[1] == 'y');
    assert("python"@[0] == 'p' && "python"@[1] == 'y' && "python"@[2] == 't' && "python"@[3] == 'h' && "python"@[4] == 'o' && "python"@[5] == 'n');
    assert("r"@[0] == 'r');
    assert("rb"@[0] == 'r' && "rb"@[1] == 'b');
    assert("rs"@[0] == 'r' && "rs"@[1] == 's');
    assert("ruby"@[0] == 'r' && "ruby"@[1] == 'u' && "ruby"@[2] == 'b' && "ruby"@[3] == 'y');
    assert("rust"@[0] == 'r' && "rust"@[1] == 'u' && "rust"@[2] == 's' && "rust"@[3] == 't');
    assert("sass"@[0] == 's' && "sass"@[1] == 'a' && "sass"@[2] == 's' && "sass"@[3] == 's');
    assert("scala"@[0] == 's' && "scala"@[1] == 'c' && "scala"@[2] == 'a' && "scala"@[3] == 'l' && "scala"@[4] == 'a');
    assert("scss"@[0] == 's' && "scss"@[1] == 'c' && "scss"@[2] == 's' && "scss"@[3] == 's');
    assert("sh"@[0] == 's' && "sh"@[1] == 'h');
    assert("shell"@[0] == 's' && "shell"@[1] == 'h' && "shell"@[2] == 'e' && "shell"@[3] == 'l' && "shell"@[4] == 'l');
    assert("sql"@[0] == 's' && "sql"@[1] == 'q' && "sql"@[2] == 'l');
    assert("svelte"@[0] == 's' && "svelte"@[1] == 'v' && "svelte"@[2] == 'e' && "svelte"@[3] == 'l' && "svelte"@[4] == 't' && "svelte"@[5] == 'e');
    assert("swift"@[0] == 's' && "swift"@[1] == 'w' && "swift"@[2] == 'i' && "swift"@[3] == 'f' && "swift"@[4] == 't');
    assert("tf"@[0] == 't' && "tf"@[1] == 'f');
    assert("toml"@[0] == 't' && "toml"@[1] == 'o' && "toml"@[2] == 'm' && "toml"@[3] == 'l');
    assert("ts"@[0] == 't' && "ts"@[1] == 's');
    assert("tsx"@[0] == 't' && "tsx"@[1] == 's' && "tsx"@[2] == 'x');
    assert("txt"@[0] == 't' && "txt"@[1] == 'x' && "txt"@[2] == 't');
    assert("typescript"@[0] == 't' && "typescript"@[1] == 'y' && "typescript"@[2] == 'p' && "typescript"@[3] == 'e' && "typescript"@[4] == 's' && "typescript"@[5] == 'c' && "typescript"@[6] == 'r' && "typescript"@[7] == 'i' && "typescript"@[8] == 'p' && "typescript"@[9] == 't');
    assert("v"@[0] == 'v');
    assert("vlang"@[0] == 'v' && "vlang"@[1] == 'l' && "vlang"@[2] == 'a' && "vlang"@[3] == 'n' && "vlang"@[4] == 'g');
    assert("vue"@[0] == 'v' && "vue"@[1] == 'u' && "vue"@[2] == 'e');
    assert("xml"@[0] == 'x' && "xml"@[1] == 'm' && "xml"@[2] == 'l');
    assert("yaml"@[0] == 'y' && "yaml"@[1] == 'a' && "yaml"@[2] == 'm' && "yaml"@[3] == 'l');
    assert("yml"@[0] == 'y' && "yml"@[1] == 'm' && "yml"@[2] == 'l');
    assert("zig"@[0] == 'z' && "zig"@[1] == 'i' && "zig"@[2] == 'g');
    assert("zsh"@[0] == 'z' && "zsh"@[1] == 's' && "zsh"@[2] == 'h');
}

} // verus!
