//! Which sessions changed a file.
use vstd::prelude::*;

use crate::commands::helpers;
use crate::commands::helpers::{has_short_id, id_head, text_view};
use crate::json;
use crate::json::{fields_view, number_json, optional_text, texts_json, time_json, Json, JsonView};
use crate::model::Project;
use crate::order;
use crate::order::{first_of_list, sorted_by};
use crate::text;
use crate::text::{decimal, has, precedes, views};
use crate::time;
use crate::time::shown_or;

verus! {

/// Arguments for the history of a file.
#[derive(Debug, Clone, PartialEq, Eq)]
pub struct FileHistoryArgs {
    /// What the path of the file holds.
    pub path: String,
    /// What the path of the project holds.
    pub project: Option<String>,
    /// The most changes that are shown.
    pub limit: usize,
    /// The providers to search; none for the directory.
    pub provider: Vec<String>,
}

/// A change of a file.
#[derive(Debug, Clone, PartialEq, Eq)]
pub struct FileModification {
    /// The session.
    pub session_id: String,
    /// Its project.
    pub project_path: String,
    /// The message.
    pub message_id: String,
    /// When.
    pub timestamp: i128,
    /// The version of the file.
    pub version: u64,
}

/// A file and its changes.
#[derive(Debug, Clone, PartialEq, Eq)]
pub struct FileMatch {
    /// Its path.
    pub path: String,
    /// Its changes.
    pub changes: Vec<FileModification>,
}

/// Whether providers are searched.
pub fn uses_provider(args: &FileHistoryArgs) -> (r: bool)
    ensures
        r == (args.provider@.len() > 0),
{
    args.provider.len() > 0
}

/// A project whose path holds a text.
pub open spec fn project_fits(project: Option<Seq<char>>) -> spec_fn(Project) -> bool {
    |p: Project| project matches Some(t) ==> has(p.best_path@, t)
}

/// The projects whose sessions are searched.
pub fn projects_to_search(projects: Vec<Project>, project: &Option<String>) -> (r: Vec<Project>)
    ensures
        r@ == projects@.filter(project_fits(text_view(*project))),
{
    let ghost p = project_fits(text_view(*project));
    let test = |q: &Project| -> (o: bool)
        ensures
            o == p(*q),
        {
            match project {
                Some(t) => text::contains(q.best_path.as_str(), t.as_str()),
                None => true,
            }
        };
    order::keep(projects, test, Ghost(p))
}

/// The order of files by their paths.
pub open spec fn by_path() -> spec_fn(FileMatch, FileMatch) -> bool {
    |a: FileMatch, b: FileMatch| precedes(a.path@, b.path@)
}

/// The files in the order of their paths.
pub fn order_files(files: Vec<FileMatch>) -> (r: Vec<FileMatch>)
    ensures
        r@ == sorted_by(files@, by_path()),
{
    let earlier = |a: &FileMatch, b: &FileMatch| -> (o: bool)
        ensures
            o == precedes(a.path@, b.path@),
        { text::before(a.path.as_str(), b.path.as_str()) };
    order::sort(files, earlier, Ghost(by_path()))
}

// ---------------------------------------------------------------------------
// For a reader
// ---------------------------------------------------------------------------

/// The ids of a change can be shown.
pub open spec fn ids_fit(m: FileModification) -> bool {
    has_short_id(m.session_id@) && has_short_id(m.message_id@)
}

/// The line of a change.
pub open spec fn change_line(m: FileModification) -> Seq<char> {
    "    "@ + id_head(m.session_id@) + " v"@ + decimal(m.version as nat) + " ("@ + shown_or(
        Some(m.timestamp),
        "%Y-%m-%d %H:%M UTC"@,
        ""@,
    ) + ") ["@ + id_head(m.message_id@) + "]"@
}

fn write_change(m: &FileModification) -> (r: String)
    requires
        ids_fit(*m),
    ensures
        r@ == change_line(*m),
{
    let session = helpers::short_id(m.session_id.as_str());
    let message = helpers::short_id(m.message_id.as_str());
    let version = text::number(m.version);
    let at = time::show_or(Some(m.timestamp), "%Y-%m-%d %H:%M UTC", "");
    let a = text::cat5("    ", session.as_str(), " v", version.as_str(), " (");
    text::cat5(a.as_str(), at.as_str(), ") [", message.as_str(), "]")
}

/// The number of changes of some files.
pub open spec fn change_count(files: Seq<FileMatch>) -> nat
    decreases files.len(),
{
    if files.len() == 0 {
        0
    } else {
        change_count(files.drop_last()) + files.last().changes@.len()
    }
}

fn count_changes(files: &Vec<FileMatch>) -> (r: u128)
    ensures
        r == change_count(files@),
{
    let mut total: u128 = 0;
    let mut i: usize = 0;
    proof {
        assert(files@.take(0) =~= Seq::empty());
    }
    while i < files.len()
        invariant
            i <= files@.len(),
            total == change_count(files@.take(i as int)),
            total <= i * 0xffff_ffff_ffff_ffff,
        decreases files@.len() - i,
    {
        proof {
            let next = files@.take(i + 1);
            assert(next.drop_last() =~= files@.take(i as int));
            assert(next.last() == files@[i as int]);
        }
        total = total + files[i].changes.len() as u128;
        i = i + 1;
    }
    proof {
        assert(files@.take(i as int) =~= files@);
    }
    total
}

/// The lines of a file, with this many changes at most.
pub open spec fn file_lines(f: FileMatch, most: int) -> Seq<Seq<char>> {
    (seq!["  "@ + f.path@] + first_of_list(f.changes@, most).map_values(
        |m: FileModification| change_line(m),
    )).push(""@)
}

/// The number of changes of a file that are shown.
pub open spec fn shown_of(f: FileMatch, most: int) -> int {
    if f.changes@.len() <= most {
        f.changes@.len() as int
    } else {
        most
    }
}

/// The lines of the files from one on, until this many changes are shown.
pub open spec fn files_lines(files: Seq<FileMatch>, from: int, left: int) -> Seq<Seq<char>>
    decreases files.len() - from,
{
    if from < 0 || from >= files.len() || left <= 0 {
        Seq::empty()
    } else {
        file_lines(files[from], left) + files_lines(
            files,
            from + 1,
            left - shown_of(files[from], left),
        )
    }
}

/// The ids of the changes that are shown, from a file on, can be shown.
pub open spec fn shown_ids_fit(files: Seq<FileMatch>, from: int, left: int) -> bool
    decreases files.len() - from,
{
    if from < 0 || from >= files.len() || left <= 0 {
        true
    } else {
        first_ids_fit(files[from], left) && shown_ids_fit(
            files,
            from + 1,
            left - shown_of(files[from], left),
        )
    }
}

/// The ids of the first changes of a file can be shown.
pub open spec fn first_ids_fit(f: FileMatch, most: int) -> bool {
    forall|k: int| 0 <= k < f.changes@.len() && k < most ==> ids_fit(#[trigger] f.changes@[k])
}

fn write_file(f: &FileMatch, most: usize) -> (r: Vec<String>)
    requires
        first_ids_fit(*f, most as int),
    ensures
        views(r@) == file_lines(*f, most as int),
{
    let mut out: Vec<String> = Vec::new();
    text::say2(&mut out, "  ", f.path.as_str());
    let ghost cut = first_of_list(f.changes@, most as int).map_values(
        |m: FileModification| change_line(m),
    );
    let head: usize = if f.changes.len() <= most {
        f.changes.len()
    } else {
        most
    };
    let mut i: usize = 0;
    proof {
        assert(views(out@) =~= seq!["  "@ + f.path@] + cut.take(0));
    }
    while i < head
        invariant
            i <= head <= f.changes@.len(),
            head <= most,
            cut.len() == head,
            forall|k: int| 0 <= k < head ==> #[trigger] cut[k] == change_line(f.changes@[k]),
            first_ids_fit(*f, most as int),
            views(out@) == seq!["  "@ + f.path@] + cut.take(i as int),
        decreases head - i,
    {
        let line = write_change(&f.changes[i]);
        text::say(&mut out, line.as_str());
        proof {
            assert(cut.take(i + 1) =~= cut.take(i as int).push(cut[i as int]));
            assert(views(out@) =~= seq!["  "@ + f.path@] + cut.take(i + 1));
        }
        i = i + 1;
    }
    text::say(&mut out, "");
    proof {
        assert(cut.take(i as int) =~= cut);
    }
    out
}

/// The files and their changes, for a reader.
pub open spec fn history_lines(path: Seq<char>, files: Seq<FileMatch>, limit: usize) -> Seq<
    Seq<char>,
> {
    if files.len() == 0 {
        seq!["No sessions found that modified files matching '"@ + path + "'."@]
    } else {
        seq![
            "Files matching '"@ + path + "': "@ + decimal(files.len()) + " ("@ + decimal(
                change_count(files),
            ) + " modifications)"@,
            ""@,
        ] + files_lines(files, 0, limit as int)
    }
}

/// The files and their changes, for a reader.
pub fn print_history(path: &str, files: &Vec<FileMatch>, limit: usize) -> (r: Vec<String>)
    requires
        shown_ids_fit(files@, 0, limit as int),
    ensures
        views(r@) == history_lines(path@, files@, limit),
{
    let mut out: Vec<String> = Vec::new();
    if files.len() == 0 {
        text::say3(&mut out, "No sessions found that modified files matching '", path, "'.");
        proof {
            assert(views(out@) =~= history_lines(path@, files@, limit));
        }
        return out;
    }
    let count = text::size(files.len());
    let changes = text::large(count_changes(files));
    let a = text::cat5("Files matching '", path, "': ", count.as_str(), " (");
    text::say3(&mut out, a.as_str(), changes.as_str(), " modifications)");
    text::say(&mut out, "");
    let ghost head = views(out@);
    proof {
        assert(head =~= seq![
            "Files matching '"@ + path@ + "': "@ + decimal(files@.len()) + " ("@ + decimal(
                change_count(files@),
            ) + " modifications)"@,
            ""@,
        ]);
    }
    let mut left: usize = limit;
    let mut i: usize = 0;
    while i < files.len() && left > 0
        invariant
            i <= files@.len(),
            shown_ids_fit(files@, i as int, left as int),
            views(out@) + files_lines(files@, i as int, left as int) == head + files_lines(
                files@,
                0,
                limit as int,
            ),
        decreases files@.len() - i,
    {
        let ghost so_far = views(out@);
        let ghost rest = files_lines(files@, i as int, left as int);
        let lines = write_file(&files[i], left);
        text::say_more(&mut out, lines);
        let shown: usize = if files[i].changes.len() <= left {
            files[i].changes.len()
        } else {
            left
        };
        proof {
            assert(views(out@) + files_lines(files@, i + 1, left - shown) =~= so_far + rest);
        }
        left = left - shown;
        i = i + 1;
    }
    proof {
        assert(files_lines(files@, i as int, left as int) =~= Seq::empty());
        assert(views(out@) =~= head + files_lines(files@, 0, limit as int));
    }
    out
}

// ---------------------------------------------------------------------------
// As JSON
// ---------------------------------------------------------------------------

/// A change as a JSON object.
pub open spec fn change_view(path: Seq<char>, m: FileModification) -> JsonView {
    JsonView::Object(
        seq![
            ("file_path"@, JsonView::Text(path)),
            ("session_id"@, JsonView::Text(m.session_id@)),
            ("project_path"@, JsonView::Text(m.project_path@)),
            ("message_id"@, JsonView::Text(m.message_id@)),
            ("timestamp"@, time_json(Some(m.timestamp), false)),
            ("version"@, number_json(m.version as nat)),
        ],
    )
}

fn change_json(path: &str, m: &FileModification) -> (r: Json)
    ensures
        r@ == change_view(path@, *m),
{
    let mut fields: Vec<(String, Json)> = Vec::new();
    json::put(&mut fields, "file_path", json::of_text(path));
    json::put(&mut fields, "session_id", json::of_text(m.session_id.as_str()));
    json::put(&mut fields, "project_path", json::of_text(m.project_path.as_str()));
    json::put(&mut fields, "message_id", json::of_text(m.message_id.as_str()));
    json::put(&mut fields, "timestamp", json::of_time(Some(m.timestamp), false));
    json::put(&mut fields, "version", json::of_number(m.version));
    proof {
        assert(fields_view(fields@) =~= seq![
            ("file_path"@, JsonView::Text(path@)),
            ("session_id"@, JsonView::Text(m.session_id@)),
            ("project_path"@, JsonView::Text(m.project_path@)),
            ("message_id"@, JsonView::Text(m.message_id@)),
            ("timestamp"@, time_json(Some(m.timestamp), false)),
            ("version"@, number_json(m.version as nat)),
        ]);
    }
    Json::Object(fields)
}

/// The changes of all files, in order.
pub open spec fn changes_of(files: Seq<FileMatch>) -> Seq<JsonView>
    decreases files.len(),
{
    if files.len() == 0 {
        Seq::empty()
    } else {
        changes_of(files.drop_last()) + files.last().changes@.map_values(
            |m: FileModification| change_view(files.last().path@, m),
        )
    }
}

/// The first changes as JSON.
pub fn history_json(files: &Vec<FileMatch>, limit: usize) -> (r: Json)
    ensures
        r@ == JsonView::Array(first_of_list(changes_of(files@), limit as int)),
{
    let mut out: Vec<Json> = Vec::new();
    let mut i: usize = 0;
    let ghost mut all: Seq<JsonView> = Seq::empty();
    proof {
        assert(files@.take(0) =~= Seq::empty());
        json::lemma_items_view(out@);
        assert(json::items_view(out@) =~= first_of_list(all, limit as int));
    }
    while i < files.len()
        invariant
            i <= files@.len(),
            all == changes_of(files@.take(i as int)),
            json::items_view(out@) == first_of_list(all, limit as int),
        decreases files@.len() - i,
    {
        let f = &files[i];
        let mut k: usize = 0;
        let ghost start = all;
        let ghost more = f.changes@.map_values(|m: FileModification| change_view(f.path@, m));
        proof {
            assert(start + more.take(0) =~= start);
        }
        while k < f.changes.len()
            invariant
                k <= f.changes@.len(),
                more == f.changes@.map_values(|m: FileModification| change_view(f.path@, m)),
                all == start + more.take(k as int),
                json::items_view(out@) == first_of_list(all, limit as int),
            decreases f.changes@.len() - k,
        {
            proof {
                json::lemma_items_view(out@);
                assert(more.take(k + 1) =~= more.take(k as int).push(more[k as int]));
            }
            let ghost next = all.push(more[k as int]);
            if out.len() < limit {
                let value = change_json(f.path.as_str(), &f.changes[k]);
                proof {
                    json::lemma_items_push(out@, value);
                    assert(json::items_view(out@.push(value)) =~= first_of_list(
                        next,
                        limit as int,
                    ));
                }
                out.push(value);
            } else {
                proof {
                    assert(first_of_list(next, limit as int) =~= first_of_list(all, limit as int));
                }
            }
            proof {
                assert(next =~= start + more.take(k + 1));
                all = next;
            }
            k = k + 1;
        }
        proof {
            let next = files@.take(i + 1);
            assert(next.drop_last() =~= files@.take(i as int));
            assert(next.last() == *f);
            assert(more.take(k as int) =~= more);
        }
        i = i + 1;
    }
    proof {
        assert(files@.take(i as int) =~= files@);
    }
    Json::Array(out)
}

// ---------------------------------------------------------------------------
// Changes that providers know of
// ---------------------------------------------------------------------------

/// A change of a file that a provider knows of.
#[derive(Debug, Clone, PartialEq, Eq)]
pub struct ProviderChange {
    /// The path of the file.
    pub path: String,
    /// Where it was moved to.
    pub move_path: Option<String>,
    /// The provider.
    pub provider: String,
    /// The session with its provider.
    pub qualified_id: String,
    /// The session.
    pub session_id: String,
    /// The project.
    pub project_path: Option<String>,
    /// The entry.
    pub entry_id: String,
    /// The operation.
    pub operation_id: Option<String>,
    /// When.
    pub timestamp: Option<i128>,
    /// The version of the file.
    pub version: Option<u64>,
    /// What was done.
    pub kind: String,
    /// How much of the file it covers, as a JSON output has it.
    pub coverage: String,
    /// What it is known from.
    pub evidence: String,
    /// Whether it was done.
    pub is_applied: bool,
    /// What came of it.
    pub outcome: String,
    /// The record.
    pub record_ordinal: u64,
    /// The record of what came of it.
    pub outcome_record_ordinal: Option<u64>,
}

/// What providers know of the changes of some files.
#[derive(Debug, Clone, PartialEq, Eq)]
pub struct ProviderHistory {
    /// What the path holds.
    pub path_query: String,
    /// The changes that are shown.
    pub selected: Vec<ProviderChange>,
    /// The number of files.
    pub total_files: usize,
    /// The number of changes.
    pub total_modifications: usize,
    /// The number of changes that were not made.
    pub total_attempts: usize,
    /// The providers that could not be asked.
    pub skipped: Vec<String>,
    /// Warnings.
    pub warnings: Vec<String>,
}

/// A change was made.
pub open spec fn was_applied() -> spec_fn(ProviderChange) -> bool {
    |c: ProviderChange| c.is_applied
}

/// A change was not made.
pub open spec fn was_attempted() -> spec_fn(ProviderChange) -> bool {
    |c: ProviderChange| !c.is_applied
}

/// The line of a change that was made.
pub open spec fn applied_line(c: ProviderChange) -> Seq<char> {
    "  "@ + c.path@ + (match c.move_path {
        Some(to) => " -> "@ + to@,
        None => ""@,
    }) + ": "@ + c.kind@ + " "@ + c.qualified_id@ + (match c.version {
        Some(v) => " v"@ + decimal(v as nat),
        None => ""@,
    }) + " ("@ + shown_or(c.timestamp, "%Y-%m-%d %H:%M UTC"@, "time unavailable"@) + ") ["@
        + c.evidence@ + "]"@
}

fn write_applied(c: &ProviderChange) -> (r: String)
    ensures
        r@ == applied_line(*c),
{
    let moved: String = match &c.move_path {
        Some(to) => text::cat2(" -> ", to.as_str()),
        None => "".to_owned(),
    };
    let version: String = match c.version {
        Some(v) => {
            let digits = text::number(v);
            text::cat2(" v", digits.as_str())
        },
        None => "".to_owned(),
    };
    let at = time::show_or(c.timestamp, "%Y-%m-%d %H:%M UTC", "time unavailable");
    let a = text::cat5("  ", c.path.as_str(), moved.as_str(), ": ", c.kind.as_str());
    let b = text::cat5(a.as_str(), " ", c.qualified_id.as_str(), version.as_str(), " (");
    text::cat5(b.as_str(), at.as_str(), ") [", c.evidence.as_str(), "]")
}

/// The line of a change that was not made.
pub open spec fn attempt_line(c: ProviderChange) -> Seq<char> {
    "  attempt "@ + c.path@ + ": "@ + c.kind@ + " "@ + c.qualified_id@ + " ["@ + c.outcome@ + "; "@
        + c.evidence@ + "]"@
}

fn write_attempt(c: &ProviderChange) -> (r: String)
    ensures
        r@ == attempt_line(*c),
{
    let a = text::cat5("  attempt ", c.path.as_str(), ": ", c.kind.as_str(), " ");
    let b = text::cat5(a.as_str(), c.qualified_id.as_str(), " [", c.outcome.as_str(), "; ");
    text::cat3(b.as_str(), c.evidence.as_str(), "]")
}

/// The first lines of what providers know.
pub open spec fn found_lines(h: ProviderHistory) -> Seq<Seq<char>> {
    seq![
        "Files matching '"@ + h.path_query@ + "': "@ + decimal(h.total_files as nat) + " ("@
            + decimal(h.total_modifications as nat) + " applied modifications, "@ + decimal(
            h.total_attempts as nat,
        ) + " non-applied attempts)"@,
        "Evidence is bounded to structured patches/snapshots; shell writes are not inferred."@,
    ]
}

/// What providers know of the changes of some files, for a reader.
pub open spec fn provider_lines(h: ProviderHistory) -> Seq<Seq<char>> {
    if h.total_files == 0 {
        seq!["No source-backed file-change evidence matches '"@ + h.path_query@ + "'."@]
    } else {
        found_lines(h) + h.selected@.filter(was_applied()).map_values(
            |c: ProviderChange| applied_line(c),
        ) + h.selected@.filter(was_attempted()).map_values(|c: ProviderChange| attempt_line(c))
            + h.skipped@.map_values(|p: String| "  warning: "@ + p@ + " unavailable"@)
            + h.warnings@.map_values(|w: String| "  warning: "@ + w@)
    }
}

fn write_found(h: &ProviderHistory) -> (r: Vec<String>)
    ensures
        views(r@) == found_lines(*h),
{
    let mut out: Vec<String> = Vec::new();
    let files = text::size(h.total_files);
    let changes = text::size(h.total_modifications);
    let attempts = text::size(h.total_attempts);
    let a = text::cat5("Files matching '", h.path_query.as_str(), "': ", files.as_str(), " (");
    text::say5(
        &mut out,
        a.as_str(),
        changes.as_str(),
        " applied modifications, ",
        attempts.as_str(),
        " non-applied attempts)",
    );
    text::say(
        &mut out,
        "Evidence is bounded to structured patches/snapshots; shell writes are not inferred.",
    );
    proof {
        assert(views(out@) =~= found_lines(*h));
    }
    out
}

fn split_changes(selected: Vec<ProviderChange>) -> (r: (Vec<ProviderChange>, Vec<ProviderChange>))
    ensures
        r.0@ == selected@.filter(was_applied()),
        r.1@ == selected@.filter(was_attempted()),
{
    let ghost all = selected@;
    let mut applied: Vec<ProviderChange> = Vec::new();
    let mut attempts: Vec<ProviderChange> = Vec::new();
    for c in it: selected
        invariant
            it.seq() == all,
            applied@ == all.take(it.index() as int).filter(was_applied()),
            attempts@ == all.take(it.index() as int).filter(was_attempted()),
    {
        proof {
            broadcast use Seq::lemma_filter_push;

            let i = it.index() as int;
            assert(all.take(i + 1) =~= all.take(i).push(c));
        }
        if c.is_applied {
            applied.push(c);
        } else {
            attempts.push(c);
        }
    }
    proof {
        assert(all.take(all.len() as int) =~= all);
    }
    (applied, attempts)
}

/// What providers know of the changes of some files, for a reader.
pub fn print_provider_history(h: ProviderHistory) -> (r: Vec<String>)
    ensures
        views(r@) == provider_lines(h),
{
    if h.total_files == 0 {
        let mut out: Vec<String> = Vec::new();
        text::say3(
            &mut out,
            "No source-backed file-change evidence matches '",
            h.path_query.as_str(),
            "'.",
        );
        proof {
            assert(views(out@) =~= provider_lines(h));
        }
        return out;
    }
    let mut out = write_found(&h);
    let (applied, attempts) = split_changes(h.selected);
    let ghost g1 = |c: ProviderChange| applied_line(c);
    text::say_each(&mut out, &applied, write_applied, Ghost(g1));
    let ghost g2 = |c: ProviderChange| attempt_line(c);
    text::say_each(&mut out, &attempts, write_attempt, Ghost(g2));
    let unavailable = |p: &String| -> (o: String)
        ensures
            o@ == "  warning: "@ + p@ + " unavailable"@,
        { text::cat3("  warning: ", p.as_str(), " unavailable") };
    let ghost g3 = |p: String| "  warning: "@ + p@ + " unavailable"@;
    text::say_each(&mut out, &h.skipped, unavailable, Ghost(g3));
    let warn = |w: &String| -> (o: String)
        ensures
            o@ == "  warning: "@ + w@,
        { text::cat2("  warning: ", w.as_str()) };
    let ghost g4 = |w: String| "  warning: "@ + w@;
    text::say_each(&mut out, &h.warnings, warn, Ghost(g4));
    out
}

/// A number, or nothing.
pub open spec fn optional_number(n: Option<u64>) -> JsonView {
    match n {
        Some(m) => number_json(m as nat),
        None => JsonView::Null,
    }
}

/// A number, or nothing.
pub fn of_optional_number(n: Option<u64>) -> (r: Json)
    ensures
        r@ == optional_number(n),
{
    match n {
        Some(m) => json::of_number(m),
        None => Json::Null,
    }
}

/// The fields of a change that a provider knows of.
pub open spec fn provider_change_fields(c: ProviderChange) -> Seq<(Seq<char>, JsonView)> {
    seq![
        ("file_path"@, JsonView::Text(c.path@)),
        ("move_path"@, optional_text(c.move_path)),
        ("provider"@, JsonView::Text(c.provider@)),
        ("qualified_id"@, JsonView::Text(c.qualified_id@)),
        ("session_id"@, JsonView::Text(c.session_id@)),
        ("project_path"@, optional_text(c.project_path)),
        ("entry_id"@, JsonView::Text(c.entry_id@)),
        ("operation_id"@, optional_text(c.operation_id)),
        ("timestamp"@, time_json(c.timestamp, false)),
        ("version"@, optional_number(c.version)),
        ("kind"@, JsonView::Text(c.kind@)),
        ("coverage"@, JsonView::Text(c.coverage@)),
        ("evidence"@, JsonView::Text(c.evidence@)),
        ("outcome"@, JsonView::Text(c.outcome@)),
        ("record_ordinal"@, number_json(c.record_ordinal as nat)),
        ("outcome_record_ordinal"@, optional_number(c.outcome_record_ordinal)),
    ]
}

fn provider_change_json(c: &ProviderChange) -> (r: Json)
    ensures
        r@ == JsonView::Object(provider_change_fields(*c)),
{
    let mut fields: Vec<(String, Json)> = Vec::new();
    json::put(&mut fields, "file_path", json::of_text(c.path.as_str()));
    json::put(&mut fields, "move_path", json::of_option(&c.move_path));
    json::put(&mut fields, "provider", json::of_text(c.provider.as_str()));
    json::put(&mut fields, "qualified_id", json::of_text(c.qualified_id.as_str()));
    json::put(&mut fields, "session_id", json::of_text(c.session_id.as_str()));
    json::put(&mut fields, "project_path", json::of_option(&c.project_path));
    json::put(&mut fields, "entry_id", json::of_text(c.entry_id.as_str()));
    json::put(&mut fields, "operation_id", json::of_option(&c.operation_id));
    json::put(&mut fields, "timestamp", json::of_time(c.timestamp, false));
    json::put(&mut fields, "version", of_optional_number(c.version));
    json::put(&mut fields, "kind", json::of_text(c.kind.as_str()));
    json::put(&mut fields, "coverage", json::of_text(c.coverage.as_str()));
    json::put(&mut fields, "evidence", json::of_text(c.evidence.as_str()));
    json::put(&mut fields, "outcome", json::of_text(c.outcome.as_str()));
    json::put(&mut fields, "record_ordinal", json::of_number(c.record_ordinal));
    json::put(
        &mut fields,
        "outcome_record_ordinal",
        of_optional_number(c.outcome_record_ordinal),
    );
    proof {
        assert(fields_view(fields@) =~= provider_change_fields(*c));
    }
    Json::Object(fields)
}

/// The list of changes as JSON.
pub open spec fn changes_json(changes: Seq<ProviderChange>) -> JsonView {
    JsonView::Array(
        changes.map_values(|c: ProviderChange| JsonView::Object(provider_change_fields(c))),
    )
}

/// What is said of each provider that could not be asked.
pub open spec fn skipped_words(skipped: Seq<String>) -> Seq<Seq<char>> {
    skipped.map_values(|p: String| p@ + ": unavailable"@)
}

/// What is said of each provider that could not be asked.
pub fn write_skipped(skipped: &Vec<String>) -> (r: Vec<String>)
    ensures
        views(r@) == skipped_words(skipped@),
{
    let mut out: Vec<String> = Vec::new();
    let word = |p: &String| -> (o: String)
        ensures
            o@ == p@ + ": unavailable"@,
        { text::cat2(p.as_str(), ": unavailable") };
    let ghost g = |p: String| p@ + ": unavailable"@;
    text::say_each(&mut out, skipped, word, Ghost(g));
    proof {
        assert(views(out@) =~= skipped_words(skipped@));
    }
    out
}

/// The fields of what providers know of the changes of some files.
pub open spec fn provider_fields(h: ProviderHistory) -> Seq<(Seq<char>, JsonView)> {
    seq![
        ("path_query"@, JsonView::Text(h.path_query@)),
        ("total_files"@, number_json(h.total_files as nat)),
        ("total_modifications"@, number_json(h.total_modifications as nat)),
        ("total_attempts"@, number_json(h.total_attempts as nat)),
        ("returned"@, number_json(h.selected@.len())),
        ("modifications"@, changes_json(h.selected@.filter(was_applied()))),
        ("attempts"@, changes_json(h.selected@.filter(was_attempted()))),
        ("skipped_providers"@, texts_json(skipped_words(h.skipped@))),
        ("warnings"@, texts_json(views(h.warnings@))),
        (
            "coverage_note"@,
            JsonView::Text(
                "Structured patch/snapshot evidence only; arbitrary shell writes are not inferred."@,
            ),
        ),
    ]
}

/// What providers know of the changes of some files, as a JSON object.
pub fn provider_history_json(h: ProviderHistory) -> (r: Json)
    ensures
        r@ == JsonView::Object(provider_fields(h)),
{
    let mut fields: Vec<(String, Json)> = Vec::new();
    let returned: usize = h.selected.len();
    let (applied, attempts) = split_changes(h.selected);
    let ghost g = |c: ProviderChange| JsonView::Object(provider_change_fields(c));
    let skipped = write_skipped(&h.skipped);
    json::put(&mut fields, "path_query", json::of_text(h.path_query.as_str()));
    json::put(&mut fields, "total_files", json::of_size(h.total_files));
    json::put(&mut fields, "total_modifications", json::of_size(h.total_modifications));
    json::put(&mut fields, "total_attempts", json::of_size(h.total_attempts));
    json::put(&mut fields, "returned", json::of_size(returned));
    json::put(&mut fields, "modifications", json::of_list(&applied, provider_change_json, Ghost(g)));
    json::put(&mut fields, "attempts", json::of_list(&attempts, provider_change_json, Ghost(g)));
    json::put(&mut fields, "skipped_providers", json::of_texts(&skipped));
    json::put(&mut fields, "warnings", json::of_texts(&h.warnings));
    json::put(
        &mut fields,
        "coverage_note",
        json::of_text(
            "Structured patch/snapshot evidence only; arbitrary shell writes are not inferred.",
        ),
    );
    proof {
        assert(fields_view(fields@) =~= provider_fields(h));
    }
    Json::Object(fields)
}

/// Every change is either made or not made: both lists together hold as many as were found.
pub proof fn changes_are_split(selected: Seq<ProviderChange>)
    ensures
        selected.filter(was_applied()).len() + selected.filter(was_attempted()).len()
            == selected.len(),
    decreases selected.len(),
{
    broadcast use Seq::lemma_filter_push;

    if selected.len() > 0 {
        let front = selected.drop_last();
        changes_are_split(front);
        assert(selected =~= front.push(selected.last()));
    } else {
        assert(selected =~= Seq::empty());
    }
}

// ---------------------------------------------------------------------------
// What is listed
// ---------------------------------------------------------------------------

/// The files are listed by their paths, none left out.
pub proof fn files_are_listed_by_path(files: Seq<FileMatch>)
    ensures
        ({
            let r = sorted_by(files, by_path());
            &&& r.len() == files.len()
            &&& forall|f: FileMatch| #[trigger] r.contains(f) <==> files.contains(f)
            &&& forall|i: int, j: int|
                0 <= i < j < r.len() ==> !precedes((#[trigger] r[j]).path@, (#[trigger] r[i]).path@)
        }),
{
    let lt = by_path();
    let r = sorted_by(files, lt);
    text::names_give_an_order(|f: FileMatch| f.path@);
    assert(lt =~= (|a: FileMatch, b: FileMatch|
        precedes((|f: FileMatch| f.path@)(a), (|f: FileMatch| f.path@)(b))));
    order::sorting_permutes(files, lt);
    order::sorting_orders(files, lt);
    assert forall|f: FileMatch| #[trigger] r.contains(f) <==> files.contains(f) by {
        order::lemma_sorted_contains(files, lt, f);
    }
    assert forall|i: int, j: int| 0 <= i < j < r.len() implies !precedes(
        (#[trigger] r[j]).path@,
        (#[trigger] r[i]).path@,
    ) by {
        assert(!lt(r[j], r[i]));
    }
}

/// Of each file at most the given number of changes is listed, its first ones; and what one file
/// leaves over of the number is left for those behind it.
pub proof fn changes_are_listed_up_to_the_limit(f: FileMatch, rest: Seq<FileMatch>, left: int)
    requires
        left > 0,
    ensures
        f.changes@.len() < left ==> files_lines(seq![f] + rest, 0, left) == file_lines(f, left)
            + files_lines(seq![f] + rest, 1, left - f.changes@.len()) && file_lines(f, left).len()
            == f.changes@.len() + 2,
        f.changes@.len() >= left ==> files_lines(seq![f] + rest, 0, left) == file_lines(f, left)
            && file_lines(f, left).len() == left + 2,
{
    let files = seq![f] + rest;
    assert(files[0] == f);
    assert(files_lines(files, 0, left) == file_lines(f, left) + files_lines(
        files,
        1,
        left - shown_of(f, left),
    ));
    if f.changes@.len() >= left {
        assert(files_lines(files, 1, 0) =~= Seq::empty());
        assert(file_lines(f, left) + Seq::<Seq<char>>::empty() =~= file_lines(f, left));
    }
}

/// A change was applied or it was only attempted, as it says itself.
pub proof fn applied_changes_stand_apart(selected: Seq<ProviderChange>, c: ProviderChange)
    ensures
        selected.filter(was_applied()).contains(c) <==> selected.contains(c) && c.is_applied,
        selected.filter(was_attempted()).contains(c) <==> selected.contains(c) && !c.is_applied,
{
    order::filtering_is_exact(selected, was_applied());
    order::filtering_is_exact(selected, was_attempted());
    assert(selected.filter(was_applied()).contains(c) <==> selected.contains(c) && was_applied()(
        c,
    ));
    assert(selected.filter(was_attempted()).contains(c) <==> selected.contains(c)
        && was_attempted()(c));
}

} // verus!
