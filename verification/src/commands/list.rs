//! Lists of projects and sessions.
use vstd::prelude::*;

use crate::commands::helpers;
use crate::commands::helpers::{has_short_id, id_head, text_view};
use crate::commands::OutputFormat;
use crate::json;
use crate::json::{fields_view, given_text, number_json, some_texts, time_json, Json, JsonView};
use crate::order;
use crate::order::{first_of_list, sorted_by};
use crate::provider::copy_text;
use crate::text;
use crate::text::{
    byte_len, decimal, has, joined, lines_of, lowercase, on_boundary, precedes, replaced, split_of,
    trimmed, views, within_bytes,
};
use crate::time;
use crate::time::shown_or;

verus! {

/// What is listed.
#[derive(Debug, Clone, Copy, PartialEq, Eq)]
pub enum ListTarget {
    /// Projects.
    Projects,
    /// Sessions.
    Sessions,
    /// Both.
    All,
}

/// The order of a list.
#[derive(Debug, Clone, Copy, PartialEq, Eq)]
pub enum SortOrder {
    /// The latest first.
    Modified,
    /// The oldest first.
    Oldest,
    /// The largest first.
    Size,
    /// By name.
    Name,
}

/// The parts of the output, in order; a blank line stands between two.
pub fn run(target: ListTarget) -> (r: Vec<ListTarget>)
    ensures
        r@ == (match target {
            ListTarget::Projects => seq![ListTarget::Projects],
            ListTarget::Sessions => seq![ListTarget::Sessions],
            ListTarget::All => seq![ListTarget::Projects, ListTarget::Sessions],
        }),
{
    let mut out: Vec<ListTarget> = Vec::new();
    match target {
        ListTarget::Projects => {
            out.push(ListTarget::Projects);
        },
        ListTarget::Sessions => {
            out.push(ListTarget::Sessions);
        },
        ListTarget::All => {
            out.push(ListTarget::Projects);
            out.push(ListTarget::Sessions);
        },
    }
    proof {
        assert(out@ =~= (match target {
            ListTarget::Projects => seq![ListTarget::Projects],
            ListTarget::Sessions => seq![ListTarget::Sessions],
            ListTarget::All => seq![ListTarget::Projects, ListTarget::Sessions],
        }));
    }
    out
}

/// The first items of a list; all of them where the limit is nought.
pub open spec fn limited<T>(s: Seq<T>, limit: usize) -> Seq<T> {
    if limit > 0 {
        first_of_list(s, limit as int)
    } else {
        s
    }
}

fn cut_list<T>(v: Vec<T>, limit: usize) -> (r: Vec<T>)
    ensures
        r@ == limited(v@, limit),
{
    let mut v = v;
    if limit > 0 && limit < v.len() {
        v.truncate(limit);
    }
    v
}

// ---------------------------------------------------------------------------
// Projects
// ---------------------------------------------------------------------------

/// A project in the list.
#[derive(Debug, Clone, PartialEq, Eq)]
pub struct ListedProject {
    /// Its path.
    pub decoded_path: String,
    /// The name of its directory.
    pub encoded_name: String,
    /// The number of its sessions.
    pub session_count: usize,
    /// The size of all its sessions.
    pub total_size: u64,
    /// The size of all its sessions, as it is shown.
    pub size_shown: String,
}

/// With this text in its path, where one is asked for.
pub open spec fn path_has(filter: Option<Seq<char>>) -> spec_fn(ListedProject) -> bool {
    |p: ListedProject| filter matches Some(f) ==> has(p.decoded_path@, f)
}

/// By path.
pub open spec fn by_path() -> spec_fn(ListedProject, ListedProject) -> bool {
    |a: ListedProject, b: ListedProject| precedes(a.decoded_path@, b.decoded_path@)
}

/// The largest first.
pub open spec fn by_total_size() -> spec_fn(ListedProject, ListedProject) -> bool {
    |a: ListedProject, b: ListedProject| b.total_size < a.total_size
}

fn path_before(a: &ListedProject, b: &ListedProject) -> (o: bool)
    ensures
        o == by_path()(*a, *b),
{
    text::before(a.decoded_path.as_str(), b.decoded_path.as_str())
}

fn larger_project(a: &ListedProject, b: &ListedProject) -> (o: bool)
    ensures
        o == by_total_size()(*a, *b),
{
    let x: u64 = a.total_size;
    let y: u64 = b.total_size;
    y < x
}

/// The projects in the order that is asked for. They come in with the latest first.
pub open spec fn ordered_projects(projects: Seq<ListedProject>, sort: SortOrder) -> Seq<
    ListedProject,
> {
    match sort {
        SortOrder::Modified => projects,
        SortOrder::Oldest => projects.reverse(),
        SortOrder::Name => sorted_by(projects, by_path()),
        SortOrder::Size => sorted_by(projects, by_total_size()),
    }
}

/// The projects that are listed, and how many there are.
pub fn list_projects(
    projects: Vec<ListedProject>,
    filter: &Option<String>,
    sort: SortOrder,
    limit: usize,
) -> (r: (Vec<ListedProject>, usize))
    ensures
        ({
            let kept = projects@.filter(path_has(text_view(*filter)));
            &&& r.0@ == limited(ordered_projects(kept, sort), limit)
            &&& r.1 == kept.len()
        }),
{
    let test = |p: &ListedProject| -> (o: bool)
        ensures
            o == path_has(text_view(*filter))(*p),
        {
            match filter {
                Some(f) => text::contains(p.decoded_path.as_str(), f.as_str()),
                None => true,
            }
        };
    let kept = order::keep(projects, test, Ghost(path_has(text_view(*filter))));
    let total: usize = kept.len();
    let sorted = match sort {
        SortOrder::Modified => kept,
        SortOrder::Oldest => order::reversed(kept),
        SortOrder::Name => order::sort(kept, path_before, Ghost(by_path())),
        SortOrder::Size => order::sort(kept, larger_project, Ghost(by_total_size())),
    };
    (cut_list(sorted, limit), total)
}

/// The heading of a list: how many items are shown, and how many there are.
pub open spec fn list_heading(what: Seq<char>, shown: nat, total: usize, limit: usize) -> Seq<
    char,
> {
    if limit > 0 && total > limit {
        what + " (showing "@ + decimal(shown) + " of "@ + decimal(total as nat)
            + ", use -n 0 for all):"@
    } else {
        what + " ("@ + decimal(shown) + " found):"@
    }
}

fn say_heading(out: &mut Vec<String>, what: &str, shown: usize, total: usize, limit: usize)
    ensures
        views(final(out)@) == views(old(out)@).push(
            list_heading(what@, shown as nat, total, limit),
        ),
{
    let some = text::size(shown);
    if limit > 0 && total > limit {
        let all = text::size(total);
        let head = text::cat5(what, " (showing ", some.as_str(), " of ", all.as_str());
        text::say2(out, head.as_str(), ", use -n 0 for all):");
    } else {
        text::say4(out, what, " (", some.as_str(), " found):");
    }
}

/// The lines of a project.
pub open spec fn project_lines(p: ListedProject, sizes: bool) -> Seq<Seq<char>> {
    seq![
        "  "@ + p.decoded_path@ + " ("@ + decimal(p.session_count as nat) + " sessions)"@,
    ] + (if sizes {
        seq!["    Size: "@ + p.size_shown@]
    } else {
        Seq::empty()
    })
}

/// What is printed of the projects; for JSON there is a value instead.
pub open spec fn projects_output(
    projects: Seq<ListedProject>,
    total: usize,
    limit: usize,
    sizes: bool,
    format: OutputFormat,
) -> Seq<Seq<char>> {
    match format {
        OutputFormat::Json => Seq::empty(),
        OutputFormat::Tsv => seq!["path\tencoded\tsession_count"@] + projects.map_values(
            |p: ListedProject|
                p.decoded_path@ + "\t"@ + p.encoded_name@ + "\t"@ + decimal(
                    p.session_count as nat,
                ),
        ),
        OutputFormat::Compact => projects.map_values(|p: ListedProject| p.decoded_path@),
        OutputFormat::Text => if projects.len() == 0 {
            seq!["No projects found."@]
        } else {
            seq![list_heading("Projects"@, projects.len(), total, limit), ""@] + text::spread(
                projects,
                |p: ListedProject| project_lines(p, sizes),
            )
        },
    }
}

fn write_project(p: &ListedProject, sizes: bool) -> (r: Vec<String>)
    ensures
        views(r@) == project_lines(*p, sizes),
{
    let mut out: Vec<String> = Vec::new();
    let count = text::size(p.session_count);
    text::say5(&mut out, "  ", p.decoded_path.as_str(), " (", count.as_str(), " sessions)");
    if sizes {
        text::say2(&mut out, "    Size: ", p.size_shown.as_str());
    }
    proof {
        assert(views(out@) =~= project_lines(*p, sizes));
    }
    out
}

/// What is printed of the projects; for JSON see [`projects_json`].
pub fn print_projects(
    projects: &Vec<ListedProject>,
    total: usize,
    limit: usize,
    sizes: bool,
    format: OutputFormat,
) -> (r: Vec<String>)
    ensures
        views(r@) == projects_output(projects@, total, limit, sizes, format),
{
    let mut out: Vec<String> = Vec::new();
    proof {
        assert(views(out@) =~= Seq::empty());
    }
    match format {
        OutputFormat::Json => {},
        OutputFormat::Tsv => {
            text::say(&mut out, "path\tencoded\tsession_count");
            let row = |p: &ListedProject| -> (o: String)
                ensures
                    o@ == p.decoded_path@ + "\t"@ + p.encoded_name@ + "\t"@ + decimal(
                        p.session_count as nat,
                    ),
                {
                    let count = text::size(p.session_count);
                    text::cat5(
                        p.decoded_path.as_str(),
                        "\t",
                        p.encoded_name.as_str(),
                        "\t",
                        count.as_str(),
                    )
                };
            let ghost g = |p: ListedProject|
                p.decoded_path@ + "\t"@ + p.encoded_name@ + "\t"@ + decimal(
                    p.session_count as nat,
                );
            text::say_each(&mut out, projects, row, Ghost(g));
        },
        OutputFormat::Compact => {
            let row = |p: &ListedProject| -> (o: String)
                ensures
                    o@ == p.decoded_path@,
                { p.decoded_path.clone() };
            let ghost g = |p: ListedProject| p.decoded_path@;
            text::say_each(&mut out, projects, row, Ghost(g));
        },
        OutputFormat::Text => {
            if projects.len() == 0 {
                text::say(&mut out, "No projects found.");
            } else {
                say_heading(&mut out, "Projects", projects.len(), total, limit);
                text::say(&mut out, "");
                let rows = |p: &ListedProject| -> (o: Vec<String>)
                    ensures
                        views(o@) == project_lines(*p, sizes),
                    { write_project(p, sizes) };
                let ghost g = |p: ListedProject| project_lines(p, sizes);
                text::say_all(&mut out, projects, rows, Ghost(g));
            }
        },
    }
    proof {
        assert(views(out@) =~= projects_output(projects@, total, limit, sizes, format));
    }
    out
}

// ---------------------------------------------------------------------------
// Sessions
// ---------------------------------------------------------------------------

/// What was written down about a session.
#[derive(Debug, Clone, PartialEq, Eq)]
pub struct SessionMeta {
    /// The name that it was given.
    pub name: Option<String>,
    /// Its tags.
    pub tags: Vec<String>,
    /// Whether it is bookmarked.
    pub bookmarked: bool,
    /// How it ended.
    pub outcome: Option<String>,
}

/// A session in the list.
#[derive(Debug, Clone, PartialEq, Eq)]
pub struct ListedSession {
    /// Its id.
    pub session_id: String,
    /// The path of its project.
    pub project_path: String,
    /// When it was last modified.
    pub modified: i128,
    /// The size of its file.
    pub file_size: u64,
    /// The size of its file, as it is shown.
    pub size_shown: String,
    /// Whether another session spawned it.
    pub is_subagent: bool,
    /// Whether it is of the kind and in the state that is asked for.
    pub is_wanted: bool,
    /// What was written down about it.
    pub meta: Option<SessionMeta>,
    /// The state that it is in, where it is in use.
    pub status: Option<String>,
    /// What the user asked first, as far as it is shown.
    pub context: Option<String>,
}

/// Which sessions are asked for.
#[derive(Debug, Clone, PartialEq, Eq)]
pub struct SessionQuery {
    /// Of a project whose path holds this.
    pub project: Option<String>,
    /// Modified no earlier.
    pub since: Option<i128>,
    /// Modified no later.
    pub until: Option<i128>,
    /// At least of this size.
    pub min_size: Option<u64>,
    /// At most of this size.
    pub max_size: Option<u64>,
    /// With a tag that holds this.
    pub tag: Option<String>,
    /// With a tag that holds one of these, with commas between them.
    pub tags: Option<String>,
    /// Only bookmarked ones.
    pub bookmarked: bool,
    /// With an outcome that holds this.
    pub outcome: Option<String>,
    /// With a name that holds this.
    pub by_name: Option<String>,
    /// The order.
    pub sort: SortOrder,
    /// The most sessions; nought for all.
    pub limit: usize,
}

/// Of a project whose path holds this.
pub open spec fn of_project(project: Option<Seq<char>>) -> spec_fn(ListedSession) -> bool {
    |s: ListedSession| project matches Some(p) ==> has(s.project_path@, p)
}

/// Modified within the span of time.
pub open spec fn modified_within(since: Option<i128>, until: Option<i128>) -> spec_fn(
    ListedSession,
) -> bool {
    |s: ListedSession|
        (since matches Some(a) ==> a <= s.modified) && (until matches Some(b) ==> s.modified <= b)
}

/// Of a size between the two.
pub open spec fn size_within(min: Option<u64>, max: Option<u64>) -> spec_fn(ListedSession) -> bool {
    |s: ListedSession|
        (min matches Some(a) ==> a <= s.file_size) && (max matches Some(b) ==> s.file_size <= b)
}

/// The tags that are asked for: the one, and the parts of the others between commas.
pub open spec fn wanted_tags(tag: Option<Seq<char>>, tags: Option<Seq<char>>) -> Seq<Seq<char>> {
    (match tag {
        Some(t) => seq![t],
        None => Seq::empty(),
    }) + (match tags {
        Some(list) => split_of(list, ',').map_values(|p: Seq<char>| trimmed(p)),
        None => Seq::empty(),
    })
}

/// One of the tags holds this text.
pub open spec fn any_tag_has(tags: Seq<String>, part: Seq<char>) -> bool {
    exists|i: int| 0 <= i < tags.len() && has((#[trigger] tags[i])@, part)
}

/// With a tag that holds one of these; every session where none is asked for.
pub open spec fn carries_tag(wanted: Seq<Seq<char>>) -> spec_fn(ListedSession) -> bool {
    |s: ListedSession|
        wanted.len() == 0 || (s.meta matches Some(m) && exists|k: int|
            0 <= k < wanted.len() && any_tag_has(m.tags@, #[trigger] wanted[k]))
}

/// Bookmarked, where that is asked for.
pub open spec fn marked(bookmarked: bool) -> spec_fn(ListedSession) -> bool {
    |s: ListedSession| bookmarked ==> (s.meta matches Some(m) && m.bookmarked)
}

/// With an outcome that holds this, whatever the case of the letters.
pub open spec fn ended_as(outcome: Option<Seq<char>>) -> spec_fn(ListedSession) -> bool {
    |s: ListedSession|
        outcome matches Some(o) ==> (s.meta matches Some(m) && (m.outcome matches Some(w) && has(
            lowercase(w@),
            lowercase(o),
        )))
}

/// With a name that holds this, whatever the case of the letters.
pub open spec fn named(name: Option<Seq<char>>) -> spec_fn(ListedSession) -> bool {
    |s: ListedSession|
        name matches Some(n) ==> (s.meta matches Some(m) && (m.name matches Some(w) && has(
            lowercase(w@),
            lowercase(n),
        )))
}

/// The sessions that are asked for, in the order in which they come in.
pub open spec fn selected(sessions: Seq<ListedSession>, q: SessionQuery) -> Seq<ListedSession> {
    sessions.filter(of_project(text_view(q.project))).filter(
        |s: ListedSession| s.is_wanted,
    ).filter(modified_within(q.since, q.until)).filter(
        size_within(q.min_size, q.max_size),
    ).filter(carries_tag(wanted_tags(text_view(q.tag), text_view(q.tags)))).filter(
        marked(q.bookmarked),
    ).filter(ended_as(text_view(q.outcome))).filter(named(text_view(q.by_name)))
}

/// The order of sessions.
pub open spec fn comes_before(sort: SortOrder) -> spec_fn(ListedSession, ListedSession) -> bool {
    |a: ListedSession, b: ListedSession|
        match sort {
            SortOrder::Modified => b.modified < a.modified,
            SortOrder::Oldest => a.modified < b.modified,
            SortOrder::Size => b.file_size < a.file_size,
            SortOrder::Name => precedes(a.session_id@, b.session_id@),
        }
}

fn does_come_before(a: &ListedSession, b: &ListedSession, sort: SortOrder) -> (o: bool)
    ensures
        o == comes_before(sort)(*a, *b),
{
    let s: i128 = a.modified;
    let t: i128 = b.modified;
    let x: u64 = a.file_size;
    let y: u64 = b.file_size;
    match sort {
        SortOrder::Modified => t < s,
        SortOrder::Oldest => s < t,
        SortOrder::Size => y < x,
        SortOrder::Name => text::before(a.session_id.as_str(), b.session_id.as_str()),
    }
}

fn tags_asked_for(tag: &Option<String>, tags: &Option<String>) -> (r: Vec<String>)
    ensures
        views(r@) == wanted_tags(text_view(*tag), text_view(*tags)),
{
    let mut out: Vec<String> = Vec::new();
    proof {
        assert(views(out@) =~= Seq::empty());
    }
    match tag {
        Some(t) => text::say(&mut out, t.as_str()),
        None => {},
    }
    match tags {
        Some(list) => {
            let pieces = text::split(list.as_str(), ',');
            let bare = |p: &String| -> (o: String)
                ensures
                    o@ == trimmed(p@),
                { text::trim(p.as_str()) };
            let ghost g = |p: String| trimmed(p@);
            text::say_each(&mut out, &pieces, bare, Ghost(g));
            proof {
                assert(pieces@.map_values(g) =~= views(pieces@).map_values(
                    |p: Seq<char>| trimmed(p),
                ));
            }
        },
        None => {},
    }
    proof {
        assert(views(out@) =~= wanted_tags(text_view(*tag), text_view(*tags)));
    }
    out
}

fn has_any_tag(tags: &Vec<String>, part: &str) -> (r: bool)
    ensures
        r == any_tag_has(tags@, part@),
{
    let mut i: usize = 0;
    while i < tags.len()
        invariant
            i <= tags@.len(),
            forall|k: int| 0 <= k < i ==> !(has((#[trigger] tags@[k])@, part@)),
        decreases tags@.len() - i,
    {
        if text::contains(tags[i].as_str(), part) {
            return true;
        }
        i = i + 1;
    }
    false
}

fn does_carry(s: &ListedSession, wanted: &Vec<String>) -> (r: bool)
    ensures
        r == carries_tag(views(wanted@))(*s),
{
    if wanted.len() == 0 {
        return true;
    }
    match &s.meta {
        Some(m) => {
            let mut k: usize = 0;
            while k < wanted.len()
                invariant
                    k <= wanted@.len(),
                    s.meta == Some(*m),
                    forall|j: int|
                        0 <= j < k ==> !any_tag_has(m.tags@, #[trigger] views(wanted@)[j]),
                decreases wanted@.len() - k,
            {
                if has_any_tag(&m.tags, wanted[k].as_str()) {
                    proof {
                        assert(any_tag_has(m.tags@, views(wanted@)[k as int]));
                    }
                    return true;
                }
                k = k + 1;
            }
            false
        },
        None => false,
    }
}

fn lower_contains(word: &Option<String>, part: &Option<String>) -> (r: bool)
    ensures
        r == (text_view(*part) matches Some(p) ==> (text_view(*word) matches Some(w) && has(
            lowercase(w),
            lowercase(p),
        ))),
{
    match part {
        Some(p) => match word {
            Some(w) => {
                let needle = text::to_lowercase(p.as_str());
                let lower = text::to_lowercase(w.as_str());
                text::contains(lower.as_str(), needle.as_str())
            },
            None => false,
        },
        None => true,
    }
}

fn select(sessions: Vec<ListedSession>, q: &SessionQuery) -> (r: Vec<ListedSession>)
    ensures
        r@ == selected(sessions@, *q),
{
    let project = &q.project;
    let belongs = |s: &ListedSession| -> (o: bool)
        ensures
            o == of_project(text_view(*project))(*s),
        {
            match project {
                Some(p) => text::contains(s.project_path.as_str(), p.as_str()),
                None => true,
            }
        };
    let kept = order::keep(sessions, belongs, Ghost(of_project(text_view(*project))));
    let wanted = |s: &ListedSession| -> (o: bool)
        ensures
            o == s.is_wanted,
        { s.is_wanted };
    let ghost p0 = |s: ListedSession| s.is_wanted;
    let kept = order::keep(kept, wanted, Ghost(p0));
    let since: Option<i128> = q.since;
    let until: Option<i128> = q.until;
    let timely = |s: &ListedSession| -> (o: bool)
        ensures
            o == modified_within(since, until)(*s),
        {
            let m: i128 = s.modified;
            let late_enough: bool = match since {
                Some(a) => a <= m,
                None => true,
            };
            let early_enough: bool = match until {
                Some(b) => m <= b,
                None => true,
            };
            late_enough && early_enough
        };
    let kept = order::keep(kept, timely, Ghost(modified_within(since, until)));
    let min: Option<u64> = q.min_size;
    let max: Option<u64> = q.max_size;
    let sized = |s: &ListedSession| -> (o: bool)
        ensures
            o == size_within(min, max)(*s),
        {
            let n: u64 = s.file_size;
            let large_enough: bool = match min {
                Some(a) => a <= n,
                None => true,
            };
            let small_enough: bool = match max {
                Some(b) => n <= b,
                None => true,
            };
            large_enough && small_enough
        };
    let kept = order::keep(kept, sized, Ghost(size_within(min, max)));
    let tags = tags_asked_for(&q.tag, &q.tags);
    let carries = |s: &ListedSession| -> (o: bool)
        ensures
            o == carries_tag(views(tags@))(*s),
        { does_carry(s, &tags) };
    let kept = order::keep(kept, carries, Ghost(carries_tag(views(tags@))));
    let bookmarked: bool = q.bookmarked;
    let is_marked = |s: &ListedSession| -> (o: bool)
        ensures
            o == marked(bookmarked)(*s),
        {
            !bookmarked || (match &s.meta {
                Some(m) => m.bookmarked,
                None => false,
            })
        };
    let kept = order::keep(kept, is_marked, Ghost(marked(bookmarked)));
    let outcome = &q.outcome;
    let ended = |s: &ListedSession| -> (o: bool)
        ensures
            o == ended_as(text_view(*outcome))(*s),
        {
            match &s.meta {
                Some(m) => lower_contains(&m.outcome, outcome),
                None => outcome.is_none(),
            }
        };
    let kept = order::keep(kept, ended, Ghost(ended_as(text_view(*outcome))));
    let name = &q.by_name;
    let is_named = |s: &ListedSession| -> (o: bool)
        ensures
            o == named(text_view(*name))(*s),
        {
            match &s.meta {
                Some(m) => lower_contains(&m.name, name),
                None => name.is_none(),
            }
        };
    order::keep(kept, is_named, Ghost(named(text_view(*name))))
}

/// The sessions that are listed, and how many there are.
pub fn list_sessions(sessions: Vec<ListedSession>, q: &SessionQuery) -> (r: (
    Vec<ListedSession>,
    usize,
))
    ensures
        r.0@ == limited(sorted_by(selected(sessions@, *q), comes_before(q.sort)), q.limit),
        r.1 == selected(sessions@, *q).len(),
{
    let kept = select(sessions, q);
    let total: usize = kept.len();
    let sort: SortOrder = q.sort;
    let ahead = |a: &ListedSession, b: &ListedSession| -> (o: bool)
        ensures
            o == comes_before(sort)(*a, *b),
        { does_come_before(a, b, sort) };
    let sorted = order::sort(kept, ahead, Ghost(comes_before(sort)));
    (cut_list(sorted, q.limit), total)
}

proof fn lemma_comes_before(sort: SortOrder)
    ensures
        order::weak_order(comes_before(sort)),
{
    let lt = comes_before(sort);
    assert forall|a: ListedSession| !#[trigger] lt(a, a) by {
        text::precedes_irreflexive(a.session_id@);
    }
    assert forall|a: ListedSession, b: ListedSession, c: ListedSession|
        #![trigger lt(a, b), lt(b, c)]
        (lt(a, b) && lt(b, c) ==> lt(a, c)) && (!lt(a, b) && !lt(b, c) ==> !lt(a, c)) by {
        let x = a.session_id@;
        let y = b.session_id@;
        let z = c.session_id@;
        if precedes(x, y) && precedes(y, z) {
            text::precedes_transitive(x, y, z);
        }
        text::precedes_total(x, y);
        text::precedes_total(y, z);
        if precedes(y, x) && precedes(x, z) {
            text::precedes_transitive(y, x, z);
        }
        if precedes(x, z) && precedes(z, y) {
            text::precedes_transitive(x, z, y);
        }
    }
}

/// No listed session is outside what was asked for, and none stands behind one that it comes
/// before.
pub proof fn listed_sessions_fit(sessions: Seq<ListedSession>, q: SessionQuery, k: int)
    requires
        0 <= k < limited(sorted_by(selected(sessions, q), comes_before(q.sort)), q.limit).len(),
    ensures
        ({
            let list = limited(sorted_by(selected(sessions, q), comes_before(q.sort)), q.limit);
            let s = list[k];
            &&& sessions.contains(s)
            &&& of_project(text_view(q.project))(s)
            &&& s.is_wanted
            &&& modified_within(q.since, q.until)(s)
            &&& size_within(q.min_size, q.max_size)(s)
            &&& carries_tag(wanted_tags(text_view(q.tag), text_view(q.tags)))(s)
            &&& marked(q.bookmarked)(s)
            &&& ended_as(text_view(q.outcome))(s)
            &&& named(text_view(q.by_name))(s)
            &&& forall|j: int| 0 <= j < k ==> !comes_before(q.sort)(s, #[trigger] list[j])
        }),
{
    let all = selected(sessions, q);
    let sorted = sorted_by(all, comes_before(q.sort));
    let list = limited(sorted, q.limit);
    let s = list[k];
    assert(s == sorted[k]);
    assert(sorted.contains(s));
    order::lemma_sorted_contains(all, comes_before(q.sort), s);
    let f0 = sessions.filter(of_project(text_view(q.project)));
    let f1 = f0.filter(|s: ListedSession| s.is_wanted);
    let f2 = f1.filter(modified_within(q.since, q.until));
    let f3 = f2.filter(size_within(q.min_size, q.max_size));
    let f4 = f3.filter(carries_tag(wanted_tags(text_view(q.tag), text_view(q.tags))));
    let f5 = f4.filter(marked(q.bookmarked));
    let f6 = f5.filter(ended_as(text_view(q.outcome)));
    assert(all == f6.filter(named(text_view(q.by_name))));
    order::filtered_items_fit(f6, named(text_view(q.by_name)), s);
    order::filtered_items_fit(f5, ended_as(text_view(q.outcome)), s);
    order::filtered_items_fit(f4, marked(q.bookmarked), s);
    order::filtered_items_fit(f3, carries_tag(wanted_tags(text_view(q.tag), text_view(q.tags))), s);
    order::filtered_items_fit(f2, size_within(q.min_size, q.max_size), s);
    order::filtered_items_fit(f1, modified_within(q.since, q.until), s);
    order::filtered_items_fit(f0, |s: ListedSession| s.is_wanted, s);
    order::filtered_items_fit(sessions, of_project(text_view(q.project)), s);
    lemma_comes_before(q.sort);
    order::sorting_orders(all, comes_before(q.sort));
    assert forall|j: int| 0 <= j < k implies !comes_before(q.sort)(s, #[trigger] list[j]) by {
        assert(list[j] == sorted[j]);
    }
}

// ---------------------------------------------------------------------------
// What the user asked first
// ---------------------------------------------------------------------------

/// A message of the user.
#[derive(Debug, Clone, PartialEq, Eq)]
pub struct ContextMessage {
    /// Whether it holds the result of a tool.
    pub has_tool_results: bool,
    /// Its text.
    pub text: Option<String>,
}

/// The lines of a text without white space around them, those that are not empty.
pub open spec fn full_lines(s: Seq<char>) -> Seq<Seq<char>> {
    lines_of(s).map_values(|l: Seq<char>| trimmed(l)).filter(|l: Seq<char>| l.len() > 0)
}

/// The first lines of a text that are not empty.
pub open spec fn gist_of(s: Seq<char>, count: int, sep: Seq<char>) -> Seq<char> {
    joined(first_of_list(full_lines(s), count), sep)
}

/// A message of the user that says something.
pub open spec fn says_something(m: ContextMessage) -> bool {
    !m.has_tool_results && (m.text matches Some(t) && gist_of(t@, 3, " "@).len() > 0)
}

/// What the first message says that says something.
pub open spec fn first_gist(messages: Seq<ContextMessage>) -> Option<Seq<char>>
    decreases messages.len(),
{
    if messages.len() == 0 {
        None
    } else if says_something(messages[0]) {
        Some(gist_of(messages[0].text->0@, 3, " "@))
    } else {
        first_gist(messages.drop_first())
    }
}

/// The first lines of a text that are not empty.
pub fn write_gist(s: &str, count: usize, sep: &str) -> (r: String)
    ensures
        r@ == gist_of(s@, count as int, sep@),
{
    let all = text::lines(s);
    let mut bare: Vec<String> = Vec::new();
    let cut = |l: &String| -> (o: String)
        ensures
            o@ == trimmed(l@),
        { text::trim(l.as_str()) };
    let ghost g = |l: String| trimmed(l@);
    text::say_each(&mut bare, &all, cut, Ghost(g));
    let ghost source = bare@;
    let ghost p = |l: String| l@.len() > 0;
    let ghost q = |l: Seq<char>| l.len() > 0;
    let full = |l: &String| -> (o: bool)
        ensures
            o == p(*l),
        { l.as_str().unicode_len() > 0 };
    let mut kept = order::keep(bare, full, Ghost(p));
    proof {
        let f = |l: String| l@;
        order::lemma_filter_map(source, f, p, q);
        assert(source.map_values(f) =~= views(source));
        assert(kept@.map_values(f) =~= views(kept@));
        assert(all@.map_values(g) =~= lines_of(s@).map_values(|l: Seq<char>| trimmed(l))) by {
            assert(views(all@) == lines_of(s@));
        }
        assert(views(source) =~= lines_of(s@).map_values(|l: Seq<char>| trimmed(l)));
        assert(views(kept@) == full_lines(s@));
    }
    let ghost whole = views(kept@);
    if count < kept.len() {
        kept.truncate(count);
    }
    proof {
        assert(views(kept@) =~= first_of_list(whole, count as int));
    }
    text::join(&kept, sep)
}

/// What the first message says that says something.
pub fn find_context(messages: &Vec<ContextMessage>) -> (r: Option<String>)
    ensures
        text_view(r) == first_gist(messages@),
{
    let mut i: usize = 0;
    proof {
        assert(messages@.skip(0) =~= messages@);
    }
    while i < messages.len()
        invariant
            i <= messages@.len(),
            first_gist(messages@.skip(i as int)) == first_gist(messages@),
        decreases messages@.len() - i,
    {
        let m = &messages[i];
        proof {
            let rest = messages@.skip(i as int);
            assert(rest[0] == *m);
            assert(rest.drop_first() =~= messages@.skip(i + 1));
        }
        if !m.has_tool_results {
            match &m.text {
                Some(t) => {
                    let gist = write_gist(t.as_str(), 3, " ");
                    if gist.as_str().unicode_len() > 0 {
                        return Some(gist);
                    }
                },
                None => {},
            }
        }
        i = i + 1;
    }
    None
}

/// A text can be cut to this many bytes: it is no longer, or a character ends there.
pub open spec fn can_cut(s: Seq<char>, max_len: usize) -> bool {
    byte_len(s) <= max_len || on_boundary(s, max_len as int)
}

/// A text, cut to this many bytes.
pub open spec fn cut_at(s: Seq<char>, max_len: usize) -> Seq<char> {
    if byte_len(s) > max_len {
        within_bytes(s, max_len as int) + "..."@
    } else {
        s
    }
}

/// A text, cut to this many bytes.
pub fn cut_to(s: String, max_len: usize) -> (r: String)
    requires
        can_cut(s@, max_len),
    ensures
        r@ == cut_at(s@, max_len),
{
    if text::bytes(s.as_str()) > max_len {
        let (head, _used) = text::cut_bytes(s.as_str(), max_len);
        text::cat2(head.as_str(), "...")
    } else {
        s
    }
}

/// Whether a text can be cut to this many bytes.
pub fn is_cuttable(s: &str, max_len: usize) -> (r: bool)
    ensures
        r == can_cut(s@, max_len),
{
    if text::bytes(s) <= max_len {
        true
    } else {
        let (_head, used) = text::cut_bytes(s, max_len);
        used == max_len
    }
}

/// What the user asked first, cut to this many bytes.
pub fn get_session_context(messages: &Vec<ContextMessage>, max_len: usize) -> (r: Option<String>)
    requires
        first_gist(messages@) matches Some(s) ==> can_cut(s, max_len),
    ensures
        text_view(r) == (match first_gist(messages@) {
            Some(s) => Some(cut_at(s, max_len)),
            None => None,
        }),
{
    match find_context(messages) {
        Some(s) => Some(cut_to(s, max_len)),
        None => None,
    }
}

/// Whether what the user asked first can be cut to this many bytes.
pub fn context_can_be_cut(messages: &Vec<ContextMessage>, max_len: usize) -> (r: bool)
    ensures
        r == (first_gist(messages@) matches Some(s) ==> can_cut(s, max_len)),
{
    match find_context(messages) {
        Some(s) => is_cuttable(s.as_str(), max_len),
        None => true,
    }
}

// ---------------------------------------------------------------------------
// What is printed of the sessions
// ---------------------------------------------------------------------------

/// How the sessions are shown.
#[derive(Debug, Clone, Copy, PartialEq, Eq)]
pub struct SessionStyle {
    /// Their ids in full.
    pub full_ids: bool,
    /// What the user asked first.
    pub context: bool,
    /// Their sizes.
    pub sizes: bool,
}

/// How many bytes of what the user asked first are shown.
pub fn context_width(format: OutputFormat) -> (r: usize)
    ensures
        r == (if format is Compact {
            60usize
        } else {
            100
        }),
{
    if matches!(format, OutputFormat::Compact) {
        60
    } else {
        100
    }
}

/// Whether sizes are shown: where that is asked for, or the list is by size.
pub fn shows_sizes(sizes: bool, sort: SortOrder) -> (r: bool)
    ensures
        r == (sizes || sort is Size),
{
    sizes || matches!(sort, SortOrder::Size)
}

/// The id of a session, as it is shown.
pub open spec fn shown_id(s: ListedSession, style: SessionStyle) -> Seq<char> {
    if style.full_ids {
        s.session_id@
    } else {
        id_head(s.session_id@)
    }
}

/// The id of the session can be shown.
pub open spec fn id_can_be_shown(s: ListedSession, style: SessionStyle) -> bool {
    style.full_ids || has_short_id(s.session_id@)
}

/// The name that a session was given.
pub open spec fn name_of(s: ListedSession) -> Option<Seq<char>> {
    match s.meta {
        Some(m) => text_view(m.name),
        None => None,
    }
}

/// A text without tabs and line feeds.
pub open spec fn on_one_row(s: Seq<char>) -> Seq<char> {
    replaced(replaced(s, '\t', " "@), '\n', " "@)
}

/// What the user asked first, or nothing.
pub open spec fn context_or_nothing(s: ListedSession) -> Seq<char> {
    match s.context {
        Some(c) => c@,
        None => Seq::empty(),
    }
}

/// When a session was last modified, as it is shown.
pub open spec fn modified_shown(s: ListedSession) -> Seq<char> {
    shown_or(Some(s.modified), "%Y-%m-%d %H:%M:%S UTC"@, ""@)
}

fn write_modified(s: &ListedSession) -> (r: String)
    ensures
        r@ == modified_shown(*s),
{
    time::show_or(Some(s.modified), "%Y-%m-%d %H:%M:%S UTC", "")
}

/// The row of a session in a table of values.
pub open spec fn session_row(s: ListedSession, style: SessionStyle) -> Seq<char> {
    shown_id(s, style) + "\t"@ + s.project_path@ + "\t"@ + decimal(s.file_size as nat) + "\t"@
        + modified_shown(s) + "\t"@ + (if s.is_subagent {
        "true"@
    } else {
        "false"@
    }) + "\t"@ + (match name_of(s) {
        Some(n) => n,
        None => Seq::empty(),
    }) + (if style.context {
        "\t"@ + on_one_row(context_or_nothing(s))
    } else {
        Seq::empty()
    })
}

/// The short line of a session.
pub open spec fn session_short(s: ListedSession, style: SessionStyle) -> Seq<char> {
    match s.context {
        Some(c) => if style.context {
            shown_id(s, style) + ": "@ + c@
        } else {
            shown_id(s, style)
        },
        None => shown_id(s, style),
    }
}

/// The first line of a session.
pub open spec fn session_title(s: ListedSession, style: SessionStyle) -> Seq<char> {
    "  "@ + (if s.meta matches Some(m) && m.bookmarked {
        "★ "@
    } else {
        Seq::empty()
    }) + (match name_of(s) {
        Some(n) => "\""@ + n + "\" ("@ + shown_id(s, style) + ")"@,
        None => shown_id(s, style),
    }) + (if s.is_subagent {
        " [subagent]"@
    } else {
        Seq::empty()
    }) + (match s.meta {
        Some(m) => match m.outcome {
            Some(o) => " ["@ + o@ + "]"@,
            None => Seq::empty(),
        },
        None => Seq::empty(),
    }) + (if style.sizes {
        if s.file_size == 0 {
            " ("@ + s.size_shown@ + " - empty, possibly new or interrupted)"@
        } else {
            " ("@ + s.size_shown@ + ")"@
        }
    } else {
        Seq::empty()
    })
}

/// The lines of a session.
pub open spec fn session_lines(s: ListedSession, style: SessionStyle) -> Seq<Seq<char>> {
    seq![
        session_title(s, style),
        "    Project: "@ + s.project_path@,
        "    Modified: "@ + modified_shown(s),
    ] + (match s.meta {
        Some(m) => if m.tags@.len() > 0 {
            seq!["    Tags: "@ + joined(views(m.tags@), ", "@)]
        } else {
            Seq::empty()
        },
        None => Seq::empty(),
    }) + (match s.status {
        Some(t) => seq!["    Status: "@ + t@],
        None => Seq::empty(),
    }) + (match s.context {
        Some(c) => if style.context {
            seq!["    Context: \""@ + c@ + "\""@]
        } else {
            Seq::empty()
        },
        None => Seq::empty(),
    })
}

/// What is printed of the sessions; for JSON there is a value instead.
pub open spec fn sessions_output(
    sessions: Seq<ListedSession>,
    total: usize,
    limit: usize,
    style: SessionStyle,
    format: OutputFormat,
) -> Seq<Seq<char>> {
    match format {
        OutputFormat::Json => Seq::empty(),
        OutputFormat::Tsv => seq![
            if style.context {
                "session_id\tproject\tsize\tmodified\tsubagent\tname\tcontext"@
            } else {
                "session_id\tproject\tsize\tmodified\tsubagent\tname"@
            },
        ] + sessions.map_values(|s: ListedSession| session_row(s, style)),
        OutputFormat::Compact => sessions.map_values(|s: ListedSession| session_short(s, style)),
        OutputFormat::Text => if sessions.len() == 0 {
            seq!["No sessions found."@]
        } else {
            seq![list_heading("Sessions"@, sessions.len(), total, limit), ""@] + text::spread(
                sessions,
                |s: ListedSession| session_lines(s, style),
            )
        },
    }
}

fn write_id(s: &ListedSession, style: SessionStyle) -> (r: String)
    requires
        id_can_be_shown(*s, style),
    ensures
        r@ == shown_id(*s, style),
{
    if style.full_ids {
        s.session_id.clone()
    } else {
        helpers::short_id(s.session_id.as_str())
    }
}

fn write_name(s: &ListedSession) -> (r: Option<String>)
    ensures
        text_view(r) == name_of(*s),
{
    match &s.meta {
        Some(m) => copy_text(&m.name),
        None => None,
    }
}

fn write_row(s: &ListedSession, style: SessionStyle) -> (r: String)
    requires
        id_can_be_shown(*s, style),
    ensures
        r@ == session_row(*s, style),
{
    let id = write_id(s, style);
    let size = text::number(s.file_size);
    let spawned: String = if s.is_subagent {
        "true".to_owned()
    } else {
        "false".to_owned()
    };
    let name: String = match write_name(s) {
        Some(n) => n,
        None => String::new(),
    };
    proof {
        assert((match name_of(*s) {
            Some(n) => n,
            None => Seq::empty(),
        }) =~= name@);
    }
    let context: String = if style.context {
        let shown: String = match &s.context {
            Some(c) => c.clone(),
            None => String::new(),
        };
        proof {
            assert(shown@ =~= context_or_nothing(*s));
        }
        let tabless = text::replace(shown.as_str(), '\t', " ");
        let row = text::replace(tabless.as_str(), '\n', " ");
        text::cat2("\t", row.as_str())
    } else {
        String::new()
    };
    let head = text::cat5(id.as_str(), "\t", s.project_path.as_str(), "\t", size.as_str());
    let time = write_modified(s);
    let middle = text::cat5(
        head.as_str(),
        "\t",
        time.as_str(),
        "\t",
        spawned.as_str(),
    );
    text::cat4(middle.as_str(), "\t", name.as_str(), context.as_str())
}

fn write_short(s: &ListedSession, style: SessionStyle) -> (r: String)
    requires
        id_can_be_shown(*s, style),
    ensures
        r@ == session_short(*s, style),
{
    let id = write_id(s, style);
    match &s.context {
        Some(c) => if style.context {
            text::cat3(id.as_str(), ": ", c.as_str())
        } else {
            id
        },
        None => id,
    }
}

fn write_title(s: &ListedSession, style: SessionStyle) -> (r: String)
    requires
        id_can_be_shown(*s, style),
    ensures
        r@ == session_title(*s, style),
{
    let id = write_id(s, style);
    let is_marked: bool = match &s.meta {
        Some(m) => m.bookmarked,
        None => false,
    };
    let star: String = if is_marked {
        "★ ".to_owned()
    } else {
        String::new()
    };
    let name: String = match write_name(s) {
        Some(n) => text::cat5("\"", n.as_str(), "\" (", id.as_str(), ")"),
        None => id,
    };
    let spawned: String = if s.is_subagent {
        " [subagent]".to_owned()
    } else {
        String::new()
    };
    let badge: String = match &s.meta {
        Some(m) => match &m.outcome {
            Some(o) => text::cat3(" [", o.as_str(), "]"),
            None => String::new(),
        },
        None => String::new(),
    };
    let size: String = if style.sizes {
        if s.file_size == 0 {
            text::cat3(" (", s.size_shown.as_str(), " - empty, possibly new or interrupted)")
        } else {
            text::cat3(" (", s.size_shown.as_str(), ")")
        }
    } else {
        String::new()
    };
    let head = text::cat4("  ", star.as_str(), name.as_str(), spawned.as_str());
    text::cat3(head.as_str(), badge.as_str(), size.as_str())
}

fn write_session(s: &ListedSession, style: SessionStyle) -> (r: Vec<String>)
    requires
        id_can_be_shown(*s, style),
    ensures
        views(r@) == session_lines(*s, style),
{
    let mut out: Vec<String> = Vec::new();
    let title = write_title(s, style);
    text::say(&mut out, title.as_str());
    text::say2(&mut out, "    Project: ", s.project_path.as_str());
    let time = write_modified(s);
    text::say2(&mut out, "    Modified: ", time.as_str());
    match &s.meta {
        Some(m) => {
            if m.tags.len() > 0 {
                let tags = text::join(&m.tags, ", ");
                text::say2(&mut out, "    Tags: ", tags.as_str());
            }
        },
        None => {},
    }
    match &s.status {
        Some(t) => text::say2(&mut out, "    Status: ", t.as_str()),
        None => {},
    }
    match &s.context {
        Some(c) => {
            if style.context {
                text::say3(&mut out, "    Context: \"", c.as_str(), "\"");
            }
        },
        None => {},
    }
    proof {
        assert(views(out@) =~= session_lines(*s, style));
    }
    out
}

/// What is printed of the sessions; for JSON see [`sessions_json`].
pub fn print_sessions(
    sessions: &Vec<ListedSession>,
    total: usize,
    limit: usize,
    style: SessionStyle,
    format: OutputFormat,
) -> (r: Vec<String>)
    requires
        !(format is Json) ==> forall|i: int|
            0 <= i < sessions@.len() ==> id_can_be_shown(#[trigger] sessions@[i], style),
    ensures
        views(r@) == sessions_output(sessions@, total, limit, style, format),
{
    let mut out: Vec<String> = Vec::new();
    proof {
        assert(views(out@) =~= Seq::empty());
    }
    match format {
        OutputFormat::Json => {},
        OutputFormat::Tsv => {
            if style.context {
                text::say(
                    &mut out,
                    "session_id\tproject\tsize\tmodified\tsubagent\tname\tcontext",
                );
            } else {
                text::say(&mut out, "session_id\tproject\tsize\tmodified\tsubagent\tname");
            }
            let row = |s: &ListedSession| -> (o: String)
                requires
                    id_can_be_shown(*s, style),
                ensures
                    o@ == session_row(*s, style),
                { write_row(s, style) };
            let ghost g = |s: ListedSession| session_row(s, style);
            text::say_each(&mut out, sessions, row, Ghost(g));
        },
        OutputFormat::Compact => {
            let row = |s: &ListedSession| -> (o: String)
                requires
                    id_can_be_shown(*s, style),
                ensures
                    o@ == session_short(*s, style),
                { write_short(s, style) };
            let ghost g = |s: ListedSession| session_short(s, style);
            text::say_each(&mut out, sessions, row, Ghost(g));
        },
        OutputFormat::Text => {
            if sessions.len() == 0 {
                text::say(&mut out, "No sessions found.");
            } else {
                say_heading(&mut out, "Sessions", sessions.len(), total, limit);
                text::say(&mut out, "");
                let rows = |s: &ListedSession| -> (o: Vec<String>)
                    requires
                        id_can_be_shown(*s, style),
                    ensures
                        views(o@) == session_lines(*s, style),
                    { write_session(s, style) };
                let ghost g = |s: ListedSession| session_lines(s, style);
                text::say_all(&mut out, sessions, rows, Ghost(g));
            }
        },
    }
    proof {
        assert(views(out@) =~= sessions_output(sessions@, total, limit, style, format));
    }
    out
}

// ---------------------------------------------------------------------------
// As JSON
// ---------------------------------------------------------------------------

/// The fields of a project.
pub open spec fn project_fields(p: ListedProject) -> Seq<(Seq<char>, JsonView)> {
    seq![
        ("path"@, JsonView::Text(p.decoded_path@)),
        ("encoded_name"@, JsonView::Text(p.encoded_name@)),
        ("session_count"@, number_json(p.session_count as nat)),
        ("total_size"@, number_json(p.total_size as nat)),
    ]
}

fn project_json(p: &ListedProject) -> (r: Json)
    ensures
        r@ == JsonView::Object(project_fields(*p)),
{
    let mut fields: Vec<(String, Json)> = Vec::new();
    json::put(&mut fields, "path", json::of_text(p.decoded_path.as_str()));
    json::put(&mut fields, "encoded_name", json::of_text(p.encoded_name.as_str()));
    json::put(&mut fields, "session_count", json::of_size(p.session_count));
    json::put(&mut fields, "total_size", json::of_number(p.total_size));
    proof {
        assert(fields_view(fields@) =~= project_fields(*p));
    }
    Json::Object(fields)
}

/// The projects as a JSON list.
pub fn projects_json(projects: &Vec<ListedProject>) -> (r: Json)
    ensures
        r@ == JsonView::Array(
            projects@.map_values(|p: ListedProject| JsonView::Object(project_fields(p))),
        ),
{
    let ghost g = |p: ListedProject| JsonView::Object(project_fields(p));
    json::of_list(projects, project_json, Ghost(g))
}

/// The name of a session, where it was given one.
pub open spec fn given_name(s: ListedSession) -> Option<String> {
    match s.meta {
        Some(m) => m.name,
        None => None,
    }
}

/// The tags of a session.
pub open spec fn given_tags(s: ListedSession) -> Seq<String> {
    match s.meta {
        Some(m) => m.tags@,
        None => Seq::empty(),
    }
}

/// The fields of a session. What it is about stands there where that is asked for.
pub open spec fn session_fields(s: ListedSession, with_context: bool) -> Seq<
    (Seq<char>, JsonView),
> {
    seq![
        ("session_id"@, JsonView::Text(s.session_id@)),
        ("project_path"@, JsonView::Text(s.project_path@)),
        ("is_subagent"@, JsonView::Bool(s.is_subagent)),
        ("file_size"@, number_json(s.file_size as nat)),
        ("modified"@, time_json(Some(s.modified), false)),
    ] + given_text("name"@, given_name(s)) + given_text(
        "context"@,
        if with_context {
            s.context
        } else {
            None
        },
    ) + some_texts("tags"@, given_tags(s)) + seq![
        ("bookmarked"@, JsonView::Bool(s.meta matches Some(m) && m.bookmarked)),
    ]
}

fn session_json(s: &ListedSession, with_context: bool) -> (r: Json)
    ensures
        r@ == JsonView::Object(session_fields(*s, with_context)),
{
    let mut fields: Vec<(String, Json)> = Vec::new();
    json::put(&mut fields, "session_id", json::of_text(s.session_id.as_str()));
    json::put(&mut fields, "project_path", json::of_text(s.project_path.as_str()));
    json::put(&mut fields, "is_subagent", Json::Bool(s.is_subagent));
    json::put(&mut fields, "file_size", json::of_number(s.file_size));
    json::put(&mut fields, "modified", json::of_time(Some(s.modified), false));
    let ghost first = fields_view(fields@);
    let ghost context: Option<String> = if with_context {
        s.context
    } else {
        None
    };
    match &s.meta {
        Some(m) => json::put_given_text(&mut fields, "name", &m.name),
        None => {},
    }
    proof {
        assert(fields_view(fields@) =~= first + given_text("name"@, given_name(*s)));
    }
    let ghost named = fields_view(fields@);
    if with_context {
        json::put_given_text(&mut fields, "context", &s.context);
    }
    proof {
        assert(fields_view(fields@) =~= named + given_text("context"@, context));
    }
    let ghost told = fields_view(fields@);
    let bookmarked: bool = match &s.meta {
        Some(m) => {
            json::put_some_texts(&mut fields, "tags", &m.tags);
            m.bookmarked
        },
        None => false,
    };
    proof {
        assert(fields_view(fields@) =~= told + some_texts("tags"@, given_tags(*s)));
    }
    json::put(&mut fields, "bookmarked", Json::Bool(bookmarked));
    proof {
        assert(fields_view(fields@) =~= session_fields(*s, with_context));
    }
    Json::Object(fields)
}

/// The sessions as a JSON list.
pub fn sessions_json(sessions: &Vec<ListedSession>, with_context: bool) -> (r: Json)
    ensures
        r@ == JsonView::Array(
            sessions@.map_values(
                |s: ListedSession| JsonView::Object(session_fields(s, with_context)),
            ),
        ),
{
    let write = |s: &ListedSession| -> (o: Json)
        ensures
            o@ == JsonView::Object(session_fields(*s, with_context)),
        { session_json(s, with_context) };
    let ghost g = |s: ListedSession| JsonView::Object(session_fields(s, with_context));
    json::of_list(sessions, write, Ghost(g))
}

// ---------------------------------------------------------------------------
// What is listed, and in which order
// ---------------------------------------------------------------------------

/// A session is selected if and only if it meets all that is asked for: its project path holds the
/// project, it is wanted, its file was modified and is as large as the bounds say, one of its tags
/// holds one of the tags, it is bookmarked, and its outcome and its name hold the words without
/// regard to case. What is not asked for excludes nothing; where something is asked of what a person
/// wrote down of a session, there must be such.
pub proof fn selected_sessions_meet_the_query(
    sessions: Seq<ListedSession>,
    q: SessionQuery,
    s: ListedSession,
)
    ensures
        selected(sessions, q).contains(s) <==> {
            let tags = wanted_tags(text_view(q.tag), text_view(q.tags));
            &&& sessions.contains(s)
            &&& q.project is Some ==> has(s.project_path@, q.project->0@)
            &&& s.is_wanted
            &&& q.since is Some ==> q.since->0 <= s.modified
            &&& q.until is Some ==> s.modified <= q.until->0
            &&& q.min_size is Some ==> q.min_size->0 <= s.file_size
            &&& q.max_size is Some ==> s.file_size <= q.max_size->0
            &&& tags.len() > 0 ==> s.meta is Some && exists|k: int, i: int|
                #![trigger tags[k], s.meta->0.tags@[i]]
                0 <= k < tags.len() && 0 <= i < s.meta->0.tags@.len() && has(
                    s.meta->0.tags@[i]@,
                    tags[k],
                )
            &&& q.bookmarked ==> s.meta is Some && s.meta->0.bookmarked
            &&& q.outcome is Some ==> s.meta is Some && s.meta->0.outcome is Some && has(
                lowercase(s.meta->0.outcome->0@),
                lowercase(q.outcome->0@),
            )
            &&& q.by_name is Some ==> s.meta is Some && s.meta->0.name is Some && has(
                lowercase(s.meta->0.name->0@),
                lowercase(q.by_name->0@),
            )
        },
{
    let tags = wanted_tags(text_view(q.tag), text_view(q.tags));
    let p1 = of_project(text_view(q.project));
    let p2 = |s: ListedSession| s.is_wanted;
    let p3 = modified_within(q.since, q.until);
    let p4 = size_within(q.min_size, q.max_size);
    let p5 = carries_tag(tags);
    let p6 = marked(q.bookmarked);
    let p7 = ended_as(text_view(q.outcome));
    let p8 = named(text_view(q.by_name));
    let s1 = sessions.filter(p1);
    let s2 = s1.filter(p2);
    let s3 = s2.filter(p3);
    let s4 = s3.filter(p4);
    let s5 = s4.filter(p5);
    let s6 = s5.filter(p6);
    let s7 = s6.filter(p7);
    order::filtering_is_exact(sessions, p1);
    order::filtering_is_exact(s1, p2);
    order::filtering_is_exact(s2, p3);
    order::filtering_is_exact(s3, p4);
    order::filtering_is_exact(s4, p5);
    order::filtering_is_exact(s5, p6);
    order::filtering_is_exact(s6, p7);
    order::filtering_is_exact(s7, p8);
    assert(selected(sessions, q) == s7.filter(p8));
    assert(s1.contains(s) <==> sessions.contains(s) && p1(s));
    assert(s2.contains(s) <==> s1.contains(s) && p2(s));
    assert(s3.contains(s) <==> s2.contains(s) && p3(s));
    assert(s4.contains(s) <==> s3.contains(s) && p4(s));
    assert(s5.contains(s) <==> s4.contains(s) && p5(s));
    assert(s6.contains(s) <==> s5.contains(s) && p6(s));
    assert(s7.contains(s) <==> s6.contains(s) && p7(s));
    assert(s7.filter(p8).contains(s) <==> s7.contains(s) && p8(s));
    if tags.len() > 0 && s.meta is Some {
        let own = s.meta->0.tags@;
        if exists|k: int| 0 <= k < tags.len() && any_tag_has(own, #[trigger] tags[k]) {
            let k = choose|k: int| 0 <= k < tags.len() && any_tag_has(own, #[trigger] tags[k]);
            let i = choose|i: int| 0 <= i < own.len() && has((#[trigger] own[i])@, tags[k]);
            assert(has(own[i]@, tags[k]));
        }
        if exists|k: int, i: int|
            #![trigger tags[k], own[i]]
            0 <= k < tags.len() && 0 <= i < own.len() && has(own[i]@, tags[k]) {
            let (k, i) = choose|k: int, i: int|
                #![trigger tags[k], own[i]]
                0 <= k < tags.len() && 0 <= i < own.len() && has(own[i]@, tags[k]);
            assert(any_tag_has(own, tags[k]));
        }
    }
}

/// The tags that are asked for are the one that is named alone and the parts of the list between
/// commas, without white space around them.
pub proof fn tags_are_named_alone_or_listed(tag: Option<Seq<char>>, tags: Option<Seq<char>>)
    ensures
        tag is None && tags is None ==> wanted_tags(tag, tags).len() == 0,
        tag is Some ==> wanted_tags(tag, tags).len() > 0 && wanted_tags(tag, tags)[0] == tag->0,
        tag is None && tags is Some ==> wanted_tags(tag, tags).len() == split_of(tags->0, ',').len()
            && forall|i: int|
            0 <= i < split_of(tags->0, ',').len() ==> #[trigger] wanted_tags(tag, tags)[i] == trimmed(
                split_of(tags->0, ',')[i],
            ),
        tag is Some && tags is Some ==> wanted_tags(tag, tags).len() == split_of(
            tags->0,
            ',',
        ).len() + 1,
{
}

/// What is asked for first stands first: the session modified last, the one modified first, the
/// largest, or the one whose id comes first. A limit cuts off none that should stand before one that
/// is listed, and no limit cuts off any.
pub proof fn sessions_are_listed_in_order(sessions: Seq<ListedSession>, sort: SortOrder, limit: usize)
    ensures
        ({
            let list = limited(sorted_by(sessions, comes_before(sort)), limit);
            &&& limit == 0 ==> list.len() == sessions.len()
            &&& limit > 0 ==> list.len() == (if limit < sessions.len() {
                limit as int
            } else {
                sessions.len() as int
            })
            &&& forall|i: int| 0 <= i < list.len() ==> sessions.contains(#[trigger] list[i])
            &&& forall|i: int, j: int|
                0 <= i < j < list.len() ==> stands_no_later(
                    sort,
                    #[trigger] list[i],
                    #[trigger] list[j],
                )
            &&& forall|s: ListedSession, i: int|
                #![trigger sessions.contains(s), list[i]]
                sessions.contains(s) && 0 <= i < list.len() && !list.contains(s)
                    ==> stands_no_later(sort, list[i], s)
        }),
{
    let lt = comes_before(sort);
    lemma_comes_before(sort);
    let k = if limit > 0 {
        limit as int
    } else {
        sessions.len() as int
    };
    order::sorting_permutes(sessions, lt);
    order::first_are_foremost(sessions, lt, k);
    let list = limited(sorted_by(sessions, lt), limit);
    assert(list == first_of_list(sorted_by(sessions, lt), k));
    assert forall|i: int, j: int| 0 <= i < j < list.len() implies stands_no_later(
        sort,
        #[trigger] list[i],
        #[trigger] list[j],
    ) by {
        assert(!lt(list[j], list[i]));
    }
    assert forall|s: ListedSession, i: int|
        #![trigger sessions.contains(s), list[i]]
        sessions.contains(s) && 0 <= i < list.len() && !list.contains(s) implies stands_no_later(
        sort,
        list[i],
        s,
    ) by {
        assert(!lt(s, list[i]));
    }
}

/// One session may stand before another in a list that is sorted like this.
pub open spec fn stands_no_later(sort: SortOrder, a: ListedSession, b: ListedSession) -> bool {
    match sort {
        SortOrder::Modified => a.modified >= b.modified,
        SortOrder::Oldest => a.modified <= b.modified,
        SortOrder::Size => a.file_size >= b.file_size,
        SortOrder::Name => !precedes(b.session_id@, a.session_id@),
    }
}

/// Projects are listed as they came, in the opposite order, by their paths or by their sizes, the
/// largest first; none is left out.
pub proof fn projects_are_listed_in_order(projects: Seq<ListedProject>)
    ensures
        ordered_projects(projects, SortOrder::Modified) == projects,
        forall|i: int|
            0 <= i < projects.len() ==> #[trigger] ordered_projects(
                projects,
                SortOrder::Oldest,
            )[i] == projects[projects.len() - 1 - i],
        ordered_projects(projects, SortOrder::Oldest).len() == projects.len(),
        ({
            let r = ordered_projects(projects, SortOrder::Name);
            &&& r.len() == projects.len()
            &&& forall|p: ListedProject| #[trigger] r.contains(p) <==> projects.contains(p)
            &&& forall|i: int, j: int|
                0 <= i < j < r.len() ==> !precedes(
                    (#[trigger] r[j]).decoded_path@,
                    (#[trigger] r[i]).decoded_path@,
                )
        }),
        ({
            let r = ordered_projects(projects, SortOrder::Size);
            &&& r.len() == projects.len()
            &&& forall|p: ListedProject| #[trigger] r.contains(p) <==> projects.contains(p)
            &&& forall|i: int, j: int|
                0 <= i < j < r.len() ==> (#[trigger] r[j]).total_size <= (
                #[trigger] r[i]).total_size
        }),
{
    let name = |p: ListedProject| p.decoded_path@;
    text::names_give_an_order(name);
    assert(by_path() =~= (|a: ListedProject, b: ListedProject| precedes(name(a), name(b))));
    order::sorting_permutes(projects, by_path());
    order::sorting_orders(projects, by_path());
    order::sorting_permutes(projects, by_total_size());
    order::sorting_orders(projects, by_total_size());
    let r = ordered_projects(projects, SortOrder::Name);
    assert forall|p: ListedProject| #[trigger] r.contains(p) <==> projects.contains(p) by {
        order::lemma_sorted_contains(projects, by_path(), p);
    }
    assert forall|i: int, j: int| 0 <= i < j < r.len() implies !precedes(
        (#[trigger] r[j]).decoded_path@,
        (#[trigger] r[i]).decoded_path@,
    ) by {
        assert(!by_path()(r[j], r[i]));
    }
    let t = ordered_projects(projects, SortOrder::Size);
    assert forall|p: ListedProject| #[trigger] t.contains(p) <==> projects.contains(p) by {
        order::lemma_sorted_contains(projects, by_total_size(), p);
    }
    assert forall|i: int, j: int| 0 <= i < j < t.len() implies (#[trigger] t[j]).total_size <= (
    #[trigger] t[i]).total_size by {
        assert(!by_total_size()(t[j], t[i]));
    }
}

/// A project is listed where its path holds the text that is asked for, if any is.
pub proof fn listed_projects_hold_the_text(
    projects: Seq<ListedProject>,
    filter: Option<Seq<char>>,
    p: ListedProject,
)
    ensures
        projects.filter(path_has(filter)).contains(p) <==> projects.contains(p) && (filter is Some
            ==> has(p.decoded_path@, filter->0)),
{
    order::filtering_is_exact(projects, path_has(filter));
    assert(projects.filter(path_has(filter)).contains(p) <==> projects.contains(p) && path_has(
        filter,
    )(p));
}

/// The gist of a conversation is that of its first message that hands back no results of tools and
/// whose text has a line that is not blank: its first three such lines.
pub proof fn first_telling_message_gives_the_gist(messages: Seq<ContextMessage>, k: int)
    requires
        0 <= k <= messages.len(),
        forall|j: int|
            0 <= j < k ==> (#[trigger] messages[j]).has_tool_results || messages[j].text is None
                || gist_of(messages[j].text->0@, 3, " "@).len() == 0,
    ensures
        k == messages.len() ==> first_gist(messages) is None,
        k < messages.len() && !messages[k].has_tool_results && messages[k].text is Some && gist_of(
            messages[k].text->0@,
            3,
            " "@,
        ).len() > 0 ==> first_gist(messages) == Some(gist_of(messages[k].text->0@, 3, " "@)),
    decreases k,
{
    if k > 0 {
        let rest = messages.drop_first();
        assert(!says_something(messages[0]));
        assert forall|j: int| 0 <= j < k - 1 implies (#[trigger] rest[j]).has_tool_results
            || rest[j].text is None || gist_of(rest[j].text->0@, 3, " "@).len() == 0 by {
            assert(rest[j] == messages[j + 1]);
        }
        first_telling_message_gives_the_gist(rest, k - 1);
    }
}

// ---------------------------------------------------------------------------
// What calls hand back
// ---------------------------------------------------------------------------

/// All is projects and then sessions; either alone is itself.
pub proof fn projects_are_listed_before_sessions(target: ListTarget, r: Vec<ListTarget>)
    ensures
        call_ensures(run, (target,), r) ==> {
            &&& target is All ==> r@.len() == 2 && r@[0] is Projects && r@[1] is Sessions
            &&& !(target is All) ==> r@.len() == 1 && r@[0] == target
        },
{
}

/// Sizes are shown where they are asked for, and where sessions are ordered by them; what a
/// session is about is cut shorter in the compact format alone.
pub proof fn sizes_are_shown_where_they_order(
    sizes: bool,
    sort: SortOrder,
    format: OutputFormat,
    r: bool,
    width: usize,
)
    ensures
        call_ensures(shows_sizes, (sizes, sort), r) ==> (!r <==> !sizes && !(sort is Size)),
        call_ensures(context_width, (format,), width) ==> (width == 60 || width == 100) && (width
            < 100 <==> format is Compact),
{
}

} // verus!
