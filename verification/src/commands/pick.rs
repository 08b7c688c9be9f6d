//! The choice of a session from a list.
use vstd::prelude::*;

use crate::commands::helpers;
use crate::commands::helpers::{has_short_id, id_head, text_view};
use crate::error::{invalid, invalid_argument, ErrorView, SnatchError};
use crate::model::Session;
use crate::names;
use crate::names::name_set;
use crate::order;
use crate::order::{first_of_list, sorted_by, time_before};
use crate::provider::{key_precedes, KeyView, LineageEdge, LineageEdgeKind, LogicalSessionKey};
use crate::text;
use crate::text::{decimal, has, views};
use crate::time;
use crate::time::shown;

verus! {

/// What is done with the session that was chosen.
#[derive(Debug, Clone, Copy, PartialEq, Eq)]
pub enum PickAction {
    /// Its id is printed.
    Export,
    /// It is described.
    Info,
    /// Its numbers are shown.
    Stats,
    /// The path of its file is printed.
    Open,
}

// ---------------------------------------------------------------------------
// Sessions of providers
// ---------------------------------------------------------------------------

/// A session of a provider.
#[derive(Debug, Clone, PartialEq, Eq)]
pub struct PickSession {
    /// The session.
    pub key: LogicalSessionKey,
    /// When it was last modified.
    pub modified_at: Option<i128>,
    /// When it ended.
    pub ended_at: Option<i128>,
    /// When it began.
    pub started_at: Option<i128>,
    /// The directory in which it was run.
    pub cwd: Option<String>,
    /// The size of what is stored of it.
    pub artifact_bytes: u64,
    /// The number of files that are stored of it.
    pub artifact_count: usize,
}

/// A project with its sessions.
#[derive(Debug, Clone, PartialEq, Eq)]
pub struct PickProject {
    /// The name under which it is shown.
    pub label: String,
    /// Whether it is asked for.
    pub is_wanted: bool,
    /// Its sessions.
    pub sessions: Vec<PickSession>,
}

/// A session that can be chosen.
#[derive(Debug, Clone, PartialEq, Eq)]
pub struct ProviderPickCandidate {
    /// The session.
    pub key: LogicalSessionKey,
    /// Its time.
    pub modified_at: Option<i128>,
    /// The directory in which it was run, else its project.
    pub project: String,
    /// Whether another session spawned it.
    pub spawned: bool,
    /// The size of what is stored of it, where anything is.
    pub artifact_bytes: Option<u64>,
    /// The number of files that are stored of it.
    pub artifact_count: usize,
}

/// The contents of a session that can be chosen.
#[verifier::ext_equal]
pub struct CandidateView {
    /// The session.
    pub key: KeyView,
    /// The form under which it is shown.
    pub qualified: Seq<char>,
    /// Its time.
    pub modified_at: Option<i128>,
    /// The directory in which it was run, else its project.
    pub project: Seq<char>,
    /// Whether another session spawned it.
    pub spawned: bool,
    /// The size of what is stored of it, where anything is.
    pub artifact_bytes: Option<u64>,
    /// The number of files that are stored of it.
    pub artifact_count: usize,
}

impl View for ProviderPickCandidate {
    type V = CandidateView;

    open spec fn view(&self) -> CandidateView {
        CandidateView {
            key: self.key@,
            qualified: self.key.qualified@,
            modified_at: self.modified_at,
            project: self.project@,
            spawned: self.spawned,
            artifact_bytes: self.artifact_bytes,
            artifact_count: self.artifact_count,
        }
    }
}

/// Another session spawned this one.
pub open spec fn is_spawned(lineage: Seq<LineageEdge>, key: KeyView) -> bool {
    exists|i: int|
        0 <= i < lineage.len() && (#[trigger] lineage[i]).kind is Spawn && lineage[i].to@ == key
}

fn was_spawned(lineage: &Vec<LineageEdge>, key: &LogicalSessionKey) -> (r: bool)
    ensures
        r == is_spawned(lineage@, key@),
{
    let mut i: usize = 0;
    while i < lineage.len()
        invariant
            i <= lineage@.len(),
            forall|k: int|
                0 <= k < i ==> !((#[trigger] lineage@[k]).kind is Spawn && lineage@[k].to@
                    == key@),
        decreases lineage@.len() - i,
    {
        let spawn: bool = match &lineage[i].kind {
            LineageEdgeKind::Spawn { .. } => true,
            _ => false,
        };
        if spawn && lineage[i].to.same(key) {
            return true;
        }
        i = i + 1;
    }
    false
}

/// The time of a session: when it was modified, else when it ended, else when it began.
pub open spec fn time_of(s: PickSession) -> Option<i128> {
    if s.modified_at is Some {
        s.modified_at
    } else if s.ended_at is Some {
        s.ended_at
    } else {
        s.started_at
    }
}

/// The candidate that a session makes.
pub open spec fn candidate_of(s: PickSession, label: Seq<char>, lineage: Seq<LineageEdge>) -> CandidateView {
    CandidateView {
        key: s.key@,
        qualified: s.key.qualified@,
        modified_at: time_of(s),
        project: match s.cwd {
            Some(d) => d@,
            None => label,
        },
        spawned: is_spawned(lineage, s.key@),
        artifact_bytes: if s.artifact_bytes > 0 {
            Some(s.artifact_bytes)
        } else {
            None
        },
        artifact_count: s.artifact_count,
    }
}

/// The candidates of some sessions of a project.
pub open spec fn candidates_in(
    sessions: Seq<PickSession>,
    label: Seq<char>,
    lineage: Seq<LineageEdge>,
    include_subagents: bool,
) -> Seq<CandidateView>
    decreases sessions.len(),
{
    if sessions.len() == 0 {
        Seq::empty()
    } else {
        let before = candidates_in(sessions.drop_last(), label, lineage, include_subagents);
        if is_spawned(lineage, sessions.last().key@) && !include_subagents {
            before
        } else {
            before.push(candidate_of(sessions.last(), label, lineage))
        }
    }
}

/// The candidates of all projects that are asked for.
pub open spec fn all_candidates(
    projects: Seq<PickProject>,
    lineage: Seq<LineageEdge>,
    include_subagents: bool,
) -> Seq<CandidateView>
    decreases projects.len(),
{
    if projects.len() == 0 {
        Seq::empty()
    } else {
        let before = all_candidates(projects.drop_last(), lineage, include_subagents);
        let p = projects.last();
        if p.is_wanted {
            before + candidates_in(p.sessions@, p.label@, lineage, include_subagents)
        } else {
            before
        }
    }
}

/// The later candidate first; of two equally late, the one whose key comes first.
pub open spec fn later_candidate() -> spec_fn(CandidateView, CandidateView) -> bool {
    |a: CandidateView, b: CandidateView|
        time_before(b.modified_at, a.modified_at) || (a.modified_at == b.modified_at
            && key_precedes(a.key, b.key))
}

spec fn later_exec() -> spec_fn(ProviderPickCandidate, ProviderPickCandidate) -> bool {
    |a: ProviderPickCandidate, b: ProviderPickCandidate| later_candidate()(a@, b@)
}

fn is_later_candidate(a: &ProviderPickCandidate, b: &ProviderPickCandidate) -> (o: bool)
    ensures
        o == later_exec()(*a, *b),
{
    if order::earlier(b.modified_at, a.modified_at) {
        return true;
    }
    let same: bool = match (a.modified_at, b.modified_at) {
        (Some(x), Some(y)) => x == y,
        (None, None) => true,
        _ => false,
    };
    same && a.key.before(&b.key)
}

/// The contents of candidates.
pub open spec fn candidate_views(list: Seq<ProviderPickCandidate>) -> Seq<CandidateView> {
    list.map_values(|c: ProviderPickCandidate| c@)
}

fn write_candidate(s: &PickSession, label: &str, spawned: bool) -> (r: ProviderPickCandidate)
    ensures
        forall|lineage: Seq<LineageEdge>|
            #![trigger candidate_of(*s, label@, lineage)]
            spawned == is_spawned(lineage, s.key@) ==> r@ == candidate_of(*s, label@, lineage),
{
    let modified_at: Option<i128> = if s.modified_at.is_some() {
        s.modified_at
    } else if s.ended_at.is_some() {
        s.ended_at
    } else {
        s.started_at
    };
    let project: String = match &s.cwd {
        Some(d) => d.clone(),
        None => label.to_owned(),
    };
    let artifact_bytes: Option<u64> = if s.artifact_bytes > 0 {
        Some(s.artifact_bytes)
    } else {
        None
    };
    ProviderPickCandidate {
        key: s.key.copy(),
        modified_at,
        project,
        spawned,
        artifact_bytes,
        artifact_count: s.artifact_count,
    }
}

fn project_candidates(
    p: &PickProject,
    lineage: &Vec<LineageEdge>,
    include_subagents: bool,
) -> (r: Vec<ProviderPickCandidate>)
    ensures
        candidate_views(r@) == candidates_in(p.sessions@, p.label@, lineage@, include_subagents),
{
    let mut out: Vec<ProviderPickCandidate> = Vec::new();
    let mut i: usize = 0;
    proof {
        assert(p.sessions@.take(0) =~= Seq::empty());
        assert(candidate_views(out@) =~= Seq::empty());
    }
    while i < p.sessions.len()
        invariant
            i <= p.sessions@.len(),
            candidate_views(out@) == candidates_in(
                p.sessions@.take(i as int),
                p.label@,
                lineage@,
                include_subagents,
            ),
        decreases p.sessions@.len() - i,
    {
        let s = &p.sessions[i];
        proof {
            let next = p.sessions@.take(i + 1);
            assert(next.drop_last() =~= p.sessions@.take(i as int));
            assert(next.last() == *s);
        }
        let spawned = was_spawned(lineage, &s.key);
        if !spawned || include_subagents {
            let c = write_candidate(s, p.label.as_str(), spawned);
            let ghost before = candidate_views(out@);
            proof {
                assert(c@ == candidate_of(*s, p.label@, lineage@));
            }
            out.push(c);
            proof {
                assert(candidate_views(out@) =~= before.push(c@));
            }
        }
        i = i + 1;
    }
    proof {
        assert(p.sessions@.take(i as int) =~= p.sessions@);
    }
    out
}

/// The warning for a session whose project is not known.
pub open spec fn unplaced_warning() -> spec_fn(Seq<char>) -> Seq<char> {
    |key: Seq<char>| key + ": project context unavailable"@
}

/// What is warned of before a session is chosen: the providers that were skipped, then the
/// sessions whose project is not known, in order and each once.
pub fn provider_warnings(skipped: &Vec<String>, unplaced: &Vec<String>) -> (r: Vec<String>)
    ensures
        views(r@) == views(skipped@).map_values(
            |p: Seq<char>| "warning: provider '"@ + p + "' unavailable"@,
        ) + name_set(views(unplaced@).map_values(unplaced_warning())).map_values(
            |w: Seq<char>| "warning: "@ + w,
        ),
{
    let ghost first = |p: Seq<char>| "warning: provider '"@ + p + "' unavailable"@;
    let ghost second = |w: Seq<char>| "warning: "@ + w;
    let mut warnings: Vec<String> = Vec::new();
    let write_unplaced = |key: &String| -> (o: String)
        ensures
            o@ == unplaced_warning()(key@),
        { text::cat2(key.as_str(), ": project context unavailable") };
    text::say_each(
        &mut warnings,
        unplaced,
        write_unplaced,
        Ghost(|key: String| unplaced_warning()(key@)),
    );
    proof {
        assert(views(warnings@) =~= views(unplaced@).map_values(unplaced_warning()));
    }
    let ordered = names::ordered_names(&warnings);
    let mut out: Vec<String> = Vec::new();
    let write_skipped = |p: &String| -> (o: String)
        ensures
            o@ == "warning: provider '"@ + p@ + "' unavailable"@,
        { text::cat3("warning: provider '", p.as_str(), "' unavailable") };
    let write_warning = |w: &String| -> (o: String)
        ensures
            o@ == "warning: "@ + w@,
        { text::cat2("warning: ", w.as_str()) };
    text::say_each(&mut out, skipped, write_skipped, Ghost(|p: String| first(p@)));
    text::say_each(&mut out, &ordered, write_warning, Ghost(|w: String| second(w@)));
    proof {
        assert(views(out@) =~= views(skipped@).map_values(first) + views(ordered@).map_values(
            second,
        ));
    }
    out
}

/// The sessions that can be chosen: the latest first, no more than the limit.
pub fn collect_provider_candidates(
    projects: &Vec<PickProject>,
    lineage: &Vec<LineageEdge>,
    include_subagents: bool,
    limit: usize,
) -> (r: Vec<ProviderPickCandidate>)
    ensures
        candidate_views(r@) == first_of_list(
            sorted_by(
                all_candidates(projects@, lineage@, include_subagents),
                later_candidate(),
            ),
            limit as int,
        ),
{
    let mut all: Vec<ProviderPickCandidate> = Vec::new();
    let mut i: usize = 0;
    proof {
        assert(projects@.take(0) =~= Seq::empty());
        assert(candidate_views(all@) =~= Seq::empty());
    }
    while i < projects.len()
        invariant
            i <= projects@.len(),
            candidate_views(all@) == all_candidates(
                projects@.take(i as int),
                lineage@,
                include_subagents,
            ),
        decreases projects@.len() - i,
    {
        let p = &projects[i];
        proof {
            let next = projects@.take(i + 1);
            assert(next.drop_last() =~= projects@.take(i as int));
            assert(next.last() == *p);
        }
        if p.is_wanted {
            let mut more = project_candidates(p, lineage, include_subagents);
            proof {
                assert(candidate_views(all@ + more@) =~= candidate_views(all@) + candidate_views(
                    more@,
                ));
            }
            all.append(&mut more);
        }
        i = i + 1;
    }
    proof {
        assert(projects@.take(i as int) =~= projects@);
    }
    let ghost before = all@;
    let mut sorted = order::sort(all, is_later_candidate, Ghost(later_exec()));
    proof {
        let f = |c: ProviderPickCandidate| c@;
        order::sorting_maps(before, f, later_exec(), later_candidate());
        assert(before.map_values(f) =~= candidate_views(before));
        assert(sorted@.map_values(f) =~= candidate_views(sorted@));
    }
    let ghost whole = sorted@;
    if limit < sorted.len() {
        sorted.truncate(limit);
    }
    proof {
        assert(candidate_views(sorted@) =~= first_of_list(candidate_views(whole), limit as int));
    }
    sorted
}

proof fn lemma_no_spawned_in(
    sessions: Seq<PickSession>,
    label: Seq<char>,
    lineage: Seq<LineageEdge>,
)
    ensures
        forall|i: int|
            0 <= i < candidates_in(sessions, label, lineage, false).len() ==> !(
            #[trigger] candidates_in(sessions, label, lineage, false)[i]).spawned,
    decreases sessions.len(),
{
    if sessions.len() > 0 {
        lemma_no_spawned_in(sessions.drop_last(), label, lineage);
    }
}

/// Where spawned sessions are not asked for, none can be chosen.
pub proof fn spawned_sessions_are_left_out(projects: Seq<PickProject>, lineage: Seq<LineageEdge>)
    ensures
        forall|i: int|
            0 <= i < all_candidates(projects, lineage, false).len() ==> !(
            #[trigger] all_candidates(projects, lineage, false)[i]).spawned,
    decreases projects.len(),
{
    if projects.len() > 0 {
        spawned_sessions_are_left_out(projects.drop_last(), lineage);
        let p = projects.last();
        lemma_no_spawned_in(p.sessions@, p.label@, lineage);
        let before = all_candidates(projects.drop_last(), lineage, false);
        let own = candidates_in(p.sessions@, p.label@, lineage, false);
        assert forall|i: int| 0 <= i < all_candidates(projects, lineage, false).len() implies !(
        #[trigger] all_candidates(projects, lineage, false)[i]).spawned by {
            if i >= before.len() {
                assert(all_candidates(projects, lineage, false)[i] == own[i - before.len()]);
            }
        }
    }
}

/// Whether the sessions of providers can be treated as is asked for, and which can be chosen.
pub fn run_provider(action: PickAction, candidate_count: usize) -> (r: Result<(), SnatchError>)
    ensures
        if action is Open {
            r matches Err(e) && e@ == invalid(
                "--action open"@,
                "provider-routed sessions do not promise a local source path; omit --provider for the classic filesystem picker, or export the native/archive tier"@,
            )
        } else if candidate_count == 0 {
            r matches Err(e) && e@ == (ErrorView::ConfigError {
                message: "No provider sessions found matching the specified filters"@,
            })
        } else {
            r is Ok
        },
{
    if matches!(action, PickAction::Open) {
        return Err(
            invalid_argument(
                "--action open",
                "provider-routed sessions do not promise a local source path; omit --provider for the classic filesystem picker, or export the native/archive tier".to_owned(),
            ),
        );
    }
    if candidate_count == 0 {
        return Err(
            SnatchError::ConfigError {
                message: "No provider sessions found matching the specified filters".to_owned(),
            },
        );
    }
    Ok(())
}

/// The projects of the candidates.
pub open spec fn candidate_projects(list: Seq<ProviderPickCandidate>) -> Seq<Seq<char>> {
    list.map_values(|c: ProviderPickCandidate| c.project@)
}

/// Whether the projects are shown: where there is more than one.
pub fn shows_provider_projects(list: &Vec<ProviderPickCandidate>) -> (r: bool)
    ensures
        r == (name_set(candidate_projects(list@)).len() > 1),
{
    let mut all: Vec<String> = Vec::new();
    let write = |c: &ProviderPickCandidate| -> (o: String)
        ensures
            o@ == c.project@,
        { c.project.clone() };
    let ghost g = |c: ProviderPickCandidate| c.project@;
    text::say_each(&mut all, list, write, Ghost(g));
    proof {
        assert(views(all@) =~= candidate_projects(list@));
    }
    let set = names::ordered_names(&all);
    proof {
        assert(views(set@).len() == set@.len());
    }
    set.len() > 1
}

// ---------------------------------------------------------------------------
// How sessions are shown
// ---------------------------------------------------------------------------

/// A size, as it is shown: in bytes below a kilobyte; else `scaled`, the number of kilobytes or
/// megabytes with one digit after the point.
pub open spec fn size_text(size: u64, scaled: Seq<char>) -> Seq<char> {
    if size >= 1024 * 1024 {
        scaled + "MB"@
    } else if size >= 1024 {
        scaled + "KB"@
    } else {
        decimal(size as nat) + "B"@
    }
}

/// A size, as it is shown.
pub fn format_size(size: u64, scaled: &str) -> (r: String)
    ensures
        r@ == size_text(size, scaled@),
{
    if size >= 1024 * 1024 {
        text::cat2(scaled, "MB")
    } else if size >= 1024 {
        text::cat2(scaled, "KB")
    } else {
        let digits = text::number(size);
        text::cat2(digits.as_str(), "B")
    }
}

/// How a session is shown: the texts that are not the library's to write.
#[derive(Debug, Clone, PartialEq, Eq)]
pub struct ItemTexts {
    /// Its project, cut to the width of the column.
    pub project: String,
    /// Its size in kilobytes or megabytes.
    pub scaled: String,
}

/// The time, the project and the mark of a spawned session.
pub open spec fn item_middle(
    time: Option<i128>,
    t: ItemTexts,
    show_project: bool,
    spawned: bool,
) -> Seq<char> {
    item_time(time) + (if show_project {
        " | "@ + t.project@
    } else {
        Seq::empty()
    }) + (if spawned {
        " [subagent]"@
    } else {
        Seq::empty()
    })
}

/// The time of a session in its line; nothing where it cannot be shown.
pub open spec fn item_time(time: Option<i128>) -> Seq<char> {
    match time {
        Some(t) => match shown(t, "%Y-%m-%d %H:%M"@) {
            Some(s) => " | "@ + s,
            None => Seq::empty(),
        },
        None => Seq::empty(),
    }
}

fn write_middle(time: Option<i128>, t: &ItemTexts, show_project: bool, spawned: bool) -> (r: String)
    ensures
        r@ == item_middle(time, *t, show_project, spawned),
{
    let told: Option<String> = match time {
        Some(t) => time::show(t, "%Y-%m-%d %H:%M"),
        None => None,
    };
    let clock: String = match told {
        Some(s) => text::cat2(" | ", s.as_str()),
        None => String::new(),
    };
    proof {
        assert(clock@ =~= item_time(time));
    }
    let project: String = if show_project {
        text::cat2(" | ", t.project.as_str())
    } else {
        String::new()
    };
    let mark: String = if spawned {
        " [subagent]".to_owned()
    } else {
        String::new()
    };
    text::cat3(clock.as_str(), project.as_str(), mark.as_str())
}

/// The number of files, with the word for them.
pub open spec fn artifacts_text(count: usize) -> Seq<char> {
    decimal(count as nat) + " "@ + (if count == 1 {
        "artifact"@
    } else {
        "artifacts"@
    })
}

/// How a session of a provider is shown.
pub open spec fn provider_item(c: ProviderPickCandidate, t: ItemTexts, show_project: bool) -> Seq<
    char,
> {
    c.key.qualified@ + item_middle(c.modified_at, t, show_project, c.spawned) + " ("@ + (match c.artifact_bytes {
        Some(size) => size_text(size, t.scaled@) + ", "@,
        None => Seq::empty(),
    }) + artifacts_text(c.artifact_count) + ")"@
}

/// How a session of a provider is shown.
pub fn format_provider_session_item(
    c: &ProviderPickCandidate,
    t: &ItemTexts,
    show_project: bool,
) -> (r: String)
    ensures
        r@ == provider_item(*c, *t, show_project),
{
    let middle = write_middle(c.modified_at, t, show_project, c.spawned);
    let size: String = match c.artifact_bytes {
        Some(size) => {
            let shown = format_size(size, t.scaled.as_str());
            text::cat2(shown.as_str(), ", ")
        },
        None => String::new(),
    };
    let count = text::size(c.artifact_count);
    let word: String = if c.artifact_count == 1 {
        "artifact".to_owned()
    } else {
        "artifacts".to_owned()
    };
    let files = text::cat3(count.as_str(), " ", word.as_str());
    let head = text::cat3(c.key.qualified.as_str(), middle.as_str(), " (");
    text::cat4(head.as_str(), size.as_str(), files.as_str(), ")")
}

/// A session of a provider is always shown with its whole id first.
pub proof fn provider_items_begin_with_ids(
    c: ProviderPickCandidate,
    t: ItemTexts,
    show_project: bool,
)
    ensures
        text::begins(provider_item(c, t, show_project), c.key.qualified@),
{
    let item = provider_item(c, t, show_project);
    assert(item.subrange(0, c.key.qualified@.len() as int) =~= c.key.qualified@);
}

/// The whole seconds of a time since 1970; nothing where it lies before.
pub open spec fn whole_seconds(time: i128) -> Option<i128> {
    if time < 0 {
        None
    } else {
        Some((time - time as int % 1_000_000_000) as i128)
    }
}

/// How a session of the session directory is shown.
pub open spec fn session_item(s: Session, t: ItemTexts, show_project: bool) -> Seq<char> {
    id_head(s.session_id@) + item_middle(
        whole_seconds(s.modified),
        t,
        show_project,
        s.is_subagent,
    ) + " ("@ + size_text(
        s.file_size,
        t.scaled@,
    ) + ")"@
}

/// How a session of the session directory is shown.
pub fn format_session_item(s: &Session, t: &ItemTexts, show_project: bool) -> (r: String)
    requires
        has_short_id(s.session_id@),
    ensures
        r@ == session_item(*s, *t, show_project),
{
    let id = helpers::short_id(s.session_id.as_str());
    let modified: i128 = s.modified;
    let time: Option<i128> = if modified < 0 {
        None
    } else {
        Some(modified - modified % 1_000_000_000)
    };
    let middle = write_middle(time, t, show_project, s.is_subagent);
    let size = format_size(s.file_size, t.scaled.as_str());
    text::cat5(id.as_str(), middle.as_str(), " (", size.as_str(), ")")
}

// ---------------------------------------------------------------------------
// Sessions of the session directory
// ---------------------------------------------------------------------------

/// Of this project, where one is asked for.
pub open spec fn of_project(project: Option<Seq<char>>) -> spec_fn(Session) -> bool {
    |s: Session| project matches Some(p) ==> has(s.project_path@, p)
}

/// The latest first.
pub open spec fn latest_first() -> spec_fn(Session, Session) -> bool {
    |a: Session, b: Session| b.modified < a.modified
}

fn is_later(a: &Session, b: &Session) -> (o: bool)
    ensures
        o == latest_first()(*a, *b),
{
    let x: i128 = a.modified;
    let y: i128 = b.modified;
    y < x
}

/// The most sessions that can be chosen from: a hundred where no other number is asked for.
pub open spec fn limit_of(limit: Option<usize>) -> usize {
    match limit {
        Some(n) => n,
        None => 100,
    }
}

/// The most sessions that can be chosen from.
pub fn effective_limit(limit: Option<usize>) -> (r: usize)
    ensures
        r == limit_of(limit),
{
    match limit {
        Some(n) => n,
        None => 100,
    }
}

/// The sessions that can be chosen: the latest first, no more than the limit. It is an error
/// where there are none.
pub fn run(sessions: Vec<Session>, project: &Option<String>, limit: Option<usize>) -> (r: Result<
    Vec<Session>,
    SnatchError,
>)
    ensures
        ({
            let kept = sessions@.filter(of_project(text_view(*project)));
            if kept.len() == 0 {
                r matches Err(e) && e@ == (ErrorView::ConfigError {
                    message: "No sessions found matching the specified filters"@,
                })
            } else {
                r matches Ok(v) && v@ == first_of_list(
                    sorted_by(kept, latest_first()),
                    limit_of(limit) as int,
                )
            }
        }),
{
    let belongs = |s: &Session| -> (o: bool)
        ensures
            o == of_project(text_view(*project))(*s),
        {
            match project {
                Some(p) => text::contains(s.project_path.as_str(), p.as_str()),
                None => true,
            }
        };
    let kept = order::keep(sessions, belongs, Ghost(of_project(text_view(*project))));
    if kept.len() == 0 {
        return Err(
            SnatchError::ConfigError {
                message: "No sessions found matching the specified filters".to_owned(),
            },
        );
    }
    let mut sorted = order::sort(kept, is_later, Ghost(latest_first()));
    let most = effective_limit(limit);
    if most < sorted.len() {
        sorted.truncate(most);
    }
    Ok(sorted)
}

/// Whether the projects are shown: where there is more than one.
pub fn shows_projects(sessions: &Vec<Session>) -> (r: bool)
    ensures
        r == (name_set(sessions@.map_values(|s: Session| s.project_path@)).len() > 1),
{
    let mut all: Vec<String> = Vec::new();
    let write = |s: &Session| -> (o: String)
        ensures
            o@ == s.project_path@,
        { s.project_path.clone() };
    let ghost g = |s: Session| s.project_path@;
    text::say_each(&mut all, sessions, write, Ghost(g));
    proof {
        assert(views(all@) =~= sessions@.map_values(|s: Session| s.project_path@));
    }
    let set = names::ordered_names(&all);
    proof {
        assert(views(set@).len() == set@.len());
    }
    set.len() > 1
}

/// What is said of the session that was chosen for an export.
pub fn export_notes(id: &str, quoted: bool) -> (r: Vec<String>)
    ensures
        views(r@) == seq![
            "Selected session: "@ + id@,
            if quoted {
                "Tip: Use `snatch export '"@ + id@ + "'` to export this session."@
            } else {
                "Tip: Use `snatch export "@ + id@ + "` to export this session."@
            },
        ],
{
    let mut out: Vec<String> = Vec::new();
    text::say2(&mut out, "Selected session: ", id);
    if quoted {
        text::say3(&mut out, "Tip: Use `snatch export '", id, "'` to export this session.");
    } else {
        text::say3(&mut out, "Tip: Use `snatch export ", id, "` to export this session.");
    }
    proof {
        assert(views(out@) =~= seq![
            "Selected session: "@ + id@,
            if quoted {
                "Tip: Use `snatch export '"@ + id@ + "'` to export this session."@
            } else {
                "Tip: Use `snatch export "@ + id@ + "` to export this session."@
            },
        ]);
    }
    out
}

// ---------------------------------------------------------------------------
// What is offered first
// ---------------------------------------------------------------------------

/// A further session of a project is a candidate unless an edge says that it was spawned and spawned
/// sessions are not asked for. It stands for itself, with the time of its last change, else of its
/// end, else of its beginning, and with its own directory where that is known.
pub proof fn sessions_are_candidates(
    sessions: Seq<PickSession>,
    s: PickSession,
    label: Seq<char>,
    lineage: Seq<LineageEdge>,
    include_subagents: bool,
)
    ensures
        ({
            let before = candidates_in(sessions, label, lineage, include_subagents);
            let after = candidates_in(sessions.push(s), label, lineage, include_subagents);
            let spawned = exists|i: int|
                0 <= i < lineage.len() && (#[trigger] lineage[i]).kind is Spawn && lineage[i].to@
                    == s.key@;
            if spawned && !include_subagents {
                after == before
            } else {
                &&& after.len() == before.len() + 1
                &&& after.drop_last() == before
                &&& after.last().key == s.key@
                &&& after.last().qualified == s.key.qualified@
                &&& after.last().spawned == spawned
                &&& after.last().artifact_count == s.artifact_count
                &&& after.last().artifact_bytes is Some <==> s.artifact_bytes > 0
                &&& s.modified_at is Some ==> after.last().modified_at == s.modified_at
                &&& s.modified_at is None && s.ended_at is Some ==> after.last().modified_at
                    == s.ended_at
                &&& s.modified_at is None && s.ended_at is None ==> after.last().modified_at
                    == s.started_at
                &&& s.cwd is Some ==> after.last().project == s.cwd->0@
                &&& s.cwd is None ==> after.last().project == label
            }
        }),
{
    assert(sessions.push(s).drop_last() =~= sessions);
    let before = candidates_in(sessions, label, lineage, include_subagents);
    let after = candidates_in(sessions.push(s), label, lineage, include_subagents);
    if after.len() > before.len() {
        assert(after.drop_last() =~= before);
    }
}

/// The candidates are those of the projects that are wanted, one project after another, and of no
/// others.
pub proof fn wanted_projects_give_candidates(
    projects: Seq<PickProject>,
    p: PickProject,
    lineage: Seq<LineageEdge>,
    include_subagents: bool,
)
    ensures
        ({
            let before = all_candidates(projects, lineage, include_subagents);
            let after = all_candidates(projects.push(p), lineage, include_subagents);
            &&& !p.is_wanted ==> after == before
            &&& p.is_wanted ==> after == before + candidates_in(
                p.sessions@,
                p.label@,
                lineage,
                include_subagents,
            )
        }),
{
    assert(projects.push(p).drop_last() =~= projects);
}

/// Candidates are offered by their time, the latest first and those without a time last, and at one
/// time by their keys; one that is left out is no later than any that is offered.
pub proof fn latest_candidates_come_first(list: Seq<CandidateView>, count: int)
    requires
        0 <= count,
    ensures
        ({
            let r = first_of_list(sorted_by(list, later_candidate()), count);
            &&& r.len() == (if count < list.len() {
                count
            } else {
                list.len() as int
            })
            &&& forall|i: int| 0 <= i < r.len() ==> list.contains(#[trigger] r[i])
            &&& forall|i: int, j: int|
                0 <= i < j < r.len() ==> order::no_later(
                    (#[trigger] r[j]).modified_at,
                    (#[trigger] r[i]).modified_at,
                ) && (r[i].modified_at == r[j].modified_at ==> !key_precedes(r[j].key, r[i].key))
            &&& forall|c: CandidateView, i: int|
                #![trigger list.contains(c), r[i]]
                list.contains(c) && 0 <= i < r.len() && !r.contains(c) ==> order::no_later(
                    c.modified_at,
                    r[i].modified_at,
                )
        }),
{
    let lt = later_candidate();
    let r = first_of_list(sorted_by(list, lt), count);
    assert forall|a: CandidateView| !#[trigger] lt(a, a) by {
        crate::provider::key_order(a.key, a.key, a.key);
    }
    assert forall|a: CandidateView, b: CandidateView, c: CandidateView|
        #![trigger lt(a, b), lt(b, c)]
        (lt(a, b) && lt(b, c) ==> lt(a, c)) && (!lt(a, b) && !lt(b, c) ==> !lt(a, c)) by {
        crate::provider::key_order(a.key, b.key, c.key);
        crate::provider::key_order(b.key, a.key, c.key);
        crate::provider::key_order(a.key, c.key, b.key);
        crate::provider::key_order(c.key, b.key, a.key);
    }
    order::first_are_foremost(list, lt, count);
    assert forall|i: int, j: int| 0 <= i < j < r.len() implies order::no_later(
        (#[trigger] r[j]).modified_at,
        (#[trigger] r[i]).modified_at,
    ) && (r[i].modified_at == r[j].modified_at ==> !key_precedes(r[j].key, r[i].key)) by {
        assert(!lt(r[j], r[i]));
    }
    assert forall|c: CandidateView, i: int|
        #![trigger list.contains(c), r[i]]
        list.contains(c) && 0 <= i < r.len() && !r.contains(c) implies order::no_later(
        c.modified_at,
        r[i].modified_at,
    ) by {
        assert(!lt(c, r[i]));
    }
}

/// Sessions are offered by when they were modified, the latest first, up to the limit or a hundred;
/// one that is left out was modified no later than any that is offered, or is not in the project
/// that is asked for.
pub proof fn latest_sessions_come_first(
    sessions: Seq<Session>,
    project: Option<Seq<char>>,
    limit: Option<usize>,
)
    ensures
        ({
            let kept = sessions.filter(of_project(project));
            let r = first_of_list(sorted_by(kept, latest_first()), limit_of(limit) as int);
            &&& limit matches Some(n) ==> r.len() <= n
            &&& limit is None ==> r.len() <= 100
            &&& forall|i: int|
                0 <= i < r.len() ==> sessions.contains(#[trigger] r[i]) && (project is Some ==> has(
                    r[i].project_path@,
                    project->0,
                ))
            &&& forall|i: int, j: int|
                0 <= i < j < r.len() ==> (#[trigger] r[j]).modified <= (#[trigger] r[i]).modified
            &&& forall|s: Session| #[trigger]
                sessions.contains(s) && (project is Some ==> has(s.project_path@, project->0))
                    && !r.contains(s) ==> r.len() == (if limit is Some {
                    limit->0 as int
                } else {
                    100
                }) && forall|i: int| 0 <= i < r.len() ==> s.modified <= (#[trigger] r[i]).modified
        }),
{
    let lt = latest_first();
    let kept = sessions.filter(of_project(project));
    let k = limit_of(limit) as int;
    let r = first_of_list(sorted_by(kept, lt), k);
    order::filtering_is_exact(sessions, of_project(project));
    order::first_are_foremost(kept, lt, k);
    order::sorting_permutes(kept, lt);
    assert forall|i: int| 0 <= i < r.len() implies sessions.contains(#[trigger] r[i]) && (project
        is Some ==> has(r[i].project_path@, project->0)) by {
        assert(kept.contains(r[i]));
    }
    assert forall|i: int, j: int| 0 <= i < j < r.len() implies (#[trigger] r[j]).modified <= (
    #[trigger] r[i]).modified by {
        assert(!lt(r[j], r[i]));
    }
    assert forall|s: Session| #[trigger]
        sessions.contains(s) && (project is Some ==> has(s.project_path@, project->0))
            && !r.contains(s) implies r.len() == (if limit is Some {
        limit->0 as int
    } else {
        100
    }) && forall|i: int| 0 <= i < r.len() ==> s.modified <= (#[trigger] r[i]).modified by {
        assert(kept.contains(s) <==> sessions.contains(s) && of_project(project)(s));
        order::lemma_sorted_contains(kept, lt, s);
        assert forall|i: int| 0 <= i < r.len() implies s.modified <= (#[trigger] r[i]).modified by {
            assert(!lt(s, r[i]));
        }
    }
}

/// A time is cut to its whole second, and one before the beginning of the count is none.
pub proof fn times_are_cut_to_seconds(time: i128)
    ensures
        time < 0 ==> whole_seconds(time) is None,
        time >= 0 ==> whole_seconds(time) is Some && whole_seconds(time)->0 <= time
            < whole_seconds(time)->0 + 1_000_000_000 && whole_seconds(time)->0 as int
            % 1_000_000_000 == 0,
{
}

// ---------------------------------------------------------------------------
// What calls hand back
// ---------------------------------------------------------------------------

/// A session of a provider is never opened as a file, and something must be there to be picked.
pub proof fn provider_sessions_are_not_opened(
    action: PickAction,
    candidate_count: usize,
    r: Result<(), SnatchError>,
)
    ensures
        call_ensures(run_provider, (action, candidate_count), r) ==> (r is Ok <==> !(action is Open)
            && candidate_count > 0),
{
}

/// Sessions are offered the latest first, no more than were asked for, and from those at hand;
/// where no project is named, the choice fails only for want of sessions.
pub proof fn latest_sessions_are_offered(
    sessions: Vec<Session>,
    project: Option<String>,
    n: usize,
    r: Result<Vec<Session>, SnatchError>,
    i: int,
    j: int,
)
    ensures
        call_ensures(run, (sessions, &project, Some(n)), r) && r is Ok ==> {
            let v = r->Ok_0@;
            &&& v.len() <= n
            &&& 0 <= i < j < v.len() ==> v[j].modified <= v[i].modified
            &&& 0 <= i < v.len() ==> sessions@.contains(v[i])
        },
        call_ensures(run, (sessions, &project, Some(n)), r) && project is None && r is Err
            ==> sessions@.len() == 0,
{
    let kept = sessions@.filter(of_project(text_view(project)));
    let late = sorted_by(kept, latest_first());
    order::filtering_is_exact(sessions@, of_project(text_view(project)));
    order::sorting_permutes(kept, latest_first());
    order::sorting_orders(kept, latest_first());
    if 0 <= i < late.len() {
        order::lemma_sorted_contains(kept, latest_first(), late[i]);
        assert(late.contains(late[i]));
        assert(kept.contains(late[i]));
        if i < j < late.len() {
            assert(!latest_first()(late[j], late[i]));
        }
    }
    if project is None && sessions@.len() > 0 {
        assert(sessions@.contains(sessions@[0]));
        assert(of_project(text_view(project))(sessions@[0]));
        assert(kept.contains(sessions@[0]));
    }
}

} // verus!
