//! Which sessions are removed. A session that is in use never is.
use vstd::prelude::*;

use crate::commands::helpers;
use crate::commands::helpers::{has_short_id, id_head};
use crate::commands::OutputFormat;
use crate::error::{invalid, invalid_argument, SnatchError};
use crate::json;
use crate::json::{fields_view, number_json, Json, JsonView};
use crate::order;
use crate::text;
use crate::text::{decimal, has, joined, lowercase, trimmed, views};

verus! {

/// A session that may be removed.
#[derive(Debug, Clone, PartialEq, Eq)]
pub struct CleanupSession {
    /// Its id.
    pub session_id: String,
    /// The path of its project.
    pub project_path: String,
    /// The size of its file.
    pub file_size: u64,
    /// The size of its file, as it is shown.
    pub size_shown: String,
    /// When it was last modified.
    pub modified: i128,
    /// Whether another session spawned it.
    pub is_subagent: bool,
    /// Whether it is known to be in use.
    pub is_active: bool,
    /// The path of its file.
    pub path: String,
}

impl CleanupSession {
    /// A copy of the session.
    pub fn copy(&self) -> (r: CleanupSession)
        ensures
            r == *self,
    {
        CleanupSession {
            session_id: self.session_id.clone(),
            project_path: self.project_path.clone(),
            file_size: self.file_size,
            size_shown: self.size_shown.clone(),
            modified: self.modified,
            is_subagent: self.is_subagent,
            is_active: self.is_active,
            path: self.path.clone(),
        }
    }
}

/// Whether a cleanup may be made at all: something must be asked for.
pub fn run(empty: bool, older_than: bool) -> (r: Result<(), SnatchError>)
    ensures
        if !empty && !older_than {
            r matches Err(e) && e@ == invalid(
                "filter"@,
                "At least one filter is required. Use --empty to delete empty sessions or --older-than to delete old sessions."@,
            )
        } else {
            r is Ok
        },
{
    if !empty && !older_than {
        return Err(
            invalid_argument(
                "filter",
                "At least one filter is required. Use --empty to delete empty sessions or --older-than to delete old sessions.".to_owned(),
            ),
        );
    }
    Ok(())
}

// ---------------------------------------------------------------------------
// Which sessions are removed
// ---------------------------------------------------------------------------

/// Why a session is to be removed.
pub open spec fn reasons(s: CleanupSession, empty: bool, cutoff: Option<i128>) -> Seq<Seq<char>> {
    (if empty && s.file_size == 0 {
        seq!["empty (0 bytes)"@]
    } else {
        Seq::empty()
    }) + (if cutoff matches Some(c) && s.modified < c {
        seq!["older than cutoff"@]
    } else {
        Seq::empty()
    })
}

/// Of the project that is asked for, and spawned by no other session unless those are asked for.
pub open spec fn is_considered(project: Option<String>, subagents: bool) -> spec_fn(
    CleanupSession,
) -> bool {
    |s: CleanupSession|
        (project matches Some(p) ==> has(s.project_path@, p@)) && (subagents || !s.is_subagent)
}

/// The sessions that are looked at.
pub fn considered_sessions(
    sessions: Vec<CleanupSession>,
    project: &Option<String>,
    subagents: bool,
) -> (r: Vec<CleanupSession>)
    ensures
        r@ == sessions@.filter(is_considered(*project, subagents)),
{
    let fits = |s: &CleanupSession| -> (o: bool)
        ensures
            o == is_considered(*project, subagents)(*s),
        {
            let there: bool = match project {
                Some(p) => text::contains(s.project_path.as_str(), p.as_str()),
                None => true,
            };
            there && (subagents || !s.is_subagent)
        };
    order::keep(sessions, fits, Ghost(is_considered(*project, subagents)))
}

/// A session that is removed, and why.
#[derive(Debug, Clone, PartialEq, Eq)]
pub struct Doomed {
    /// The session.
    pub session: CleanupSession,
    /// Why.
    pub reason: String,
}

/// The sessions that are removed, and why.
pub open spec fn doomed(sessions: Seq<CleanupSession>, empty: bool, cutoff: Option<i128>) -> Seq<
    (CleanupSession, Seq<char>),
>
    decreases sessions.len(),
{
    if sessions.len() == 0 {
        Seq::empty()
    } else {
        let before = doomed(sessions.drop_last(), empty, cutoff);
        let s = sessions.last();
        if reasons(s, empty, cutoff).len() > 0 && !s.is_active {
            before.push((s, joined(reasons(s, empty, cutoff), ", "@)))
        } else {
            before
        }
    }
}

/// The number of sessions that would be removed but are in use.
pub open spec fn spared(sessions: Seq<CleanupSession>, empty: bool, cutoff: Option<i128>) -> int
    decreases sessions.len(),
{
    if sessions.len() == 0 {
        0
    } else {
        spared(sessions.drop_last(), empty, cutoff) + (if reasons(
            sessions.last(),
            empty,
            cutoff,
        ).len() > 0 && sessions.last().is_active {
            1int
        } else {
            0
        })
    }
}

/// The contents of a list of sessions that are removed.
pub open spec fn doomed_views(list: Seq<Doomed>) -> Seq<(CleanupSession, Seq<char>)> {
    list.map_values(|d: Doomed| (d.session, d.reason@))
}

fn find_reasons(s: &CleanupSession, empty: bool, cutoff: Option<i128>) -> (r: Vec<String>)
    ensures
        views(r@) == reasons(*s, empty, cutoff),
{
    let mut out: Vec<String> = Vec::new();
    if empty && s.file_size == 0 {
        text::say(&mut out, "empty (0 bytes)");
    }
    match cutoff {
        Some(c) => {
            let m: i128 = s.modified;
            if m < c {
                text::say(&mut out, "older than cutoff");
            }
        },
        None => {},
    }
    proof {
        assert(views(out@) =~= reasons(*s, empty, cutoff));
    }
    out
}

/// The sessions that are removed, and the number of those that are spared because they are in
/// use.
pub fn select_sessions(
    sessions: &Vec<CleanupSession>,
    empty: bool,
    cutoff: Option<i128>,
) -> (r: (Vec<Doomed>, usize))
    ensures
        doomed_views(r.0@) == doomed(sessions@, empty, cutoff),
        r.1 == spared(sessions@, empty, cutoff),
{
    let mut out: Vec<Doomed> = Vec::new();
    let mut skipped: usize = 0;
    let mut i: usize = 0;
    let total: usize = sessions.len();
    proof {
        assert(sessions@.take(0) =~= Seq::empty());
        assert(doomed_views(out@) =~= Seq::empty());
    }
    while i < total
        invariant
            total == sessions@.len(),
            i <= total,
            skipped <= i,
            doomed_views(out@) == doomed(sessions@.take(i as int), empty, cutoff),
            skipped == spared(sessions@.take(i as int), empty, cutoff),
        decreases total - i,
    {
        let s = &sessions[i];
        proof {
            let next = sessions@.take(i + 1);
            assert(next.drop_last() =~= sessions@.take(i as int));
            assert(next.last() == *s);
        }
        let why = find_reasons(s, empty, cutoff);
        proof {
            assert(views(why@).len() == why@.len());
        }
        if why.len() > 0 {
            if s.is_active {
                skipped = skipped + 1;
            } else {
                let reason = text::join(&why, ", ");
                let ghost before = doomed_views(out@);
                out.push(Doomed { session: s.copy(), reason });
                proof {
                    assert(doomed_views(out@) =~= before.push(
                        (*s, joined(reasons(*s, empty, cutoff), ", "@)),
                    ));
                }
            }
        }
        i = i + 1;
    }
    proof {
        assert(sessions@.take(i as int) =~= sessions@);
    }
    (out, skipped)
}

/// No session that is in use is removed, and none that nothing speaks against.
pub proof fn only_idle_sessions_are_removed(
    sessions: Seq<CleanupSession>,
    empty: bool,
    cutoff: Option<i128>,
)
    ensures
        forall|i: int|
            0 <= i < doomed(sessions, empty, cutoff).len() ==> {
                let s = (#[trigger] doomed(sessions, empty, cutoff)[i]).0;
                &&& sessions.contains(s)
                &&& !s.is_active
                &&& (empty && s.file_size == 0) || (cutoff matches Some(c) && s.modified < c)
            },
    decreases sessions.len(),
{
    if sessions.len() > 0 {
        let front = sessions.drop_last();
        only_idle_sessions_are_removed(front, empty, cutoff);
        let before = doomed(front, empty, cutoff);
        let all = doomed(sessions, empty, cutoff);
        assert forall|i: int| 0 <= i < all.len() implies ({
            let s = (#[trigger] all[i]).0;
            &&& sessions.contains(s)
            &&& !s.is_active
            &&& (empty && s.file_size == 0) || (cutoff matches Some(c) && s.modified < c)
        }) by {
            if i < before.len() {
                assert(all[i] == before[i]);
                let s = before[i].0;
                let k = choose|k: int| 0 <= k < front.len() && front[k] == s;
                assert(sessions[k] == s);
            } else {
                assert(all[i].0 == sessions[sessions.len() - 1]);
                assert(reasons(sessions.last(), empty, cutoff).len() > 0);
            }
        }
    }
}

/// The sessions that a cleanup removes, and why: those that are looked at and that something speaks
/// against, where removing is allowed.
pub open spec fn removed(
    sessions: Seq<CleanupSession>,
    project: Option<String>,
    subagents: bool,
    empty: bool,
    cutoff: Option<i128>,
    allowed: bool,
) -> Seq<(CleanupSession, Seq<char>)> {
    if allowed {
        doomed(sessions.filter(is_considered(project, subagents)), empty, cutoff)
    } else {
        Seq::empty()
    }
}

/// Nothing is removed where it is only shown or the answer is not yes. Otherwise the sessions that
/// are removed are all of the project that is asked for, empty where empty ones are asked for or
/// older than asked for, not in use, and spawned by no other unless those are asked for.
pub proof fn only_asked_for_sessions_are_removed(
    sessions: Seq<CleanupSession>,
    project: Option<String>,
    subagents: bool,
    empty: bool,
    cutoff: Option<i128>,
    preview: bool,
    yes: bool,
    answer: Option<Seq<char>>,
)
    ensures
        ({
            let gone = removed(
                sessions,
                project,
                subagents,
                empty,
                cutoff,
                removal_allowed(preview, yes, answer),
            );
            &&& preview ==> gone.len() == 0
            &&& !yes && !(answer matches Some(a) && means_yes(lowercase(trimmed(a)))) ==> gone.len()
                == 0
            &&& forall|i: int|
                0 <= i < gone.len() ==> {
                    let s = (#[trigger] gone[i]).0;
                    &&& sessions.contains(s)
                    &&& project matches Some(p) ==> has(s.project_path@, p@)
                    &&& subagents || !s.is_subagent
                    &&& !s.is_active
                    &&& (empty && s.file_size == 0) || (cutoff matches Some(c) && s.modified < c)
                }
        }),
{
    let p = is_considered(project, subagents);
    let kept = sessions.filter(p);
    only_idle_sessions_are_removed(kept, empty, cutoff);
    let gone = doomed(kept, empty, cutoff);
    assert forall|i: int| 0 <= i < gone.len() implies sessions.contains((#[trigger] gone[i]).0)
        && p(gone[i].0) by {
        order::filtered_items_fit(sessions, p, gone[i].0);
    }
}

proof fn lemma_doomed_holds(
    sessions: Seq<CleanupSession>,
    k: int,
    empty: bool,
    cutoff: Option<i128>,
)
    requires
        0 <= k < sessions.len(),
        reasons(sessions[k], empty, cutoff).len() > 0,
        !sessions[k].is_active,
    ensures
        doomed(sessions, empty, cutoff).contains(
            (sessions[k], joined(reasons(sessions[k], empty, cutoff), ", "@)),
        ),
    decreases sessions.len(),
{
    let e = (sessions[k], joined(reasons(sessions[k], empty, cutoff), ", "@));
    let all = doomed(sessions, empty, cutoff);
    if k < sessions.len() - 1 {
        let front = sessions.drop_last();
        lemma_doomed_holds(front, k, empty, cutoff);
        let before = doomed(front, empty, cutoff);
        let m = choose|m: int| 0 <= m < before.len() && before[m] == e;
        assert(all[m] == e);
    } else {
        assert(all[all.len() - 1] == e);
    }
}

/// Where removing is allowed, every session that fits and is not in use is removed.
pub proof fn all_asked_for_sessions_are_removed(
    sessions: Seq<CleanupSession>,
    s: CleanupSession,
    project: Option<String>,
    subagents: bool,
    empty: bool,
    cutoff: Option<i128>,
)
    requires
        sessions.contains(s),
        is_considered(project, subagents)(s),
        !s.is_active,
        (empty && s.file_size == 0) || (cutoff matches Some(c) && s.modified < c),
    ensures
        removed(sessions, project, subagents, empty, cutoff, true).contains(
            (s, joined(reasons(s, empty, cutoff), ", "@)),
        ),
{
    let p = is_considered(project, subagents);
    let kept = sessions.filter(p);
    order::filter_holds(sessions, p, s);
    let k = choose|k: int| 0 <= k < kept.len() && kept[k] == s;
    lemma_doomed_holds(kept, k, empty, cutoff);
}

/// As many sessions are removed or spared as there are sessions that something speaks against.
pub proof fn sessions_are_removed_or_spared(
    sessions: Seq<CleanupSession>,
    empty: bool,
    cutoff: Option<i128>,
)
    ensures
        doomed(sessions, empty, cutoff).len() + spared(sessions, empty, cutoff)
            == sessions.filter(
            |s: CleanupSession| reasons(s, empty, cutoff).len() > 0,
        ).len(),
    decreases sessions.len(),
{
    let p = |s: CleanupSession| reasons(s, empty, cutoff).len() > 0;
    if sessions.len() > 0 {
        broadcast use Seq::lemma_filter_push;

        sessions_are_removed_or_spared(sessions.drop_last(), empty, cutoff);
        assert(sessions =~= sessions.drop_last().push(sessions.last()));
        assert(sessions.filter(p) == (if p(sessions.last()) {
            sessions.drop_last().filter(p).push(sessions.last())
        } else {
            sessions.drop_last().filter(p)
        }));
    } else {
        assert(sessions.filter(p) =~= Seq::empty()) by {
            reveal(Seq::filter);
        }
    }
}

// ---------------------------------------------------------------------------
// Output
// ---------------------------------------------------------------------------

/// The ending of a word for several.
pub open spec fn plural(n: int) -> Seq<char> {
    if n == 1 {
        ""@
    } else {
        "s"@
    }
}

fn write_plural(n: usize) -> (r: String)
    ensures
        r@ == plural(n as int),
{
    if n == 1 {
        "".to_owned()
    } else {
        "s".to_owned()
    }
}

/// What is said where no session is removed.
pub open spec fn nothing_lines(spared: usize) -> Seq<Seq<char>> {
    seq!["No sessions match the cleanup criteria."@] + (if spared > 0 {
        seq![
            "("@ + decimal(spared as nat) + " active session"@ + plural(spared as int)
                + " skipped for safety)"@,
        ]
    } else {
        Seq::empty()
    })
}

/// What is said where no session is removed.
pub fn print_nothing(spared: usize) -> (r: Vec<String>)
    ensures
        views(r@) == nothing_lines(spared),
{
    let mut out: Vec<String> = Vec::new();
    text::say(&mut out, "No sessions match the cleanup criteria.");
    if spared > 0 {
        let digits = text::size(spared);
        let s = write_plural(spared);
        text::say5(
            &mut out,
            "(",
            digits.as_str(),
            " active session",
            s.as_str(),
            " skipped for safety)",
        );
    }
    proof {
        assert(views(out@) =~= nothing_lines(spared));
    }
    out
}

/// The lines of a session that is removed.
pub open spec fn doomed_lines(d: Doomed, verbose: bool) -> Seq<Seq<char>> {
    let title = id_head(d.session.session_id@) + (if d.session.is_subagent {
        " [subagent]"@
    } else {
        ""@
    });
    if verbose {
        seq![
            "  "@ + title,
            "    Project: "@ + d.session.project_path@,
            "    Size: "@ + d.session.size_shown@,
            "    Reason: "@ + d.reason@,
            "    Path: "@ + d.session.path@,
        ]
    } else {
        seq!["  "@ + title + " ("@ + d.session.size_shown@ + ") - "@ + d.reason@]
    }
}

/// What is printed of the sessions that are removed; for JSON there is a value instead.
pub open spec fn doomed_output(
    list: Seq<Doomed>,
    spared: usize,
    total_size: Seq<char>,
    preview: bool,
    verbose: bool,
    format: OutputFormat,
) -> Seq<Seq<char>> {
    match format {
        OutputFormat::Json => Seq::empty(),
        OutputFormat::Tsv => seq!["session_id\tproject\tsize\treason"@] + list.map_values(
            |d: Doomed|
                d.session.session_id@ + "\t"@ + d.session.project_path@ + "\t"@ + decimal(
                    d.session.file_size as nat,
                ) + "\t"@ + d.reason@,
        ),
        OutputFormat::Compact => list.map_values(|d: Doomed| d.session.session_id@),
        OutputFormat::Text => seq![
            if preview {
                "Would delete "@ + decimal(list.len()) + " session"@ + plural(list.len() as int)
                    + " ("@ + total_size + " total):"@
            } else {
                "Found "@ + decimal(list.len()) + " session"@ + plural(list.len() as int)
                    + " to delete ("@ + total_size + " total):"@
            },
            ""@,
        ] + text::spread(list, |d: Doomed| doomed_lines(d, verbose)) + (if spared > 0 {
            seq![
                ""@,
                "Note: "@ + decimal(spared as nat) + " active session"@ + plural(spared as int)
                    + " skipped for safety."@,
            ]
        } else {
            Seq::empty()
        }),
    }
}

fn write_doomed(d: &Doomed, verbose: bool) -> (r: Vec<String>)
    requires
        has_short_id(d.session.session_id@),
    ensures
        views(r@) == doomed_lines(*d, verbose),
{
    let mut out: Vec<String> = Vec::new();
    let id = short_id(d.session.session_id.as_str());
    let mark: String = if d.session.is_subagent {
        " [subagent]".to_owned()
    } else {
        "".to_owned()
    };
    let title = text::cat2(id.as_str(), mark.as_str());
    if verbose {
        text::say2(&mut out, "  ", title.as_str());
        text::say2(&mut out, "    Project: ", d.session.project_path.as_str());
        text::say2(&mut out, "    Size: ", d.session.size_shown.as_str());
        text::say2(&mut out, "    Reason: ", d.reason.as_str());
        text::say2(&mut out, "    Path: ", d.session.path.as_str());
    } else {
        let head = text::cat4("  ", title.as_str(), " (", d.session.size_shown.as_str());
        text::say3(&mut out, head.as_str(), ") - ", d.reason.as_str());
    }
    proof {
        assert(views(out@) =~= doomed_lines(*d, verbose));
    }
    out
}

/// What is printed of the sessions that are removed; for JSON see [`doomed_json`].
pub fn print_doomed(
    list: &Vec<Doomed>,
    spared: usize,
    total_size: &str,
    preview: bool,
    verbose: bool,
    format: OutputFormat,
) -> (r: Vec<String>)
    requires
        format is Text ==> forall|i: int|
            0 <= i < list@.len() ==> has_short_id((#[trigger] list@[i]).session.session_id@),
    ensures
        views(r@) == doomed_output(list@, spared, total_size@, preview, verbose, format),
{
    let mut out: Vec<String> = Vec::new();
    proof {
        assert(views(out@) =~= Seq::empty());
    }
    match format {
        OutputFormat::Json => {},
        OutputFormat::Tsv => {
            text::say(&mut out, "session_id\tproject\tsize\treason");
            let row = |d: &Doomed| -> (o: String)
                ensures
                    o@ == d.session.session_id@ + "\t"@ + d.session.project_path@ + "\t"@
                        + decimal(d.session.file_size as nat) + "\t"@ + d.reason@,
                {
                    let size = text::number(d.session.file_size);
                    let head = text::cat4(
                        d.session.session_id.as_str(),
                        "\t",
                        d.session.project_path.as_str(),
                        "\t",
                    );
                    text::cat4(head.as_str(), size.as_str(), "\t", d.reason.as_str())
                };
            let ghost g = |d: Doomed|
                d.session.session_id@ + "\t"@ + d.session.project_path@ + "\t"@ + decimal(
                    d.session.file_size as nat,
                ) + "\t"@ + d.reason@;
            text::say_each(&mut out, list, row, Ghost(g));
        },
        OutputFormat::Compact => {
            let row = |d: &Doomed| -> (o: String)
                ensures
                    o@ == d.session.session_id@,
                { d.session.session_id.clone() };
            let ghost g = |d: Doomed| d.session.session_id@;
            text::say_each(&mut out, list, row, Ghost(g));
        },
        OutputFormat::Text => {
            let count = text::size(list.len());
            let s = write_plural(list.len());
            if preview {
                let head = text::cat5("Would delete ", count.as_str(), " session", s.as_str(), " (");
                text::say3(&mut out, head.as_str(), total_size, " total):");
            } else {
                let head = text::cat5(
                    "Found ",
                    count.as_str(),
                    " session",
                    s.as_str(),
                    " to delete (",
                );
                text::say3(&mut out, head.as_str(), total_size, " total):");
            }
            text::say(&mut out, "");
            let rows = |d: &Doomed| -> (o: Vec<String>)
                requires
                    has_short_id(d.session.session_id@),
                ensures
                    views(o@) == doomed_lines(*d, verbose),
                { write_doomed(d, verbose) };
            let ghost g = |d: Doomed| doomed_lines(d, verbose);
            text::say_all(&mut out, list, rows, Ghost(g));
            if spared > 0 {
                let digits = text::size(spared);
                let t = write_plural(spared);
                text::say(&mut out, "");
                text::say5(
                    &mut out,
                    "Note: ",
                    digits.as_str(),
                    " active session",
                    t.as_str(),
                    " skipped for safety.",
                );
            }
        },
    }
    proof {
        assert(views(out@) =~= doomed_output(
            list@,
            spared,
            total_size@,
            preview,
            verbose,
            format,
        ));
    }
    out
}

/// The question before sessions are removed.
pub fn question(count: usize) -> (r: String)
    ensures
        r@ == "Delete "@ + decimal(count as nat) + " session"@ + plural(count as int)
            + "? This cannot be undone. [y/N] "@,
{
    let digits = text::size(count);
    let s = write_plural(count);
    text::cat5(
        "Delete ",
        digits.as_str(),
        " session",
        s.as_str(),
        "? This cannot be undone. [y/N] ",
    )
}

/// An answer in small letters means yes.
pub open spec fn means_yes(lower: Seq<char>) -> bool {
    lower == "y"@ || lower == "yes"@
}

/// Whether an answer in small letters means yes.
pub fn is_yes(lower: &str) -> (r: bool)
    ensures
        r == means_yes(lower@),
{
    text::same(lower, "y") || text::same(lower, "yes")
}

/// Whether an answer means yes, whatever the case of its letters and the white space around it.
pub fn is_confirmed(answer: &str) -> (r: bool)
    ensures
        r == means_yes(lowercase(trimmed(answer@))),
{
    let bare = text::trim(answer);
    let lower = text::to_lowercase(bare.as_str());
    is_yes(lower.as_str())
}

/// Sessions may be removed: they are not only shown, and it was said beforehand or is answered now
/// that they be removed.
pub open spec fn removal_allowed(preview: bool, yes: bool, answer: Option<Seq<char>>) -> bool {
    !preview && (yes || (answer matches Some(a) && means_yes(lowercase(trimmed(a)))))
}

/// Whether sessions may be removed.
pub fn may_remove(preview: bool, yes: bool, answer: Option<&str>) -> (r: bool)
    ensures
        r == (!preview && (yes || (answer matches Some(a) && means_yes(lowercase(trimmed(a@)))))),
        answer matches Some(a) ==> r == removal_allowed(preview, yes, Some(a@)),
        answer is None ==> r == removal_allowed(preview, yes, None),
{
    if preview {
        return false;
    }
    if yes {
        return true;
    }
    match answer {
        Some(a) => is_confirmed(a),
        None => false,
    }
}

/// Whether it is asked before sessions are removed: where an answer decides it.
pub fn must_ask(preview: bool, yes: bool) -> (r: bool)
    ensures
        r == (!preview && !yes),
{
    !preview && !yes
}

/// What is said when sessions were removed.
pub fn removed_line(deleted: usize, freed: &str) -> (r: String)
    ensures
        r@ == "Deleted "@ + decimal(deleted as nat) + " session"@ + plural(deleted as int) + " ("@
            + freed@ + ")"@,
{
    let digits = text::size(deleted);
    let s = write_plural(deleted);
    let head = text::cat4("Deleted ", digits.as_str(), " session", s.as_str());
    text::cat4(head.as_str(), " (", freed, ")")
}

/// What is said when sessions could not be removed.
pub fn failed_line(failed: usize) -> (r: String)
    ensures
        r@ == "Failed to delete "@ + decimal(failed as nat) + " session"@ + plural(failed as int),
{
    let digits = text::size(failed);
    let s = write_plural(failed);
    text::cat4("Failed to delete ", digits.as_str(), " session", s.as_str())
}

/// The first eight bytes of an id.
pub fn short_id(id: &str) -> (r: String)
    requires
        has_short_id(id@),
    ensures
        r@ == id_head(id@),
{
    helpers::short_id(id)
}

// ---------------------------------------------------------------------------
// As JSON
// ---------------------------------------------------------------------------

/// The fields of a session that is removed.
pub open spec fn removal_fields(d: Doomed) -> Seq<(Seq<char>, JsonView)> {
    seq![
        ("session_id"@, JsonView::Text(d.session.session_id@)),
        ("project"@, JsonView::Text(d.session.project_path@)),
        ("file_size"@, number_json(d.session.file_size as nat)),
        ("reason"@, JsonView::Text(d.reason@)),
        ("path"@, JsonView::Text(d.session.path@)),
    ]
}

fn removal_json(d: &Doomed) -> (r: Json)
    ensures
        r@ == JsonView::Object(removal_fields(*d)),
{
    let mut fields: Vec<(String, Json)> = Vec::new();
    json::put(&mut fields, "session_id", json::of_text(d.session.session_id.as_str()));
    json::put(&mut fields, "project", json::of_text(d.session.project_path.as_str()));
    json::put(&mut fields, "file_size", json::of_number(d.session.file_size));
    json::put(&mut fields, "reason", json::of_text(d.reason.as_str()));
    json::put(&mut fields, "path", json::of_text(d.session.path.as_str()));
    proof {
        assert(fields_view(fields@) =~= removal_fields(*d));
    }
    Json::Object(fields)
}

/// The sessions that are removed, as a JSON list.
pub fn doomed_json(list: &Vec<Doomed>) -> (r: Json)
    ensures
        r@ == JsonView::Array(list@.map_values(|d: Doomed| JsonView::Object(removal_fields(d)))),
{
    let ghost g = |d: Doomed| JsonView::Object(removal_fields(d));
    json::of_list(list, removal_json, Ghost(g))
}

/// Sessions are removed where that is no preview and it was said beforehand or answered, whatever
/// the case and the white space around the answer, with `y` or `yes`; and never else.
pub proof fn removal_takes_a_yes(preview: bool, yes: bool, answer: Option<Seq<char>>)
    ensures
        removal_allowed(preview, yes, answer) <==> !preview && (yes || (answer is Some && (lowercase(
            trimmed(answer->0),
        ) == "y"@ || lowercase(trimmed(answer->0)) == "yes"@))),
{
}

/// A session is removed if and only if it is one of those in the project that is asked for, is no
/// subagent or subagents are asked for too, is not active, and is empty where empty ones are asked
/// for or was modified before the cutoff. The reason says which of the two holds.
pub proof fn removed_sessions_fit(
    sessions: Seq<CleanupSession>,
    s: CleanupSession,
    reason: Seq<char>,
    project: Option<String>,
    subagents: bool,
    empty: bool,
    cutoff: Option<i128>,
)
    ensures
        removed(sessions, project, subagents, empty, cutoff, true).contains((s, reason)) <==> {
            &&& sessions.contains(s)
            &&& project matches Some(p) ==> has(s.project_path@, p@)
            &&& s.is_subagent ==> subagents
            &&& !s.is_active
            &&& {
                let is_empty = empty && s.file_size == 0;
                let is_old = cutoff is Some && s.modified < cutoff->0;
                (is_empty || is_old) && reason == joined(
                    if is_empty && is_old {
                        seq!["empty (0 bytes)"@, "older than cutoff"@]
                    } else if is_empty {
                        seq!["empty (0 bytes)"@]
                    } else {
                        seq!["older than cutoff"@]
                    },
                    ", "@,
                )
            }
        },
{
    let kept = sessions.filter(is_considered(project, subagents));
    order::filtering_is_exact(sessions, is_considered(project, subagents));
    assert(kept.contains(s) <==> sessions.contains(s) && is_considered(project, subagents)(s));
    lemma_doomed_fit(kept, s, reason, empty, cutoff);
    let is_empty = empty && s.file_size == 0;
    let is_old = cutoff is Some && s.modified < cutoff->0;
    let list = if is_empty && is_old {
        seq!["empty (0 bytes)"@, "older than cutoff"@]
    } else if is_empty {
        seq!["empty (0 bytes)"@]
    } else {
        seq!["older than cutoff"@]
    };
    if is_empty || is_old {
        assert(reasons(s, empty, cutoff) =~= list);
    } else {
        assert(reasons(s, empty, cutoff) =~= Seq::empty());
    }
}

proof fn lemma_doomed_fit(
    sessions: Seq<CleanupSession>,
    s: CleanupSession,
    reason: Seq<char>,
    empty: bool,
    cutoff: Option<i128>,
)
    ensures
        doomed(sessions, empty, cutoff).contains((s, reason)) <==> sessions.contains(s)
            && !s.is_active && reasons(s, empty, cutoff).len() > 0 && reason == joined(
            reasons(s, empty, cutoff),
            ", "@,
        ),
    decreases sessions.len(),
{
    let all = doomed(sessions, empty, cutoff);
    if sessions.len() > 0 {
        let front = sessions.drop_last();
        let before = doomed(front, empty, cutoff);
        lemma_doomed_fit(front, s, reason, empty, cutoff);
        assert(sessions[sessions.len() - 1] == sessions.last());
        if all.contains((s, reason)) {
            let k = choose|k: int| 0 <= k < all.len() && all[k] == (s, reason);
            if k < before.len() {
                assert(before[k] == (s, reason));
                assert(before.contains((s, reason)));
                let i = choose|i: int| 0 <= i < front.len() && front[i] == s;
                assert(sessions[i] == s);
            }
        }
        if sessions.contains(s) && !s.is_active && reasons(s, empty, cutoff).len() > 0 && reason
            == joined(reasons(s, empty, cutoff), ", "@) {
            let i = choose|i: int| 0 <= i < sessions.len() && sessions[i] == s;
            if i < front.len() {
                assert(front[i] == s);
                assert(before.contains((s, reason)));
                let k = choose|k: int| 0 <= k < before.len() && before[k] == (s, reason);
                assert(all[k] == (s, reason));
            } else {
                assert(all[all.len() - 1] == (s, reason));
            }
        }
    }
}

// ---------------------------------------------------------------------------
// What calls hand back
// ---------------------------------------------------------------------------

/// Nothing is removed without a reason to: the work begins if and only if empty or old sessions
/// were asked for.
pub proof fn removal_takes_a_reason(empty: bool, older_than: bool, r: Result<(), SnatchError>)
    ensures
        call_ensures(run, (empty, older_than), r) ==> (r is Err <==> !(empty || older_than)),
{
}

} // verus!
