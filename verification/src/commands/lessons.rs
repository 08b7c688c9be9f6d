//! What went wrong in sessions and how it was put right: errors with their fixes, and corrections
//! of the user.
use vstd::prelude::*;

use crate::commands::file_history::{skipped_words, write_skipped};
use crate::commands::helpers;
use crate::commands::helpers::{has_short_id, id_head, text_view};
use crate::commands::project_lessons::{mode_json, mode_view};
use crate::error::{invalid, invalid_argument, SnatchError};
use crate::json;
use crate::json::{
    fields_view, given_text, number_json, some_items, some_texts, texts_json, Json, JsonView,
};
use crate::order;
use crate::order::{first_of_list, sorted_by};
use crate::text;
use crate::text::{decimal, joined, precedes, repeated, views};

verus! {

/// An error and how it was put right.
#[derive(Debug, Clone, PartialEq, Eq)]
pub struct ErrorFix {
    /// The session.
    pub session_id: Option<String>,
    /// When it happened.
    pub timestamp: Option<String>,
    /// The tool that failed.
    pub tool_name: String,
    /// What is told of its input.
    pub input_summary: Vec<(String, String)>,
    /// The error, in short.
    pub error_preview: String,
    /// How it was put right.
    pub resolution_summary: Option<String>,
    /// The tools that put it right.
    pub resolution_tools: Vec<String>,
}

/// A correction of the user.
#[derive(Debug, Clone, PartialEq, Eq)]
pub struct Correction {
    /// The session.
    pub session_id: Option<String>,
    /// When it was made.
    pub timestamp: Option<String>,
    /// What the user wrote.
    pub user_text: String,
    /// What the assistant had said.
    pub prior_assistant_summary: Option<String>,
}

/// What was found in one session.
#[derive(Debug, Clone, PartialEq, Eq)]
pub struct SessionLessons {
    /// Errors and how they were put right.
    pub error_fix_pairs: Vec<ErrorFix>,
    /// Corrections of the user.
    pub user_corrections: Vec<Correction>,
    /// The number of all errors.
    pub total_errors: usize,
    /// The number of all corrections.
    pub total_corrections: usize,
    /// The tools that failed, and how often.
    pub most_error_prone_tools: Vec<(String, usize)>,
}

/// Nothing was found.
pub open spec fn is_bare(l: SessionLessons) -> bool {
    l.error_fix_pairs@.len() == 0 && l.user_corrections@.len() == 0
}

// ---------------------------------------------------------------------------
// What a run does
// ---------------------------------------------------------------------------

/// The arguments that decide where lessons are looked for.
#[derive(Debug, Clone, PartialEq, Eq)]
pub struct LessonsArgs {
    /// The session.
    pub session_id: Option<String>,
    /// The project.
    pub project: Option<String>,
    /// All sessions.
    pub all: bool,
    /// The providers.
    pub provider: Vec<String>,
}

/// Where lessons are looked for.
#[derive(Debug, Clone, PartialEq, Eq)]
pub enum LessonsRoute {
    /// In the sessions of several providers.
    Providers,
    /// In the sessions of the session directory.
    Sessions,
    /// In one session.
    Single {
        /// Its id.
        session_id: String,
        /// Whether it is taken from a provider.
        from_provider: bool,
    },
}

/// Where lessons are looked for. `looks_qualified` says whether the session id, where one is
/// given, is that of a provider.
pub fn run(args: &LessonsArgs, looks_qualified: bool) -> (r: Result<LessonsRoute, SnatchError>)
    ensures
        if args.project is Some || args.all {
            if args.provider@.len() > 0 {
                if args.session_id is Some && looks_qualified {
                    r matches Err(e) && e@ == invalid(
                        "session_id"@,
                        "a session id cannot be combined with a project/all provider union"@,
                    )
                } else {
                    r == Ok::<LessonsRoute, SnatchError>(LessonsRoute::Providers)
                }
            } else if args.session_id is Some && looks_qualified {
                r matches Err(e) && e@ == invalid(
                    "session_id"@,
                    "a qualified session id cannot be combined with --project/--all"@,
                )
            } else {
                r == Ok::<LessonsRoute, SnatchError>(LessonsRoute::Sessions)
            }
        } else {
            match args.session_id {
                Some(id) => r matches Ok(LessonsRoute::Single { session_id, from_provider })
                    && session_id@ == id@ && from_provider == (args.provider@.len() > 0
                    || looks_qualified),
                None => r matches Err(e) && e@ == invalid(
                    "session_id"@,
                    "session ID is required unless --project or --all is specified"@,
                ),
            }
        },
{
    if args.project.is_some() || args.all {
        let qualified_request: bool = args.session_id.is_some() && looks_qualified;
        if args.provider.len() > 0 {
            if qualified_request {
                return Err(
                    invalid_argument(
                        "session_id",
                        "a session id cannot be combined with a project/all provider union".to_owned(),
                    ),
                );
            }
            return Ok(LessonsRoute::Providers);
        }
        if qualified_request {
            return Err(
                invalid_argument(
                    "session_id",
                    "a qualified session id cannot be combined with --project/--all".to_owned(),
                ),
            );
        }
        return Ok(LessonsRoute::Sessions);
    }
    match &args.session_id {
        Some(id) => Ok(
            LessonsRoute::Single {
                session_id: id.clone(),
                from_provider: args.provider.len() > 0 || looks_qualified,
            },
        ),
        None => Err(
            invalid_argument(
                "session_id",
                "session ID is required unless --project or --all is specified".to_owned(),
            ),
        ),
    }
}

/// What becomes of a session that cannot be read: an error where exactly these sessions were
/// asked for, else a warning.
pub fn continue_or_record_failure(
    atomic: bool,
    key: &str,
    warnings: &mut Vec<String>,
    reason: &str,
) -> (r: Result<(), SnatchError>)
    ensures
        atomic ==> (r matches Err(e) && e@ == invalid(
            key@,
            "selected session could not be parsed: "@ + reason@,
        )) && views(final(warnings)@) == views(old(warnings)@),
        !atomic ==> r is Ok && views(final(warnings)@) == views(old(warnings)@).push(
            key@ + ": parse failed"@,
        ),
{
    if atomic {
        return Err(
            invalid_argument(key, text::cat2("selected session could not be parsed: ", reason)),
        );
    }
    text::say2(warnings, key, ": parse failed");
    Ok(())
}

// ---------------------------------------------------------------------------
// How often tools failed
// ---------------------------------------------------------------------------

/// The contents of a list of tools and numbers.
pub open spec fn counts_view(counts: Seq<(String, usize)>) -> Seq<(Seq<char>, int)> {
    Seq::new(counts.len(), |i: int| (counts[i].0@, counts[i].1 as int))
}

/// The place of a tool in the list; the length of the list where it is not there.
pub open spec fn tool_place(counts: Seq<(Seq<char>, int)>, tool: Seq<char>) -> int
    decreases counts.len(),
{
    if counts.len() == 0 {
        0
    } else {
        let before = tool_place(counts.drop_last(), tool);
        if before < counts.len() - 1 {
            before
        } else if counts.last().0 == tool {
            counts.len() - 1
        } else {
            counts.len() as int
        }
    }
}

/// The list with one more number for a tool: added to that of the tool, or put behind the others.
pub open spec fn with_count(counts: Seq<(Seq<char>, int)>, tool: Seq<char>, n: int) -> Seq<
    (Seq<char>, int),
> {
    let k = tool_place(counts, tool);
    if k < counts.len() {
        counts.update(k, (tool, counts[k].1 + n))
    } else {
        counts.push((tool, n))
    }
}

/// The list with more numbers.
pub open spec fn with_counts(
    counts: Seq<(Seq<char>, int)>,
    more: Seq<(Seq<char>, int)>,
) -> Seq<(Seq<char>, int)>
    decreases more.len(),
{
    if more.len() == 0 {
        counts
    } else {
        with_count(with_counts(counts, more.drop_last()), more.last().0, more.last().1)
    }
}

/// No number is too large.
pub open spec fn counts_fit(counts: Seq<(Seq<char>, int)>) -> bool {
    forall|i: int| 0 <= i < counts.len() ==> (#[trigger] counts[i]).1 <= usize::MAX
}

proof fn lemma_tool_place(counts: Seq<(Seq<char>, int)>, tool: Seq<char>)
    ensures
        0 <= tool_place(counts, tool) <= counts.len(),
        tool_place(counts, tool) < counts.len() ==> counts[tool_place(counts, tool)].0 == tool,
        forall|j: int| 0 <= j < tool_place(counts, tool) ==> (#[trigger] counts[j]).0 != tool,
    decreases counts.len(),
{
    if counts.len() > 0 {
        let front = counts.drop_last();
        lemma_tool_place(front, tool);
        assert forall|j: int| 0 <= j < tool_place(counts, tool) implies (
        #[trigger] counts[j]).0 != tool by {
            if j < front.len() {
                assert(front[j] == counts[j]);
            }
        }
    }
}

proof fn lemma_place_is(counts: Seq<(Seq<char>, int)>, tool: Seq<char>, k: int)
    requires
        0 <= k <= counts.len(),
        k < counts.len() ==> counts[k].0 == tool,
        forall|j: int| 0 <= j < k ==> (#[trigger] counts[j]).0 != tool,
    ensures
        tool_place(counts, tool) == k,
{
    lemma_tool_place(counts, tool);
    let p = tool_place(counts, tool);
    if p < k {
        assert(counts[p].0 == tool);
    }
    if k < p {
        assert(counts[k].0 != tool);
    }
}

proof fn lemma_counts_grow(
    counts: Seq<(Seq<char>, int)>,
    more: Seq<(Seq<char>, int)>,
    k: int,
)
    requires
        0 <= k <= more.len(),
        forall|i: int| 0 <= i < more.len() ==> (#[trigger] more[i]).1 >= 0,
    ensures
        with_counts(counts, more.take(k)).len() <= with_counts(counts, more).len(),
        forall|i: int|
            0 <= i < with_counts(counts, more.take(k)).len() ==> (#[trigger] with_counts(
                counts,
                more.take(k),
            )[i]).1 <= with_counts(counts, more)[i].1,
    decreases more.len(),
{
    if k == more.len() {
        assert(more.take(k) =~= more);
    } else {
        let front = more.drop_last();
        lemma_counts_grow(counts, front, k);
        assert(front.take(k) =~= more.take(k));
        let before = with_counts(counts, front);
        lemma_tool_place(before, more.last().0);
        assert(more.last() == more[more.len() - 1]);
    }
}

fn find_tool(counts: &Vec<(String, usize)>, tool: &str) -> (r: usize)
    ensures
        r == tool_place(counts_view(counts@), tool@),
        r <= counts@.len(),
{
    let mut k: usize = 0;
    while k < counts.len()
        invariant
            k <= counts@.len(),
            forall|j: int| 0 <= j < k ==> (#[trigger] counts_view(counts@)[j]).0 != tool@,
        decreases counts@.len() - k,
    {
        if text::same(counts[k].0.as_str(), tool) {
            proof {
                lemma_place_is(counts_view(counts@), tool@, k as int);
            }
            return k;
        }
        k = k + 1;
    }
    proof {
        lemma_place_is(counts_view(counts@), tool@, k as int);
    }
    k
}

/// Adds the numbers of one session to those of the others.
pub fn add_counts(counts: Vec<(String, usize)>, more: &Vec<(String, usize)>) -> (r: Vec<
    (String, usize),
>)
    requires
        counts_fit(with_counts(counts_view(counts@), counts_view(more@))),
    ensures
        counts_view(r@) == with_counts(counts_view(counts@), counts_view(more@)),
{
    let ghost start = counts_view(counts@);
    let ghost all = counts_view(more@);
    let mut out = counts;
    let mut i: usize = 0;
    proof {
        assert(all.take(0) =~= Seq::empty());
    }
    while i < more.len()
        invariant
            i <= more@.len(),
            all == counts_view(more@),
            counts_fit(with_counts(start, all)),
            counts_view(out@) == with_counts(start, all.take(i as int)),
        decreases more@.len() - i,
    {
        let ghost before = counts_view(out@);
        let ghost next = all.take(i + 1);
        let k = find_tool(&out, more[i].0.as_str());
        proof {
            assert(next.drop_last() =~= all.take(i as int));
            assert(next.last() == all[i as int]);
            lemma_counts_grow(start, all, i + 1);
            lemma_tool_place(before, all[i as int].0);
            if k < out@.len() {
                assert(with_counts(start, next)[k as int].1 == before[k as int].1
                    + all[i as int].1);
                assert(with_counts(start, all)[k as int].1 <= usize::MAX);
            }
        }
        if k < out.len() {
            let tool: String = out[k].0.clone();
            let sum: usize = out[k].1 + more[i].1;
            out.set(k, (tool, sum));
        } else {
            out.push((more[i].0.clone(), more[i].1));
        }
        proof {
            assert(counts_view(out@) =~= with_counts(start, next));
        }
        i = i + 1;
    }
    proof {
        assert(all.take(i as int) =~= all);
    }
    out
}

/// The number of all failures.
pub open spec fn failures_in(counts: Seq<(Seq<char>, int)>) -> int
    decreases counts.len(),
{
    if counts.len() == 0 {
        0
    } else {
        failures_in(counts.drop_last()) + counts.last().1
    }
}

proof fn lemma_failures_update(counts: Seq<(Seq<char>, int)>, k: int, x: (Seq<char>, int))
    requires
        0 <= k < counts.len(),
    ensures
        failures_in(counts.update(k, x)) == failures_in(counts) - counts[k].1 + x.1,
    decreases counts.len(),
{
    if k < counts.len() - 1 {
        lemma_failures_update(counts.drop_last(), k, x);
        assert(counts.update(k, x).drop_last() =~= counts.drop_last().update(k, x));
    } else {
        assert(counts.update(k, x).drop_last() =~= counts.drop_last());
    }
}

/// No failure is lost or counted twice when the numbers of sessions are put together.
pub proof fn failures_add_up(counts: Seq<(Seq<char>, int)>, more: Seq<(Seq<char>, int)>)
    ensures
        failures_in(with_counts(counts, more)) == failures_in(counts) + failures_in(more),
    decreases more.len(),
{
    if more.len() > 0 {
        let before = with_counts(counts, more.drop_last());
        failures_add_up(counts, more.drop_last());
        let k = tool_place(before, more.last().0);
        lemma_tool_place(before, more.last().0);
        if k < before.len() {
            lemma_failures_update(before, k, (more.last().0, before[k].1 + more.last().1));
        } else {
            let after = before.push((more.last().0, more.last().1));
            assert(after.drop_last() =~= before);
        }
    }
}

/// The tool that failed more often first.
pub open spec fn fails_more() -> spec_fn((String, usize), (String, usize)) -> bool {
    |a: (String, usize), b: (String, usize)| b.1 < a.1
}

fn does_fail_more(a: &(String, usize), b: &(String, usize)) -> (o: bool)
    ensures
        o == fails_more()(*a, *b),
{
    let x: usize = a.1;
    let y: usize = b.1;
    y < x
}

/// The tools, the one that failed most often first.
pub fn order_tools(counts: Vec<(String, usize)>) -> (r: Vec<(String, usize)>)
    ensures
        r@ == sorted_by(counts@, fails_more()),
{
    order::sort(counts, does_fail_more, Ghost(fails_more()))
}

// ---------------------------------------------------------------------------
// Putting sessions together
// ---------------------------------------------------------------------------

/// What was found so far.
#[derive(Debug, Clone, PartialEq, Eq)]
pub struct LessonsSoFar {
    /// Errors and how they were put right.
    pub error_fix_pairs: Vec<ErrorFix>,
    /// Corrections of the user.
    pub user_corrections: Vec<Correction>,
    /// The tools that failed, and how often.
    pub tools: Vec<(String, usize)>,
    /// The number of sessions that were looked at.
    pub sessions_scanned: usize,
    /// The number of sessions in which something was found.
    pub sessions_with_lessons: usize,
    /// The number of all errors, at most the largest number there is.
    pub total_errors: usize,
    /// The number of all corrections, at most the largest number there is.
    pub total_corrections: usize,
}

/// An error with the session written on it.
pub open spec fn is_pair_of(q: ErrorFix, p: ErrorFix, session_id: Seq<char>) -> bool {
    &&& text_view(q.session_id) == Some(session_id)
    &&& q.timestamp == p.timestamp
    &&& q.tool_name == p.tool_name
    &&& q.input_summary == p.input_summary
    &&& q.error_preview == p.error_preview
    &&& q.resolution_summary == p.resolution_summary
    &&& q.resolution_tools == p.resolution_tools
}

/// A correction with the session written on it.
pub open spec fn is_correction_of(q: Correction, p: Correction, session_id: Seq<char>) -> bool {
    &&& text_view(q.session_id) == Some(session_id)
    &&& q.timestamp == p.timestamp
    &&& q.user_text == p.user_text
    &&& q.prior_assistant_summary == p.prior_assistant_summary
}

/// The errors of a session put behind the others, with the session written on them.
pub open spec fn pairs_added(
    after: Seq<ErrorFix>,
    before: Seq<ErrorFix>,
    found: Seq<ErrorFix>,
    session_id: Seq<char>,
) -> bool {
    &&& after.len() == before.len() + found.len()
    &&& forall|i: int| 0 <= i < before.len() ==> #[trigger] after[i] == before[i]
    &&& forall|i: int|
        0 <= i < found.len() ==> is_pair_of(
            #[trigger] after[before.len() + i],
            found[i],
            session_id,
        )
}

/// The corrections of a session put behind the others, with the session written on them.
pub open spec fn corrections_added(
    after: Seq<Correction>,
    before: Seq<Correction>,
    found: Seq<Correction>,
    session_id: Seq<char>,
) -> bool {
    &&& after.len() == before.len() + found.len()
    &&& forall|i: int| 0 <= i < before.len() ==> #[trigger] after[i] == before[i]
    &&& forall|i: int|
        0 <= i < found.len() ==> is_correction_of(
            #[trigger] after[before.len() + i],
            found[i],
            session_id,
        )
}

/// A sum, at most the largest number there is.
pub open spec fn capped_sum(a: usize, b: usize) -> int {
    if a + b <= usize::MAX {
        a + b
    } else {
        usize::MAX as int
    }
}

/// What one more session changes.
pub open spec fn adds_lessons(
    before: LessonsSoFar,
    after: LessonsSoFar,
    found: SessionLessons,
    session_id: Seq<char>,
) -> bool {
    &&& after.sessions_scanned == before.sessions_scanned + 1
    &&& after.total_errors == capped_sum(before.total_errors, found.total_errors)
    &&& after.total_corrections == capped_sum(before.total_corrections, found.total_corrections)
    &&& if is_bare(found) {
        &&& after.sessions_with_lessons == before.sessions_with_lessons
        &&& after.tools == before.tools
        &&& after.error_fix_pairs == before.error_fix_pairs
        &&& after.user_corrections == before.user_corrections
    } else {
        &&& after.sessions_with_lessons == before.sessions_with_lessons + 1
        &&& counts_view(after.tools@) == with_counts(
            counts_view(before.tools@),
            counts_view(found.most_error_prone_tools@),
        )
        &&& pairs_added(
            after.error_fix_pairs@,
            before.error_fix_pairs@,
            found.error_fix_pairs@,
            session_id,
        )
        &&& corrections_added(
            after.user_corrections@,
            before.user_corrections@,
            found.user_corrections@,
            session_id,
        )
    }
}

fn append_pairs(before: Vec<ErrorFix>, found: Vec<ErrorFix>, session_id: &str) -> (r: Vec<ErrorFix>)
    ensures
        pairs_added(r@, before@, found@, session_id@),
{
    let ghost start = before@;
    let ghost source = found@;
    let mut out = before;
    for p in it: found
        invariant
            it.seq() == source,
            out@.len() == start.len() + it.index(),
            forall|i: int| 0 <= i < start.len() ==> #[trigger] out@[i] == start[i],
            forall|i: int|
                0 <= i < it.index() ==> is_pair_of(
                    #[trigger] out@[start.len() + i],
                    source[i],
                    session_id@,
                ),
    {
        let mut q = p;
        q.session_id = Some(session_id.to_owned());
        out.push(q);
    }
    out
}

fn append_corrections(
    before: Vec<Correction>,
    found: Vec<Correction>,
    session_id: &str,
) -> (r: Vec<Correction>)
    ensures
        corrections_added(r@, before@, found@, session_id@),
{
    let ghost start = before@;
    let ghost source = found@;
    let mut out = before;
    for p in it: found
        invariant
            it.seq() == source,
            out@.len() == start.len() + it.index(),
            forall|i: int| 0 <= i < start.len() ==> #[trigger] out@[i] == start[i],
            forall|i: int|
                0 <= i < it.index() ==> is_correction_of(
                    #[trigger] out@[start.len() + i],
                    source[i],
                    session_id@,
                ),
    {
        let mut q = p;
        q.session_id = Some(session_id.to_owned());
        out.push(q);
    }
    out
}

/// Adds what was found in one session.
pub fn add_lessons(so_far: LessonsSoFar, found: SessionLessons, session_id: &str) -> (r:
    LessonsSoFar)
    requires
        so_far.sessions_scanned < usize::MAX,
        so_far.sessions_with_lessons < usize::MAX,
        !is_bare(found) ==> counts_fit(
            with_counts(
                counts_view(so_far.tools@),
                counts_view(found.most_error_prone_tools@),
            ),
        ),
    ensures
        adds_lessons(so_far, r, found, session_id@),
{
    let scanned: usize = so_far.sessions_scanned + 1;
    let total_errors: usize = so_far.total_errors.saturating_add(found.total_errors);
    let total_corrections: usize = so_far.total_corrections.saturating_add(
        found.total_corrections,
    );
    if found.error_fix_pairs.len() == 0 && found.user_corrections.len() == 0 {
        return LessonsSoFar {
            error_fix_pairs: so_far.error_fix_pairs,
            user_corrections: so_far.user_corrections,
            tools: so_far.tools,
            sessions_scanned: scanned,
            sessions_with_lessons: so_far.sessions_with_lessons,
            total_errors,
            total_corrections,
        };
    }
    let tools = add_counts(so_far.tools, &found.most_error_prone_tools);
    let pairs = append_pairs(so_far.error_fix_pairs, found.error_fix_pairs, session_id);
    let corrections = append_corrections(
        so_far.user_corrections,
        found.user_corrections,
        session_id,
    );
    LessonsSoFar {
        error_fix_pairs: pairs,
        user_corrections: corrections,
        tools,
        sessions_scanned: scanned,
        sessions_with_lessons: so_far.sessions_with_lessons + 1,
        total_errors,
        total_corrections,
    }
}

/// What has no time comes first, the rest in the order of the times as they are written.
pub open spec fn stamp_before(a: Option<String>, b: Option<String>) -> bool {
    match (a, b) {
        (None, Some(_)) => true,
        (Some(x), Some(y)) => precedes(x@, y@),
        _ => false,
    }
}

fn is_stamped_before(a: &Option<String>, b: &Option<String>) -> (r: bool)
    ensures
        r == stamp_before(*a, *b),
{
    match (a, b) {
        (None, Some(_)) => true,
        (Some(x), Some(y)) => text::before(x.as_str(), y.as_str()),
        _ => false,
    }
}

/// The order of errors.
pub open spec fn pair_before() -> spec_fn(ErrorFix, ErrorFix) -> bool {
    |a: ErrorFix, b: ErrorFix| stamp_before(a.timestamp, b.timestamp)
}

/// The order of corrections.
pub open spec fn correction_before() -> spec_fn(Correction, Correction) -> bool {
    |a: Correction, b: Correction| stamp_before(a.timestamp, b.timestamp)
}

/// In the order of time, no more than the limit of each; and the tools, the one that failed most
/// often first.
pub open spec fn is_finished(r: LessonsSoFar, so_far: LessonsSoFar, limit: int) -> bool {
    &&& r.error_fix_pairs@ == first_of_list(
        sorted_by(so_far.error_fix_pairs@, pair_before()),
        limit,
    )
    &&& r.user_corrections@ == first_of_list(
        sorted_by(so_far.user_corrections@, correction_before()),
        limit,
    )
    &&& r.tools@ == sorted_by(so_far.tools@, fails_more())
    &&& r.sessions_scanned == so_far.sessions_scanned
    &&& r.sessions_with_lessons == so_far.sessions_with_lessons
    &&& r.total_errors == so_far.total_errors
    &&& r.total_corrections == so_far.total_corrections
}

/// What was found in the sessions of several providers, in the order of time, no more than the
/// limit of each; and the tools, the one that failed most often first.
pub fn finish_providers(so_far: LessonsSoFar, limit: usize) -> (r: LessonsSoFar)
    ensures
        is_finished(r, so_far, limit as int),
{
    let earlier_pair = |a: &ErrorFix, b: &ErrorFix| -> (o: bool)
        ensures
            o == pair_before()(*a, *b),
        { is_stamped_before(&a.timestamp, &b.timestamp) };
    let earlier_correction = |a: &Correction, b: &Correction| -> (o: bool)
        ensures
            o == correction_before()(*a, *b),
        { is_stamped_before(&a.timestamp, &b.timestamp) };
    let mut pairs = order::sort(so_far.error_fix_pairs, earlier_pair, Ghost(pair_before()));
    let mut corrections = order::sort(
        so_far.user_corrections,
        earlier_correction,
        Ghost(correction_before()),
    );
    if limit < pairs.len() {
        pairs.truncate(limit);
    }
    if limit < corrections.len() {
        corrections.truncate(limit);
    }
    LessonsSoFar {
        error_fix_pairs: pairs,
        user_corrections: corrections,
        tools: order_tools(so_far.tools),
        sessions_scanned: so_far.sessions_scanned,
        sessions_with_lessons: so_far.sessions_with_lessons,
        total_errors: so_far.total_errors,
        total_corrections: so_far.total_corrections,
    }
}

// ---------------------------------------------------------------------------
// All sessions
// ---------------------------------------------------------------------------

/// A session and what was found in it, or why it could not be read.
#[derive(Debug, PartialEq, Eq)]
pub struct ReadSession {
    /// Its id.
    pub session_id: String,
    /// What was found in it.
    pub outcome: Result<SessionLessons, String>,
}

/// Before the first session.
pub open spec fn is_blank(l: LessonsSoFar) -> bool {
    &&& l.error_fix_pairs@.len() == 0
    &&& l.user_corrections@.len() == 0
    &&& l.tools@.len() == 0
    &&& l.sessions_scanned == 0
    &&& l.sessions_with_lessons == 0
    &&& l.total_errors == 0
    &&& l.total_corrections == 0
}

/// What one more session changes: nothing where it could not be read.
pub open spec fn takes_session(before: LessonsSoFar, after: LessonsSoFar, s: ReadSession) -> bool {
    match s.outcome {
        Ok(found) => adds_lessons(before, after, found, s.session_id@),
        Err(_) => after == before,
    }
}

/// What was found in some sessions, taken one after the other.
pub open spec fn collects(all: LessonsSoFar, sessions: Seq<ReadSession>) -> bool
    decreases sessions.len(),
{
    if sessions.len() == 0 {
        is_blank(all)
    } else {
        exists|before: LessonsSoFar|
            #[trigger] takes_session(before, all, sessions.last()) && collects(
                before,
                sessions.drop_last(),
            )
    }
}

/// How often the tools failed in some sessions.
pub open spec fn tools_failing_in(sessions: Seq<ReadSession>) -> Seq<(Seq<char>, int)>
    decreases sessions.len(),
{
    if sessions.len() == 0 {
        Seq::empty()
    } else {
        let before = tools_failing_in(sessions.drop_last());
        match sessions.last().outcome {
            Ok(found) => if is_bare(found) {
                before
            } else {
                with_counts(before, counts_view(found.most_error_prone_tools@))
            },
            Err(_) => before,
        }
    }
}

/// A session with a reason why it could not be read.
pub open spec fn unreadable() -> spec_fn(ReadSession) -> bool {
    |s: ReadSession| s.outcome is Err
}

/// The warning for a session that could not be read.
pub open spec fn unread_line() -> spec_fn(ReadSession) -> Seq<char> {
    |s: ReadSession| s.session_id@ + ": parse failed"@
}

proof fn lemma_failures_fit(sessions: Seq<ReadSession>, k: int)
    requires
        0 <= k <= sessions.len(),
        counts_fit(tools_failing_in(sessions)),
    ensures
        counts_fit(tools_failing_in(sessions.take(k))),
    decreases sessions.len(),
{
    if k == sessions.len() {
        assert(sessions.take(k) =~= sessions);
    } else {
        let front = sessions.drop_last();
        let before = tools_failing_in(front);
        match sessions.last().outcome {
            Ok(found) => {
                if !is_bare(found) {
                    let more = counts_view(found.most_error_prone_tools@);
                    lemma_counts_grow(before, more, 0);
                    assert(more.take(0) =~= Seq::empty());
                    assert forall|i: int| 0 <= i < before.len() implies (#[trigger] before[i]).1
                        <= usize::MAX by {
                        assert(with_counts(before, more.take(0))[i].1 <= with_counts(
                            before,
                            more,
                        )[i].1);
                    }
                }
            },
            Err(_) => {},
        }
        lemma_failures_fit(front, k);
        assert(front.take(k) =~= sessions.take(k));
    }
}

fn no_lessons() -> (r: LessonsSoFar)
    ensures
        is_blank(r),
{
    LessonsSoFar {
        error_fix_pairs: Vec::new(),
        user_corrections: Vec::new(),
        tools: Vec::new(),
        sessions_scanned: 0,
        sessions_with_lessons: 0,
        total_errors: 0,
        total_corrections: 0,
    }
}

fn collect(sessions: Vec<ReadSession>) -> (r: LessonsSoFar)
    requires
        counts_fit(tools_failing_in(sessions@)),
    ensures
        collects(r, sessions@),
{
    let ghost source = sessions@;
    let count: usize = sessions.len();
    let mut all = no_lessons();
    proof {
        assert(source.take(0) =~= Seq::empty());
        assert(counts_view(all.tools@) =~= Seq::empty());
    }
    for s in it: sessions
        invariant
            it.seq() == source,
            count == source.len(),
            counts_fit(tools_failing_in(source)),
            collects(all, source.take(it.index() as int)),
            counts_view(all.tools@) == tools_failing_in(source.take(it.index() as int)),
            all.sessions_scanned <= it.index(),
            all.sessions_with_lessons <= it.index(),
    {
        let ghost k = it.index() as int;
        let ghost before = all;
        let ghost read = s;
        proof {
            assert(source.take(k + 1).drop_last() =~= source.take(k));
            assert(source.take(k + 1).last() == read);
            lemma_failures_fit(source, k + 1);
        }
        match s.outcome {
            Ok(found) => {
                all = add_lessons(all, found, s.session_id.as_str());
            },
            Err(_) => {},
        }
        proof {
            assert(takes_session(before, all, source.take(k + 1).last()));
            assert(collects(all, source.take(k + 1)));
        }
    }
    proof {
        assert(source.take(source.len() as int) =~= source);
    }
    all
}

/// What was found in all sessions of the session directory, in their order: a session that cannot
/// be read is passed over, but counted. The tools stand with the one that failed most often first.
pub fn run_cross_session(sessions: Vec<ReadSession>) -> (r: LessonsSoFar)
    requires
        counts_fit(tools_failing_in(sessions@)),
    ensures
        exists|all: LessonsSoFar| #[trigger]
            collects(all, sessions@) && r.error_fix_pairs == all.error_fix_pairs
                && r.user_corrections == all.user_corrections && r.tools@ == sorted_by(
                all.tools@,
                fails_more(),
            ) && r.sessions_scanned == sessions@.len() && r.sessions_with_lessons
                == all.sessions_with_lessons && r.total_errors == all.total_errors
                && r.total_corrections == all.total_corrections,
{
    let count: usize = sessions.len();
    let all = collect(sessions);
    LessonsSoFar {
        error_fix_pairs: all.error_fix_pairs,
        user_corrections: all.user_corrections,
        tools: order_tools(all.tools),
        sessions_scanned: count,
        sessions_with_lessons: all.sessions_with_lessons,
        total_errors: all.total_errors,
        total_corrections: all.total_corrections,
    }
}

/// What was found in the sessions of several providers.
#[derive(Debug, Clone, PartialEq, Eq)]
pub struct ProviderLessons {
    /// The lessons.
    pub lessons: LessonsSoFar,
    /// What could not be read.
    pub warnings: Vec<String>,
}

/// The warning for a session whose project is not known.
pub open spec fn unplaced_line() -> spec_fn(Seq<char>) -> Seq<char> {
    |key: Seq<char>| key + ": project metadata unavailable"@
}

/// The first session that could not be read.
pub open spec fn first_unreadable(sessions: Seq<ReadSession>, i: int) -> bool {
    &&& 0 <= i < sessions.len()
    &&& sessions[i].outcome is Err
    &&& forall|j: int| 0 <= j < i ==> (#[trigger] sessions[j]).outcome is Ok
}

fn check_all(sessions: &Vec<ReadSession>, atomic: bool, warnings: Vec<String>) -> (r: Result<
    Vec<String>,
    SnatchError,
>)
    ensures
        match r {
            Ok(w) => {
                &&& atomic ==> forall|i: int|
                    0 <= i < sessions@.len() ==> (#[trigger] sessions@[i]).outcome is Ok
                &&& views(w@) == views(warnings@) + sessions@.filter(unreadable()).map_values(
                    unread_line(),
                )
            },
            Err(e) => atomic && exists|i: int| #[trigger]
                first_unreadable(sessions@, i) && e@ == invalid(
                    sessions@[i].session_id@,
                    "selected session could not be parsed: "@ + sessions@[i].outcome->Err_0@,
                ),
        },
{
    let ghost start = views(warnings@);
    let mut out = warnings;
    let mut i: usize = 0;
    proof {
        assert(sessions@.take(0) =~= Seq::empty());
        assert(views(out@) =~= start + sessions@.take(0).filter(unreadable()).map_values(
            unread_line(),
        ));
    }
    while i < sessions.len()
        invariant
            i <= sessions@.len(),
            atomic ==> forall|j: int| 0 <= j < i ==> (#[trigger] sessions@[j]).outcome is Ok,
            views(out@) == start + sessions@.take(i as int).filter(unreadable()).map_values(
                unread_line(),
            ),
        decreases sessions@.len() - i,
    {
        let ghost front = sessions@.take(i as int).filter(unreadable());
        proof {
            broadcast use Seq::lemma_filter_push;

            assert(sessions@.take(i + 1) =~= sessions@.take(i as int).push(sessions@[i as int]));
        }
        match &sessions[i].outcome {
            Ok(_) => {},
            Err(reason) => {
                match continue_or_record_failure(
                    atomic,
                    sessions[i].session_id.as_str(),
                    &mut out,
                    reason.as_str(),
                ) {
                    Ok(_) => {},
                    Err(e) => {
                        assert(first_unreadable(sessions@, i as int));
                        return Err(e);
                    },
                }
                assert(front.push(sessions@[i as int]).map_values(unread_line())
                    =~= front.map_values(unread_line()).push(
                    unread_line()(sessions@[i as int]),
                ));
                assert(views(out@) =~= start + front.push(sessions@[i as int]).map_values(
                    unread_line(),
                ));
            },
        }
        i = i + 1;
    }
    proof {
        assert(sessions@.take(sessions@.len() as int) =~= sessions@);
    }
    Ok(out)
}

fn warn_unplaced(keys: &Vec<String>) -> (r: Vec<String>)
    ensures
        views(r@) == views(keys@).map_values(unplaced_line()),
{
    let mut out: Vec<String> = Vec::new();
    let write = |key: &String| -> (o: String)
        ensures
            o@ == unplaced_line()(key@),
        { text::cat2(key.as_str(), ": project metadata unavailable") };
    text::say_each(&mut out, keys, write, Ghost(|key: String| unplaced_line()(key@)));
    proof {
        assert(views(out@) =~= views(keys@).map_values(unplaced_line()));
    }
    out
}

/// What was found in the sessions of several providers. Where exactly these providers were asked
/// for (`atomic`), the first session that cannot be read ends the command; else it is warned of.
/// The sessions in `unplaced`, whose project is not known, are warned of first.
pub fn run_provider_cross_session(
    sessions: Vec<ReadSession>,
    atomic: bool,
    unplaced: &Vec<String>,
    limit: usize,
) -> (r: Result<ProviderLessons, SnatchError>)
    requires
        counts_fit(tools_failing_in(sessions@)),
    ensures
        match r {
            Ok(p) => {
                &&& atomic ==> forall|i: int|
                    0 <= i < sessions@.len() ==> (#[trigger] sessions@[i]).outcome is Ok
                &&& exists|all: LessonsSoFar| #[trigger]
                    collects(all, sessions@) && is_finished(p.lessons, all, limit as int)
                &&& views(p.warnings@) == views(unplaced@).map_values(unplaced_line())
                    + sessions@.filter(unreadable()).map_values(unread_line())
            },
            Err(e) => atomic && exists|i: int| #[trigger]
                first_unreadable(sessions@, i) && e@ == invalid(
                    sessions@[i].session_id@,
                    "selected session could not be parsed: "@ + sessions@[i].outcome->Err_0@,
                ),
        },
{
    let unknown = warn_unplaced(unplaced);
    match check_all(&sessions, atomic, unknown) {
        Ok(warnings) => {
            let all = collect(sessions);
            let lessons = finish_providers(all, limit);
            Ok(ProviderLessons { lessons, warnings })
        },
        Err(e) => Err(e),
    }
}

/// Whether what a provider says of its sessions is used for lessons: only where a conversation is
/// held in one session.
pub fn uses_annotations(member_count: usize, has_annotations: bool) -> (r: bool)
    ensures
        r == (member_count == 1 && has_annotations),
{
    member_count == 1 && has_annotations
}

/// What is warned of behind the lessons of several providers.
pub fn print_coverage(skipped: &Vec<String>, warnings: &Vec<String>) -> (r: Vec<String>)
    ensures
        views(r@) == (skipped_words(skipped@) + views(warnings@)).map_values(
            |s: Seq<char>| "warning: "@ + s,
        ),
{
    let ghost warning = |s: Seq<char>| "warning: "@ + s;
    let notes = write_skipped(skipped);
    let mut out: Vec<String> = Vec::new();
    let write_warning = |s: &String| -> (o: String)
        ensures
            o@ == "warning: "@ + s@,
        { text::cat2("warning: ", s.as_str()) };
    text::say_each(&mut out, &notes, write_warning, Ghost(|s: String| warning(s@)));
    text::say_each(&mut out, warnings, write_warning, Ghost(|s: String| warning(s@)));
    proof {
        assert(views(out@) =~= (views(notes@) + views(warnings@)).map_values(warning));
    }
    out
}

// ---------------------------------------------------------------------------
// Output
// ---------------------------------------------------------------------------

/// How lessons are shown.
#[derive(Debug, Clone, Copy, PartialEq, Eq)]
pub enum LessonStyle {
    /// Those of one session.
    Single,
    /// Those of several sessions of the session directory.
    Sessions,
    /// Those of several sessions of providers.
    Providers,
}

/// The session of a lesson, as it is shown before it.
pub open spec fn session_label(session_id: Option<String>, style: LessonStyle) -> Seq<char> {
    match style {
        LessonStyle::Single => Seq::empty(),
        LessonStyle::Sessions => "["@ + (match session_id {
            Some(s) => id_head(s@),
            None => "?"@,
        }) + "] "@,
        LessonStyle::Providers => "["@ + (match session_id {
            Some(s) => s@,
            None => "?"@,
        }) + "] "@,
    }
}

/// The session id can be shown.
pub open spec fn label_ok(session_id: Option<String>, style: LessonStyle) -> bool {
    style is Sessions ==> (session_id matches Some(s) ==> has_short_id(s@))
}

/// The lines of an error.
pub open spec fn pair_lines(i: int, p: ErrorFix, style: LessonStyle) -> Seq<Seq<char>> {
    seq![
        "  "@ + decimal((i + 1) as nat) + ". "@ + session_label(p.session_id, style) + "["@
            + p.tool_name@ + "] "@ + p.error_preview@,
    ] + (match p.resolution_summary {
        Some(t) => seq!["     Fix: "@ + t@],
        None => Seq::empty(),
    }) + (if !(style is Providers) && p.resolution_tools@.len() > 0 {
        seq!["     Tools: "@ + joined(views(p.resolution_tools@), ", "@)]
    } else {
        Seq::empty()
    }) + seq![""@]
}

/// The lines of a correction.
pub open spec fn correction_lines(i: int, c: Correction, style: LessonStyle) -> Seq<Seq<char>> {
    seq![
        "  "@ + decimal((i + 1) as nat) + ". "@ + session_label(c.session_id, style)
            + c.user_text@,
    ] + (if style is Providers {
        Seq::empty()
    } else {
        (match c.prior_assistant_summary {
            Some(t) => seq!["     After: "@ + t@],
            None => Seq::empty(),
        }) + seq![""@]
    })
}

/// The line of a tool.
pub open spec fn tool_line(t: (String, usize)) -> Seq<char> {
    "  "@ + t.0@ + ": "@ + decimal(t.1 as nat) + " error(s)"@
}

/// The lines of lessons: the errors, the corrections and the tools, as far as there are any.
pub open spec fn lesson_lines(
    pairs: Seq<ErrorFix>,
    corrections: Seq<Correction>,
    tools: Seq<(String, usize)>,
    style: LessonStyle,
) -> Seq<Seq<char>> {
    (if pairs.len() > 0 {
        seq!["Error -> Fix Pairs:"@, repeated('-', 60)] + text::spread_numbered(
            pairs,
            |i: int, p: ErrorFix| pair_lines(i, p, style),
        )
    } else {
        Seq::empty()
    }) + (if corrections.len() > 0 {
        seq!["User Corrections:"@, repeated('-', 60)] + text::spread_numbered(
            corrections,
            |i: int, c: Correction| correction_lines(i, c, style),
        )
    } else {
        Seq::empty()
    }) + (if tools.len() > 0 {
        seq!["Most Error-Prone Tools:"@] + tools.map_values(|t: (String, usize)| tool_line(t))
    } else {
        Seq::empty()
    })
}

fn write_label(session_id: &Option<String>, style: LessonStyle) -> (r: String)
    requires
        label_ok(*session_id, style),
    ensures
        r@ == session_label(*session_id, style),
{
    match style {
        LessonStyle::Single => {
            let none = String::new();
            proof {
                assert(none@ =~= Seq::empty());
            }
            none
        },
        LessonStyle::Sessions => {
            let id: String = match session_id {
                Some(s) => helpers::short_id(s.as_str()),
                None => "?".to_owned(),
            };
            text::cat3("[", id.as_str(), "] ")
        },
        LessonStyle::Providers => {
            let id: String = match session_id {
                Some(s) => s.clone(),
                None => "?".to_owned(),
            };
            text::cat3("[", id.as_str(), "] ")
        },
    }
}

fn write_pair(i: usize, p: &ErrorFix, style: LessonStyle) -> (r: Vec<String>)
    requires
        label_ok(p.session_id, style),
        i < usize::MAX,
    ensures
        views(r@) == pair_lines(i as int, *p, style),
{
    let mut out: Vec<String> = Vec::new();
    let place = text::size(i + 1);
    let label = write_label(&p.session_id, style);
    let head = text::cat4("  ", place.as_str(), ". ", label.as_str());
    text::say5(
        &mut out,
        head.as_str(),
        "[",
        p.tool_name.as_str(),
        "] ",
        p.error_preview.as_str(),
    );
    match &p.resolution_summary {
        Some(t) => text::say2(&mut out, "     Fix: ", t.as_str()),
        None => {},
    }
    if !matches!(style, LessonStyle::Providers) && p.resolution_tools.len() > 0 {
        let tools = text::join(&p.resolution_tools, ", ");
        text::say2(&mut out, "     Tools: ", tools.as_str());
    }
    text::say(&mut out, "");
    proof {
        assert(views(out@) =~= pair_lines(i as int, *p, style));
    }
    out
}

fn write_correction(i: usize, c: &Correction, style: LessonStyle) -> (r: Vec<String>)
    requires
        label_ok(c.session_id, style),
        i < usize::MAX,
    ensures
        views(r@) == correction_lines(i as int, *c, style),
{
    let mut out: Vec<String> = Vec::new();
    let place = text::size(i + 1);
    let label = write_label(&c.session_id, style);
    text::say5(
        &mut out,
        "  ",
        place.as_str(),
        ". ",
        label.as_str(),
        c.user_text.as_str(),
    );
    if !matches!(style, LessonStyle::Providers) {
        match &c.prior_assistant_summary {
            Some(t) => text::say2(&mut out, "     After: ", t.as_str()),
            None => {},
        }
        text::say(&mut out, "");
    }
    proof {
        assert(views(out@) =~= correction_lines(i as int, *c, style));
    }
    out
}

fn write_tool(t: &(String, usize)) -> (r: String)
    ensures
        r@ == tool_line(*t),
{
    let digits = text::size(t.1);
    text::cat5("  ", t.0.as_str(), ": ", digits.as_str(), " error(s)")
}

/// The lines of lessons.
pub fn print_text_lessons(
    pairs: &Vec<ErrorFix>,
    corrections: &Vec<Correction>,
    tools: &Vec<(String, usize)>,
    style: LessonStyle,
) -> (r: Vec<String>)
    requires
        forall|i: int|
            0 <= i < pairs@.len() ==> label_ok((#[trigger] pairs@[i]).session_id, style),
        forall|i: int|
            0 <= i < corrections@.len() ==> label_ok(
                (#[trigger] corrections@[i]).session_id,
                style,
            ),
    ensures
        views(r@) == lesson_lines(pairs@, corrections@, tools@, style),
{
    let mut out: Vec<String> = Vec::new();
    let rule = text::repeat('-', 60);
    proof {
        assert(views(out@) =~= Seq::empty());
    }
    if pairs.len() > 0 {
        text::say(&mut out, "Error -> Fix Pairs:");
        text::say(&mut out, rule.as_str());
        let write = |i: usize, p: &ErrorFix| -> (o: Vec<String>)
            requires
                label_ok(p.session_id, style),
                i < usize::MAX,
            ensures
                views(o@) == pair_lines(i as int, *p, style),
            { write_pair(i, p, style) };
        let ghost g = |i: int, p: ErrorFix| pair_lines(i, p, style);
        text::say_numbered(&mut out, pairs, write, Ghost(g));
    }
    if corrections.len() > 0 {
        text::say(&mut out, "User Corrections:");
        text::say(&mut out, rule.as_str());
        let write = |i: usize, c: &Correction| -> (o: Vec<String>)
            requires
                label_ok(c.session_id, style),
                i < usize::MAX,
            ensures
                views(o@) == correction_lines(i as int, *c, style),
            { write_correction(i, c, style) };
        let ghost g = |i: int, c: Correction| correction_lines(i, c, style);
        text::say_numbered(&mut out, corrections, write, Ghost(g));
    }
    if tools.len() > 0 {
        text::say(&mut out, "Most Error-Prone Tools:");
        let ghost g = |t: (String, usize)| tool_line(t);
        text::say_each(&mut out, tools, write_tool, Ghost(g));
    }
    proof {
        assert(views(out@) =~= lesson_lines(pairs@, corrections@, tools@, style));
    }
    out
}

/// The heading of the lessons of one session.
pub open spec fn single_heading(display_id: Seq<char>, l: SessionLessons) -> Seq<Seq<char>> {
    if is_bare(l) {
        seq!["No lessons found in session "@ + display_id + "."@]
    } else {
        seq![
            "Lessons for session "@ + display_id + " ("@ + decimal(l.total_errors as nat)
                + " errors, "@ + decimal(l.total_corrections as nat) + " corrections)"@,
            ""@,
        ]
    }
}

/// What is printed of the lessons of one session.
pub fn print_single(display_id: &str, l: &SessionLessons) -> (r: Vec<String>)
    ensures
        views(r@) == single_heading(display_id@, *l) + (if is_bare(*l) {
            Seq::empty()
        } else {
            lesson_lines(
                l.error_fix_pairs@,
                l.user_corrections@,
                l.most_error_prone_tools@,
                LessonStyle::Single,
            )
        }),
{
    let mut out: Vec<String> = Vec::new();
    if l.error_fix_pairs.len() == 0 && l.user_corrections.len() == 0 {
        text::say3(&mut out, "No lessons found in session ", display_id, ".");
    } else {
        let errors = text::size(l.total_errors);
        let corrections = text::size(l.total_corrections);
        let head = text::cat5(
            "Lessons for session ",
            display_id,
            " (",
            errors.as_str(),
            " errors, ",
        );
        text::say3(&mut out, head.as_str(), corrections.as_str(), " corrections)");
        text::say(&mut out, "");
        proof {
            assert(views(out@) =~= single_heading(display_id@, *l));
        }
        let more = print_text_lessons(
            &l.error_fix_pairs,
            &l.user_corrections,
            &l.most_error_prone_tools,
            LessonStyle::Single,
        );
        text::say_more(&mut out, more);
    }
    proof {
        if is_bare(*l) {
            assert(views(out@) =~= single_heading(display_id@, *l) + Seq::empty());
        }
    }
    out
}

/// The heading of the lessons of several sessions.
pub open spec fn several_heading(
    scanned: usize,
    with_lessons: usize,
    errors: usize,
    corrections: usize,
) -> Seq<Seq<char>> {
    seq![
        "Lessons across "@ + decimal(scanned as nat) + " sessions ("@ + decimal(
            with_lessons as nat,
        ) + " with lessons, "@ + decimal(errors as nat) + " errors, "@ + decimal(
            corrections as nat,
        ) + " corrections)"@,
        ""@,
    ]
}

/// What is printed of the lessons of several sessions. Those of the session directory count the
/// lessons that are shown, those of providers all that were found.
pub open spec fn several_lines(l: LessonsSoFar, style: LessonStyle) -> Seq<Seq<char>> {
    if l.error_fix_pairs@.len() == 0 && l.user_corrections@.len() == 0 {
        seq!["No lessons found across "@ + decimal(l.sessions_scanned as nat) + " sessions."@]
    } else {
        (if style is Providers {
            several_heading(
                l.sessions_scanned,
                l.sessions_with_lessons,
                l.total_errors,
                l.total_corrections,
            )
        } else {
            several_heading(
                l.sessions_scanned,
                l.sessions_with_lessons,
                l.error_fix_pairs@.len() as usize,
                l.user_corrections@.len() as usize,
            )
        }) + lesson_lines(l.error_fix_pairs@, l.user_corrections@, l.tools@, style)
    }
}

/// What is printed of the lessons of several sessions.
pub fn print_several(l: &LessonsSoFar, style: LessonStyle) -> (r: Vec<String>)
    requires
        forall|i: int|
            0 <= i < l.error_fix_pairs@.len() ==> label_ok(
                (#[trigger] l.error_fix_pairs@[i]).session_id,
                style,
            ),
        forall|i: int|
            0 <= i < l.user_corrections@.len() ==> label_ok(
                (#[trigger] l.user_corrections@[i]).session_id,
                style,
            ),
    ensures
        views(r@) == several_lines(*l, style),
{
    let mut out: Vec<String> = Vec::new();
    let scanned = text::size(l.sessions_scanned);
    if l.error_fix_pairs.len() == 0 && l.user_corrections.len() == 0 {
        text::say3(&mut out, "No lessons found across ", scanned.as_str(), " sessions.");
        proof {
            assert(views(out@) =~= several_lines(*l, style));
        }
        return out;
    }
    let all: bool = matches!(style, LessonStyle::Providers);
    let some = text::size(l.sessions_with_lessons);
    let errors: String = if all {
        text::size(l.total_errors)
    } else {
        text::size(l.error_fix_pairs.len())
    };
    let corrections: String = if all {
        text::size(l.total_corrections)
    } else {
        text::size(l.user_corrections.len())
    };
    let head = text::cat5(
        "Lessons across ",
        scanned.as_str(),
        " sessions (",
        some.as_str(),
        " with lessons, ",
    );
    text::say5(
        &mut out,
        head.as_str(),
        errors.as_str(),
        " errors, ",
        corrections.as_str(),
        " corrections)",
    );
    text::say(&mut out, "");
    let more = print_text_lessons(&l.error_fix_pairs, &l.user_corrections, &l.tools, style);
    text::say_more(&mut out, more);
    proof {
        assert(views(out@) =~= several_lines(*l, style));
    }
    out
}

// ---------------------------------------------------------------------------
// As JSON
// ---------------------------------------------------------------------------

/// What a tool was given, as fields.
pub open spec fn input_fields(input: Seq<(String, String)>) -> Seq<(Seq<char>, JsonView)> {
    input.map_values(|f: (String, String)| (f.0@, JsonView::Text(f.1@)))
}

fn input_json(input: &Vec<(String, String)>) -> (r: Json)
    ensures
        r@ == JsonView::Object(input_fields(input@)),
{
    let mut fields: Vec<(String, Json)> = Vec::new();
    let mut i: usize = 0;
    proof {
        assert(fields_view(fields@) =~= input_fields(input@).take(0));
    }
    while i < input.len()
        invariant
            i <= input@.len(),
            fields_view(fields@) == input_fields(input@).take(i as int),
        decreases input@.len() - i,
    {
        json::put(&mut fields, input[i].0.as_str(), json::of_text(input[i].1.as_str()));
        proof {
            let all = input_fields(input@);
            assert(all.take(i + 1) =~= all.take(i as int).push(all[i as int]));
        }
        i = i + 1;
    }
    proof {
        assert(input_fields(input@).take(i as int) =~= input_fields(input@));
    }
    Json::Object(fields)
}

/// A text that stands there only where it is asked for.
pub open spec fn if_asked(s: Option<String>, asked: bool) -> Option<String> {
    if asked {
        s
    } else {
        None
    }
}

fn put_if_asked(fields: &mut Vec<(String, Json)>, name: &str, s: &Option<String>, asked: bool)
    ensures
        fields_view(final(fields)@) == fields_view(old(fields)@) + given_text(
            name@,
            if_asked(*s, asked),
        ),
{
    let ghost start = fields_view(fields@);
    if asked {
        json::put_given_text(fields, name, s);
    }
    proof {
        assert(fields_view(fields@) =~= start + given_text(name@, if_asked(*s, asked)));
    }
}

/// The fields of an error and its fix; the session stands there where there are several.
pub open spec fn pair_fields(p: ErrorFix, several: bool) -> Seq<(Seq<char>, JsonView)> {
    given_text("session_id"@, if_asked(p.session_id, several)) + given_text("timestamp"@, p.timestamp) + seq![
        ("tool_name"@, JsonView::Text(p.tool_name@)),
        ("input_summary"@, JsonView::Object(input_fields(p.input_summary@))),
        ("error_preview"@, JsonView::Text(p.error_preview@)),
    ] + given_text("resolution_summary"@, p.resolution_summary) + seq![
        ("resolution_tools"@, texts_json(views(p.resolution_tools@))),
    ]
}

fn pair_json(p: &ErrorFix, several: bool) -> (r: Json)
    ensures
        r@ == JsonView::Object(pair_fields(*p, several)),
{
    let mut fields: Vec<(String, Json)> = Vec::new();
    put_if_asked(&mut fields, "session_id", &p.session_id, several);
    json::put_given_text(&mut fields, "timestamp", &p.timestamp);
    let ghost before2 = fields_view(fields@);
    json::put(&mut fields, "tool_name", json::of_text(p.tool_name.as_str()));
    json::put(&mut fields, "input_summary", input_json(&p.input_summary));
    json::put(&mut fields, "error_preview", json::of_text(p.error_preview.as_str()));
    proof {
        assert(fields_view(fields@) =~= before2 + seq![
            ("tool_name"@, JsonView::Text(p.tool_name@)),
            ("input_summary"@, JsonView::Object(input_fields(p.input_summary@))),
            ("error_preview"@, JsonView::Text(p.error_preview@)),
        ]);
    }
    json::put_given_text(&mut fields, "resolution_summary", &p.resolution_summary);
    let ghost before4 = fields_view(fields@);
    json::put(&mut fields, "resolution_tools", json::of_texts(&p.resolution_tools));
    proof {
        assert(fields_view(fields@) =~= before4 + seq![
            ("resolution_tools"@, texts_json(views(p.resolution_tools@))),
        ]);
    }
    proof {
        assert(fields_view(fields@) =~= pair_fields(*p, several));
    }
    Json::Object(fields)
}

/// The fields of a correction; the session stands there where there are several.
pub open spec fn correction_fields(c: Correction, several: bool) -> Seq<(Seq<char>, JsonView)> {
    given_text("session_id"@, if_asked(c.session_id, several)) + given_text("timestamp"@, c.timestamp) + seq![
        ("user_text"@, JsonView::Text(c.user_text@)),
    ] + given_text("prior_assistant_summary"@, c.prior_assistant_summary)
}

fn correction_json(c: &Correction, several: bool) -> (r: Json)
    ensures
        r@ == JsonView::Object(correction_fields(*c, several)),
{
    let mut fields: Vec<(String, Json)> = Vec::new();
    put_if_asked(&mut fields, "session_id", &c.session_id, several);
    json::put_given_text(&mut fields, "timestamp", &c.timestamp);
    let ghost before2 = fields_view(fields@);
    json::put(&mut fields, "user_text", json::of_text(c.user_text.as_str()));
    proof {
        assert(fields_view(fields@) =~= before2 + seq![
            ("user_text"@, JsonView::Text(c.user_text@)),
        ]);
    }
    json::put_given_text(&mut fields, "prior_assistant_summary", &c.prior_assistant_summary);
    proof {
        assert(fields_view(fields@) =~= correction_fields(*c, several));
    }
    Json::Object(fields)
}

/// Errors and their fixes, as values.
pub open spec fn pair_values(pairs: Seq<ErrorFix>, several: bool) -> Seq<JsonView> {
    pairs.map_values(|p: ErrorFix| JsonView::Object(pair_fields(p, several)))
}

fn pairs_json(pairs: &Vec<ErrorFix>, several: bool) -> (r: Json)
    ensures
        r@ == JsonView::Array(pair_values(pairs@, several)),
{
    let write = |p: &ErrorFix| -> (o: Json)
        ensures
            o@ == JsonView::Object(pair_fields(*p, several)),
        { pair_json(p, several) };
    let ghost g = |p: ErrorFix| JsonView::Object(pair_fields(p, several));
    json::of_list(pairs, write, Ghost(g))
}

/// Corrections, as values.
pub open spec fn correction_values(corrections: Seq<Correction>, several: bool) -> Seq<JsonView> {
    corrections.map_values(|c: Correction| JsonView::Object(correction_fields(c, several)))
}

fn corrections_json(corrections: &Vec<Correction>, several: bool) -> (r: Json)
    ensures
        r@ == JsonView::Array(correction_values(corrections@, several)),
{
    let write = |c: &Correction| -> (o: Json)
        ensures
            o@ == JsonView::Object(correction_fields(*c, several)),
        { correction_json(c, several) };
    let ghost g = |c: Correction| JsonView::Object(correction_fields(c, several));
    json::of_list(corrections, write, Ghost(g))
}

/// The fields of the numbers.
pub open spec fn summary_fields(errors: int, corrections: int, tools: Seq<(String, usize)>) -> Seq<
    (Seq<char>, JsonView),
> {
    seq![
        ("total_errors"@, number_json(errors as nat)),
        ("total_corrections"@, number_json(corrections as nat)),
        (
            "most_error_prone_tools"@,
            JsonView::Array(tools.map_values(|t: (String, usize)| mode_view(t))),
        ),
    ]
}

fn summary_json(errors: usize, corrections: usize, tools: &Vec<(String, usize)>) -> (r: Json)
    ensures
        r@ == JsonView::Object(summary_fields(errors as int, corrections as int, tools@)),
{
    let mut fields: Vec<(String, Json)> = Vec::new();
    let ghost g = |t: (String, usize)| mode_view(t);
    json::put(&mut fields, "total_errors", json::of_size(errors));
    json::put(&mut fields, "total_corrections", json::of_size(corrections));
    json::put(&mut fields, "most_error_prone_tools", json::of_list(tools, mode_json, Ghost(g)));
    proof {
        assert(fields_view(fields@) =~= summary_fields(
            errors as int,
            corrections as int,
            tools@,
        ));
    }
    Json::Object(fields)
}

/// A session whose lessons are told.
#[derive(Debug, Clone, PartialEq, Eq)]
pub struct LessonsSource {
    /// Its id, as it is shown.
    pub display_id: String,
    /// Its provider, where one was asked for.
    pub provider: Option<String>,
    /// Its id with the provider, where one was asked for.
    pub qualified_id: Option<String>,
}

/// The fields of the lessons of one session.
pub open spec fn single_fields(source: LessonsSource, l: SessionLessons) -> Seq<
    (Seq<char>, JsonView),
> {
    seq![("session_id"@, JsonView::Text(source.display_id@))] + given_text(
        "provider"@,
        source.provider,
    ) + given_text("qualified_id"@, source.qualified_id) + seq![
        (
            "summary"@,
            JsonView::Object(
                summary_fields(
                    l.total_errors as int,
                    l.total_corrections as int,
                    l.most_error_prone_tools@,
                ),
            ),
        ),
    ] + some_items("error_fix_pairs"@, pair_values(l.error_fix_pairs@, false)) + some_items(
        "user_corrections"@,
        correction_values(l.user_corrections@, false),
    )
}

/// The lessons of one session as a JSON object.
pub fn single_json(source: &LessonsSource, l: &SessionLessons) -> (r: Json)
    ensures
        r@ == JsonView::Object(single_fields(*source, *l)),
{
    let mut fields: Vec<(String, Json)> = Vec::new();
    json::put(&mut fields, "session_id", json::of_text(source.display_id.as_str()));
    proof {
        assert(fields_view(fields@) =~= seq![("session_id"@, JsonView::Text(source.display_id@))]);
    }
    json::put_given_text(&mut fields, "provider", &source.provider);
    json::put_given_text(&mut fields, "qualified_id", &source.qualified_id);
    let ghost named = fields_view(fields@);
    let summary = summary_json(l.total_errors, l.total_corrections, &l.most_error_prone_tools);
    json::put(&mut fields, "summary", summary);
    proof {
        assert(fields_view(fields@) =~= named + seq![
            (
                "summary"@,
                JsonView::Object(
                    summary_fields(
                        l.total_errors as int,
                        l.total_corrections as int,
                        l.most_error_prone_tools@,
                    ),
                ),
            ),
        ]);
    }
    let pairs = pairs_json(&l.error_fix_pairs, false);
    json::put_some_items(&mut fields, "error_fix_pairs", pairs);
    let corrections = corrections_json(&l.user_corrections, false);
    json::put_some_items(&mut fields, "user_corrections", corrections);
    Json::Object(fields)
}

/// What the lessons of several providers rest on.
#[derive(Debug, Clone, PartialEq, Eq)]
pub struct LessonsCoverage {
    /// The providers.
    pub providers: Vec<String>,
    /// The projects.
    pub project_keys: Vec<String>,
    /// The providers that could not be asked.
    pub skipped: Vec<String>,
    /// The warnings.
    pub warnings: Vec<String>,
}

/// The field for the providers that could not be asked; none where all could be.
pub open spec fn skipped_field(c: LessonsCoverage) -> Seq<(Seq<char>, JsonView)> {
    if c.skipped@.len() == 0 {
        Seq::empty()
    } else {
        seq![("skipped_providers"@, json::texts_json(skipped_words(c.skipped@)))]
    }
}

/// The fields of the lessons of several sessions. Those of providers say what they rest on, and
/// count all that was found; the others count what is shown.
pub open spec fn several_fields(l: LessonsSoFar, coverage: Option<LessonsCoverage>) -> Seq<
    (Seq<char>, JsonView),
> {
    let counts = seq![
        ("sessions_scanned"@, number_json(l.sessions_scanned as nat)),
        ("sessions_with_lessons"@, number_json(l.sessions_with_lessons as nat)),
    ];
    let lists = seq![
        ("error_fix_pairs"@, JsonView::Array(pair_values(l.error_fix_pairs@, true))),
        ("user_corrections"@, JsonView::Array(correction_values(l.user_corrections@, true))),
    ];
    match coverage {
        None => counts + seq![
            (
                "summary"@,
                JsonView::Object(
                    summary_fields(
                        l.error_fix_pairs@.len() as int,
                        l.user_corrections@.len() as int,
                        l.tools@,
                    ),
                ),
            ),
        ] + lists,
        Some(c) => some_texts("providers"@, c.providers@) + some_texts(
            "project_keys"@,
            c.project_keys@,
        ) + counts + seq![
            (
                "summary"@,
                JsonView::Object(
                    summary_fields(l.total_errors as int, l.total_corrections as int, l.tools@),
                ),
            ),
        ] + lists + skipped_field(c) + some_texts(
            "warnings"@,
            c.warnings@,
        ) + seq![("activity_basis"@, JsonView::Text("new-activity-only"@))],
    }
}

/// The lessons of several sessions as a JSON object.
pub fn several_json(l: &LessonsSoFar, coverage: &Option<LessonsCoverage>) -> (r: Json)
    ensures
        r@ == JsonView::Object(several_fields(*l, *coverage)),
{
    let mut fields: Vec<(String, Json)> = Vec::new();
    match coverage {
        Some(c) => {
            json::put_some_texts(&mut fields, "providers", &c.providers);
            json::put_some_texts(&mut fields, "project_keys", &c.project_keys);
        },
        None => {},
    }
    let ghost head = fields_view(fields@);
    json::put(&mut fields, "sessions_scanned", json::of_size(l.sessions_scanned));
    json::put(&mut fields, "sessions_with_lessons", json::of_size(l.sessions_with_lessons));
    let (errors, corrected): (usize, usize) = match coverage {
        Some(_) => (l.total_errors, l.total_corrections),
        None => (l.error_fix_pairs.len(), l.user_corrections.len()),
    };
    json::put(&mut fields, "summary", summary_json(errors, corrected, &l.tools));
    json::put(&mut fields, "error_fix_pairs", pairs_json(&l.error_fix_pairs, true));
    json::put(&mut fields, "user_corrections", corrections_json(&l.user_corrections, true));
    proof {
        assert(fields_view(fields@) =~= head + seq![
            ("sessions_scanned"@, number_json(l.sessions_scanned as nat)),
            ("sessions_with_lessons"@, number_json(l.sessions_with_lessons as nat)),
        ] + seq![
            (
                "summary"@,
                JsonView::Object(summary_fields(errors as int, corrected as int, l.tools@)),
            ),
        ] + seq![
            ("error_fix_pairs"@, JsonView::Array(pair_values(l.error_fix_pairs@, true))),
            ("user_corrections"@, JsonView::Array(correction_values(l.user_corrections@, true))),
        ]);
    }
    match coverage {
        Some(c) => {
            let notes = write_skipped(&c.skipped);
            proof {
                assert(views(notes@).len() == notes@.len());
                assert(skipped_words(c.skipped@).len() == c.skipped@.len());
            }
            json::put_some_texts(&mut fields, "skipped_providers", &notes);
            json::put_some_texts(&mut fields, "warnings", &c.warnings);
            json::put(&mut fields, "activity_basis", json::of_text("new-activity-only"));
        },
        None => {},
    }
    proof {
        assert(fields_view(fields@) =~= several_fields(*l, *coverage));
    }
    Json::Object(fields)
}

// ---------------------------------------------------------------------------
// What lessons are kept
// ---------------------------------------------------------------------------

/// Counting more failures of a tool adds them where the tool stands, or behind the others where it
/// is new; no other count changes and none is lost.
pub proof fn one_count_grows(counts: Seq<(Seq<char>, int)>, tool: Seq<char>, n: int)
    ensures
        ({
            let r = with_count(counts, tool, n);
            &&& forall|i: int|
                0 <= i < counts.len() && (#[trigger] counts[i]).0 != tool ==> r[i] == counts[i]
            &&& (forall|i: int| 0 <= i < counts.len() ==> (#[trigger] counts[i]).0 != tool)
                ==> r == counts.push((tool, n))
            &&& (exists|i: int| 0 <= i < counts.len() && (#[trigger] counts[i]).0 == tool)
                ==> r.len() == counts.len() && exists|i: int|
                0 <= i < counts.len() && (#[trigger] counts[i]).0 == tool && r[i] == (
                    tool,
                    counts[i].1 + n,
                )
        }),
{
    lemma_tool_place(counts, tool);
    let k = tool_place(counts, tool);
    if k < counts.len() {
        assert(counts[k].0 == tool);
    }
}

/// A session counts as one with lessons if and only if an error in it was fixed or the user corrected
/// something in it; then every such pair and correction is kept behind those before it, with the id
/// of the session. Every session that could be read counts as scanned.
pub proof fn lessons_are_kept(
    before: LessonsSoFar,
    after: LessonsSoFar,
    found: SessionLessons,
    session_id: Seq<char>,
)
    requires
        adds_lessons(before, after, found, session_id),
    ensures
        after.sessions_scanned == before.sessions_scanned + 1,
        after.error_fix_pairs@.len() == before.error_fix_pairs@.len() + found.error_fix_pairs@.len(),
        after.user_corrections@.len() == before.user_corrections@.len()
            + found.user_corrections@.len(),
        after.sessions_with_lessons == before.sessions_with_lessons + (if found.error_fix_pairs@.len()
            > 0 || found.user_corrections@.len() > 0 {
            1int
        } else {
            0
        }),
        forall|i: int|
            0 <= i < before.error_fix_pairs@.len() ==> #[trigger] after.error_fix_pairs@[i]
                == before.error_fix_pairs@[i],
        forall|i: int|
            0 <= i < found.error_fix_pairs@.len() ==> {
                let q = #[trigger] after.error_fix_pairs@[before.error_fix_pairs@.len() + i];
                text_view(q.session_id) == Some(session_id) && q.tool_name
                    == found.error_fix_pairs@[i].tool_name && q.error_preview
                    == found.error_fix_pairs@[i].error_preview && q.resolution_summary
                    == found.error_fix_pairs@[i].resolution_summary
            },
        forall|i: int|
            0 <= i < found.user_corrections@.len() ==> {
                let q = #[trigger] after.user_corrections@[before.user_corrections@.len() + i];
                text_view(q.session_id) == Some(session_id) && q.user_text
                    == found.user_corrections@[i].user_text && q.prior_assistant_summary
                    == found.user_corrections@[i].prior_assistant_summary
            },
        before.total_errors + found.total_errors <= usize::MAX ==> after.total_errors
            == before.total_errors + found.total_errors,
        before.total_corrections + found.total_corrections <= usize::MAX ==> after.total_corrections
            == before.total_corrections + found.total_corrections,
{
}

/// The number of sessions scanned is that of the sessions that could be read, and the number with
/// lessons that of those in which an error was fixed or the user corrected something.
pub proof fn sessions_are_counted(all: LessonsSoFar, sessions: Seq<ReadSession>)
    requires
        collects(all, sessions),
    ensures
        all.sessions_scanned == sessions.filter(|s: ReadSession| s.outcome is Ok).len(),
        all.sessions_with_lessons == sessions.filter(
            |s: ReadSession|
                s.outcome is Ok && (s.outcome->Ok_0.error_fix_pairs@.len() > 0
                    || s.outcome->Ok_0.user_corrections@.len() > 0),
        ).len(),
    decreases sessions.len(),
{
    broadcast use Seq::lemma_filter_push;

    if sessions.len() > 0 {
        let front = sessions.drop_last();
        let before = choose|before: LessonsSoFar|
            #[trigger] takes_session(before, all, sessions.last()) && collects(before, front);
        sessions_are_counted(before, front);
        assert(sessions =~= front.push(sessions.last()));
    }
}

/// One stamp is not later than another, where no stamp is no later than any.
pub open spec fn stamped_no_later(a: Option<String>, b: Option<String>) -> bool {
    a is Some ==> b is Some && !precedes(b->0@, a->0@)
}

proof fn lemma_stamps(a: Option<String>, b: Option<String>, c: Option<String>)
    ensures
        !stamp_before(a, a),
        stamp_before(a, b) && stamp_before(b, c) ==> stamp_before(a, c),
        !stamp_before(a, b) && !stamp_before(b, c) ==> !stamp_before(a, c),
{
    if a is Some {
        text::precedes_irreflexive(a->0@);
    }
    if a is Some && b is Some && c is Some {
        let (x, y, z) = (a->0@, b->0@, c->0@);
        if precedes(x, y) && precedes(y, z) {
            text::precedes_transitive(x, y, z);
        }
        text::precedes_total(x, y);
        text::precedes_total(y, z);
        if precedes(y, x) && precedes(x, z) {
            text::precedes_transitive(y, x, z);
        }
        if precedes(x, z) && precedes(z, y) {
            text::precedes_transitive(x, z, y);
        }
    }
}

/// What is handed out are the earliest lessons up to the limit, the earlier first and those without
/// a stamp before all others, and the tools by how often they failed, the most often first.
pub proof fn earliest_lessons_are_handed_out(r: LessonsSoFar, so_far: LessonsSoFar, limit: int)
    requires
        0 <= limit,
        is_finished(r, so_far, limit),
    ensures
        r.error_fix_pairs@.len() <= limit,
        r.user_corrections@.len() <= limit,
        forall|i: int|
            0 <= i < r.error_fix_pairs@.len() ==> so_far.error_fix_pairs@.contains(
                #[trigger] r.error_fix_pairs@[i],
            ),
        forall|i: int, j: int|
            0 <= i < j < r.error_fix_pairs@.len() ==> stamped_no_later(
                (#[trigger] r.error_fix_pairs@[i]).timestamp,
                (#[trigger] r.error_fix_pairs@[j]).timestamp,
            ),
        forall|p: ErrorFix, i: int|
            #![trigger so_far.error_fix_pairs@.contains(p), r.error_fix_pairs@[i]]
            so_far.error_fix_pairs@.contains(p) && 0 <= i < r.error_fix_pairs@.len()
                && !r.error_fix_pairs@.contains(p) ==> stamped_no_later(
                r.error_fix_pairs@[i].timestamp,
                p.timestamp,
            ),
        forall|i: int, j: int|
            0 <= i < j < r.user_corrections@.len() ==> stamped_no_later(
                (#[trigger] r.user_corrections@[i]).timestamp,
                (#[trigger] r.user_corrections@[j]).timestamp,
            ),
        r.tools@.len() == so_far.tools@.len(),
        forall|i: int, j: int|
            0 <= i < j < r.tools@.len() ==> (#[trigger] r.tools@[j]).1 <= (#[trigger] r.tools@[i]).1,
{
    let (pairs, corrections) = (r.error_fix_pairs@, r.user_corrections@);
    assert forall|a: ErrorFix, b: ErrorFix, c: ErrorFix|
        #![trigger pair_before()(a, b), pair_before()(b, c)]
        (pair_before()(a, b) && pair_before()(b, c) ==> pair_before()(a, c)) && (!pair_before()(a, b)
            && !pair_before()(b, c) ==> !pair_before()(a, c)) by {
        lemma_stamps(a.timestamp, b.timestamp, c.timestamp);
    }
    assert forall|a: ErrorFix| !#[trigger] pair_before()(a, a) by {
        lemma_stamps(a.timestamp, a.timestamp, a.timestamp);
    }
    assert forall|a: Correction, b: Correction, c: Correction|
        #![trigger correction_before()(a, b), correction_before()(b, c)]
        (correction_before()(a, b) && correction_before()(b, c) ==> correction_before()(a, c)) && (
        !correction_before()(a, b) && !correction_before()(b, c) ==> !correction_before()(a, c)) by {
        lemma_stamps(a.timestamp, b.timestamp, c.timestamp);
    }
    assert forall|a: Correction| !#[trigger] correction_before()(a, a) by {
        lemma_stamps(a.timestamp, a.timestamp, a.timestamp);
    }
    order::first_are_foremost(so_far.error_fix_pairs@, pair_before(), limit);
    order::first_are_foremost(so_far.user_corrections@, correction_before(), limit);
    order::sorting_orders(so_far.tools@, fails_more());
    order::sorting_permutes(so_far.tools@, fails_more());
    assert forall|i: int, j: int| 0 <= i < j < pairs.len() implies stamped_no_later(
        (#[trigger] pairs[i]).timestamp,
        (#[trigger] pairs[j]).timestamp,
    ) by {
        assert(!pair_before()(pairs[j], pairs[i]));
    }
    assert forall|p: ErrorFix, i: int|
        #![trigger so_far.error_fix_pairs@.contains(p), pairs[i]]
        so_far.error_fix_pairs@.contains(p) && 0 <= i < pairs.len() && !pairs.contains(p) implies
        stamped_no_later(pairs[i].timestamp, p.timestamp) by {
        assert(!pair_before()(p, pairs[i]));
    }
    assert forall|i: int, j: int| 0 <= i < j < corrections.len() implies stamped_no_later(
        (#[trigger] corrections[i]).timestamp,
        (#[trigger] corrections[j]).timestamp,
    ) by {
        assert(!correction_before()(corrections[j], corrections[i]));
    }
    assert forall|i: int, j: int| 0 <= i < j < r.tools@.len() implies (#[trigger] r.tools@[j]).1
        <= (#[trigger] r.tools@[i]).1 by {
        assert(!fails_more()(r.tools@[j], r.tools@[i]));
    }
}

// ---------------------------------------------------------------------------
// What calls hand back
// ---------------------------------------------------------------------------

/// Lessons of many sessions are drawn where a project or all are asked for, and then a session
/// that is qualified is refused; else the session that was named is read, and one must be.
pub proof fn lessons_are_of_one_or_of_many(
    args: LessonsArgs,
    looks_qualified: bool,
    r: Result<LessonsRoute, SnatchError>,
)
    ensures
        call_ensures(run, (&args, looks_qualified), r) ==> {
            let many = args.project is Some || args.all;
            let named = args.session_id is Some;
            &&& r is Err <==> (many && named && looks_qualified) || (!many && !named)
            &&& (r matches Ok(l) && l is Providers) <==> many && !(named && looks_qualified)
                && args.provider@.len() > 0
            &&& (r matches Ok(l) && l is Sessions) <==> many && !(named && looks_qualified)
                && args.provider@.len() == 0
            &&& (r matches Ok(l) && l is Single) <==> !many && named
            &&& r matches Ok(LessonsRoute::Single { session_id, from_provider }) ==> {
                &&& session_id@ == args.session_id->0@
                &&& from_provider <==> args.provider@.len() > 0 || looks_qualified
            }
        },
{
}

} // verus!
