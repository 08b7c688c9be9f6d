//! The search index: what is asked of it, which session a reference means, and what is printed.
use vstd::prelude::*;

use crate::commands::OutputFormat;
use crate::error::{invalid, invalid_argument, ErrorView, SnatchError};
use crate::host::Host;
use crate::order;
use crate::order::sorted_by;
use crate::provider::{
    all_is_mixed, forms_agree, key_precedes, provider_selected, KeyView, LogicalSessionKey, ProviderSelection,
};
use crate::text;
use crate::text::{begins, decimal, joined, replaced, spread_numbered, trimmed, views};
use crate::time;
use crate::time::stamped;

verus! {

// ---------------------------------------------------------------------------
// Providers
// ---------------------------------------------------------------------------

/// The providers that some words name, or why they name none: without a word it is the usual one.
pub open spec fn selection_of(flags: Seq<Seq<char>>, usual: Seq<char>) -> Result<
    Option<Seq<Seq<char>>>,
    ErrorView,
> {
    if flags.len() == 0 {
        Ok(Some(seq![usual]))
    } else if all_is_mixed(flags) {
        Err(invalid("provider"@, "'all' cannot be combined with other providers"@))
    } else if flags.contains("all"@) {
        Ok(None)
    } else {
        Ok(Some(flags))
    }
}

/// The ids of the providers; nothing where all are asked for.
pub open spec fn ids_view(selection: ProviderSelection) -> Option<Seq<Seq<char>>> {
    match selection {
        ProviderSelection::All => None,
        ProviderSelection::Explicit(ids) => Some(views(ids@)),
    }
}

/// The providers that some words name: that of the host where there is no word.
pub fn provider_selection(flags: &Vec<String>, host: &Host) -> (r: Result<
    ProviderSelection,
    SnatchError,
>)
    ensures
        match selection_of(views(flags@), host.provider@) {
            Ok(ids) => r matches Ok(s) && ids_view(s) == ids,
            Err(error) => r matches Err(e) && e@ == error,
        },
{
    proof {
        assert(views(flags@).len() == flags@.len());
    }
    if flags.len() == 0 {
        let mut ids: Vec<String> = Vec::new();
        text::say(&mut ids, host.provider.as_str());
        proof {
            assert(views(ids@) =~= seq![host.provider@]);
        }
        return Ok(ProviderSelection::Explicit(ids));
    }
    match ProviderSelection::from_flags(flags) {
        Ok(selection) => Ok(selection),
        Err(reason) => Err(invalid_argument("provider", reason)),
    }
}

// ---------------------------------------------------------------------------
// References to sessions
// ---------------------------------------------------------------------------

/// A key begins as a reference does: one that names no provider is the beginning of a native id.
pub open spec fn fits_reference(
    key: KeyView,
    reference: Seq<char>,
    requested: Option<KeyView>,
) -> bool {
    match requested {
        None => begins(key.native_id, reference),
        Some(r) => key.provider == r.provider && key.namespace == r.namespace && begins(
            key.native_id,
            r.native_id,
        ),
    }
}

/// The native id, or its beginning, that a reference names.
pub open spec fn asked_id(reference: Seq<char>, requested: Option<KeyView>) -> Seq<char> {
    match requested {
        None => reference,
        Some(r) => r.native_id,
    }
}

/// A session that a reference may mean.
pub open spec fn may_mean(
    selection: ProviderSelection,
    reference: Seq<char>,
    requested: Option<KeyView>,
) -> spec_fn(LogicalSessionKey) -> bool {
    |k: LogicalSessionKey|
        provider_selected(selection, k.provider@) && fits_reference(k@, reference, requested)
}

/// A session with just this native id.
pub open spec fn has_id(id: Seq<char>) -> spec_fn(LogicalSessionKey) -> bool {
    |k: LogicalSessionKey| k.native_id@ == id
}

/// The sessions that a reference may mean: those with the whole id, where there are any.
pub open spec fn candidates(
    known: Seq<LogicalSessionKey>,
    selection: ProviderSelection,
    reference: Seq<char>,
    requested: Option<KeyView>,
) -> Seq<LogicalSessionKey> {
    let all = known.filter(may_mean(selection, reference, requested));
    let exact = all.filter(has_id(asked_id(reference, requested)));
    if exact.len() > 0 {
        exact
    } else {
        all
    }
}

/// The order of the keys of sessions.
pub open spec fn by_key() -> spec_fn(LogicalSessionKey, LogicalSessionKey) -> bool {
    |a: LogicalSessionKey, b: LogicalSessionKey| key_precedes(a@, b@)
}

/// A list without those that say the same as the one before them.
pub open spec fn once_each(keys: Seq<LogicalSessionKey>) -> Seq<LogicalSessionKey>
    decreases keys.len(),
{
    if keys.len() == 0 {
        Seq::empty()
    } else if keys.len() > 1 && keys[keys.len() - 2]@ == keys.last()@ {
        once_each(keys.drop_last())
    } else {
        once_each(keys.drop_last()).push(keys.last())
    }
}

/// The forms under which sessions are asked for.
pub open spec fn qualified_forms(keys: Seq<LogicalSessionKey>) -> Seq<Seq<char>> {
    keys.map_values(|k: LogicalSessionKey| k.qualified@)
}

/// The session that one of some candidates is, or why there is not one.
pub open spec fn the_one(keys: Seq<LogicalSessionKey>, reference: Seq<char>) -> Result<
    Seq<char>,
    ErrorView,
> {
    if keys.len() == 0 {
        Err(ErrorView::SessionNotFound { session_id: reference })
    } else if keys.len() == 1 {
        Ok(keys[0].qualified@)
    } else {
        Err(
            invalid(
                "session"@,
                "ambiguous indexed session reference '"@ + reference + "'; candidates: "@ + joined(
                    qualified_forms(keys),
                    ", "@,
                ),
            ),
        )
    }
}

/// The session that a reference means, or why it means none. `parsed` is what the reference is as
/// a key with its provider.
pub open spec fn resolution(
    known: Seq<LogicalSessionKey>,
    selection: ProviderSelection,
    reference: Seq<char>,
    parsed: Result<LogicalSessionKey, String>,
) -> Result<Seq<char>, ErrorView> {
    if reference.contains(':') {
        match parsed {
            Err(reason) => Err(invalid("session"@, reason@)),
            Ok(key) => if !provider_selected(selection, key.provider@) {
                Err(
                    invalid(
                        "session"@,
                        "qualified session "@ + reference + " belongs to unselected provider "@
                            + key.provider@,
                    ),
                )
            } else {
                the_one(
                    once_each(
                        sorted_by(candidates(known, selection, reference, Some(key@)), by_key()),
                    ),
                    reference,
                )
            },
        }
    } else {
        the_one(
            once_each(sorted_by(candidates(known, selection, reference, None), by_key())),
            reference,
        )
    }
}

fn keep_once(keys: Vec<LogicalSessionKey>) -> (r: Vec<LogicalSessionKey>)
    ensures
        r@ == once_each(keys@),
{
    let mut out: Vec<LogicalSessionKey> = Vec::new();
    let mut i: usize = 0;
    proof {
        assert(keys@.take(0) =~= Seq::empty());
    }
    while i < keys.len()
        invariant
            i <= keys@.len(),
            out@ == once_each(keys@.take(i as int)),
        decreases keys@.len() - i,
    {
        proof {
            let next = keys@.take(i + 1);
            assert(next.drop_last() =~= keys@.take(i as int));
            assert(next.last() == keys@[i as int]);
            if i > 0 {
                assert(next[next.len() - 2] == keys@[i - 1]);
            }
        }
        if i == 0 || !keys[i - 1].same(&keys[i]) {
            out.push(keys[i].copy());
        }
        i = i + 1;
    }
    proof {
        assert(keys@.take(i as int) =~= keys@);
    }
    out
}

fn choose_one(keys: Vec<LogicalSessionKey>, reference: &str) -> (r: Result<String, SnatchError>)
    ensures
        match the_one(once_each(sorted_by(keys@, by_key())), reference@) {
            Ok(q) => r matches Ok(s) && s@ == q,
            Err(error) => r matches Err(e) && e@ == error,
        },
{
    let earlier = |a: &LogicalSessionKey, b: &LogicalSessionKey| -> (o: bool)
        ensures
            o == key_precedes(a@, b@),
        { a.before(b) };
    let sorted = order::sort(keys, earlier, Ghost(by_key()));
    let found = keep_once(sorted);
    if found.len() == 0 {
        return Err(SnatchError::SessionNotFound { session_id: reference.to_owned() });
    }
    if found.len() == 1 {
        return Ok(found[0].qualified.clone());
    }
    let mut forms: Vec<String> = Vec::new();
    let write = |k: &LogicalSessionKey| -> (o: String)
        ensures
            o@ == k.qualified@,
        { k.qualified.clone() };
    let ghost g = |k: LogicalSessionKey| k.qualified@;
    text::say_each(&mut forms, &found, write, Ghost(g));
    proof {
        assert(views(forms@) =~= qualified_forms(found@));
    }
    let list = text::join(&forms, ", ");
    Err(
        invalid_argument(
            "session",
            text::cat4(
                "ambiguous indexed session reference '",
                reference,
                "'; candidates: ",
                list.as_str(),
            ),
        ),
    )
}

fn fits_key(
    key: &LogicalSessionKey,
    reference: &str,
    requested: &Option<LogicalSessionKey>,
) -> (r: bool)
    ensures
        r == fits_reference(key@, reference@, requested_view(*requested)),
{
    match requested {
        None => text::starts_with(key.native_id.as_str(), reference),
        Some(asked) => text::same(key.provider.as_str(), asked.provider.as_str()) && text::same(
            key.namespace.as_str(),
            asked.namespace.as_str(),
        ) && text::starts_with(key.native_id.as_str(), asked.native_id.as_str()),
    }
}

/// What a key that is asked for says.
pub open spec fn requested_view(requested: Option<LogicalSessionKey>) -> Option<KeyView> {
    match requested {
        None => None,
        Some(k) => Some(k@),
    }
}

fn find_candidates(
    known: Vec<LogicalSessionKey>,
    selection: &ProviderSelection,
    reference: &str,
    requested: &Option<LogicalSessionKey>,
) -> (r: Vec<LogicalSessionKey>)
    ensures
        r@ == candidates(known@, *selection, reference@, requested_view(*requested)),
{
    let ghost asked = requested_view(*requested);
    let ghost p = may_mean(*selection, reference@, asked);
    let test = |k: &LogicalSessionKey| -> (o: bool)
        ensures
            o == p(*k),
        { selection.holds(k.provider.as_str()) && fits_key(k, reference, requested) };
    let all = order::keep(known, test, Ghost(p));
    let id: String = match requested {
        None => reference.to_owned(),
        Some(k) => k.native_id.clone(),
    };
    let ghost q = has_id(asked_id(reference@, asked));
    proof {
        assert(id@ == asked_id(reference@, asked));
    }
    let is_exact = |k: &LogicalSessionKey| -> (o: bool)
        ensures
            o == q(*k),
        { text::same(k.native_id.as_str(), id.as_str()) };
    let exact: usize = order::count(&all, is_exact, Ghost(q));
    if exact > 0 {
        order::keep(all, is_exact, Ghost(q))
    } else {
        all
    }
}

/// The session that a reference means. `known` are the sessions of the index; `parsed` is what the
/// reference is as a key with its provider, which counts only for a reference with a colon.
pub fn resolve_indexed_session(
    known: Vec<LogicalSessionKey>,
    selection: &ProviderSelection,
    reference: &str,
    parsed: Result<LogicalSessionKey, String>,
) -> (r: Result<String, SnatchError>)
    ensures
        match resolution(known@, *selection, reference@, parsed) {
            Ok(q) => r matches Ok(s) && s@ == q,
            Err(error) => r matches Err(e) && e@ == error,
        },
{
    if text::contains_char(reference, ':') {
        match parsed {
            Err(reason) => Err(invalid_argument("session", reason)),
            Ok(key) => {
                if !selection.holds(key.provider.as_str()) {
                    return Err(
                        invalid_argument(
                            "session",
                            text::cat4(
                                "qualified session ",
                                reference,
                                " belongs to unselected provider ",
                                key.provider.as_str(),
                            ),
                        ),
                    );
                }
                let requested = Some(key);
                let found = find_candidates(known, selection, reference, &requested);
                choose_one(found, reference)
            },
        }
    } else {
        let requested: Option<LogicalSessionKey> = None;
        let found = find_candidates(known, selection, reference, &requested);
        choose_one(found, reference)
    }
}

proof fn lemma_once_each(keys: Seq<LogicalSessionKey>)
    ensures
        forall|i: int|
            0 <= i < once_each(keys).len() ==> keys.contains(#[trigger] once_each(keys)[i]),
        keys.len() > 0 ==> once_each(keys).len() > 0,
    decreases keys.len(),
{
    if keys.len() > 0 {
        let front = keys.drop_last();
        lemma_once_each(front);
        assert forall|i: int| 0 <= i < once_each(keys).len() implies keys.contains(
            #[trigger] once_each(keys)[i],
        ) by {
            if i < once_each(front).len() {
                let x = once_each(front)[i];
                assert(front.contains(x));
                let k = choose|k: int| 0 <= k < front.len() && front[k] == x;
                assert(keys[k] == x);
            } else {
                assert(keys[keys.len() - 1] == keys.last());
            }
        }
    }
}

/// A session that a reference is taken for is known, belongs to a selected provider and begins as
/// the reference does.
pub proof fn resolved_sessions_are_known(
    known: Seq<LogicalSessionKey>,
    selection: ProviderSelection,
    reference: Seq<char>,
    parsed: Result<LogicalSessionKey, String>,
)
    requires
        resolution(known, selection, reference, parsed) is Ok,
    ensures
        exists|k: LogicalSessionKey| #[trigger]
            known.contains(k) && k.qualified@ == resolution(known, selection, reference, parsed)->Ok_0
                && provider_selected(selection, k.provider@) && fits_reference(
                k@,
                reference,
                if reference.contains(':') {
                    Some(parsed->Ok_0@)
                } else {
                    None
                },
            ),
{
    let requested = if reference.contains(':') {
        Some(parsed->Ok_0@)
    } else {
        None
    };
    let found = candidates(known, selection, reference, requested);
    let sorted = sorted_by(found, by_key());
    lemma_once_each(sorted);
    let k = once_each(sorted)[0];
    assert(sorted.contains(k));
    order::lemma_sorted_contains(found, by_key(), k);
    let p = may_mean(selection, reference, requested);
    let all = known.filter(p);
    let q = has_id(asked_id(reference, requested));
    if all.filter(q).len() > 0 {
        order::filtered_items_fit(all, q, k);
    }
    order::filtered_items_fit(known, p, k);
    assert(known.contains(k));
}

proof fn lemma_one_key(keys: Seq<LogicalSessionKey>)
    requires
        once_each(keys).len() == 1,
    ensures
        keys.len() > 0,
        forall|i: int| 0 <= i < keys.len() ==> (#[trigger] keys[i])@ == once_each(keys)[0]@,
    decreases keys.len(),
{
    if keys.len() > 1 {
        let front = keys.drop_last();
        lemma_once_each(front);
        lemma_one_key(front);
        assert forall|i: int| 0 <= i < keys.len() implies (#[trigger] keys[i])@ == once_each(
            keys,
        )[0]@ by {
            if i < front.len() {
                assert(front[i] == keys[i]);
            } else {
                assert(front[keys.len() - 2] == keys[keys.len() - 2]);
            }
        }
    }
}

/// Where equal keys have equal forms, a reference that is taken for a session is taken for all of
/// its candidates alike: each has the form that the reference is taken for, so it makes no
/// difference which of them stands for the session.
pub proof fn candidates_share_the_form(
    known: Seq<LogicalSessionKey>,
    selection: ProviderSelection,
    reference: Seq<char>,
    parsed: Result<LogicalSessionKey, String>,
    k: LogicalSessionKey,
)
    requires
        forms_agree(known),
        resolution(known, selection, reference, parsed) is Ok,
        candidates(
            known,
            selection,
            reference,
            if reference.contains(':') {
                Some(parsed->Ok_0@)
            } else {
                None
            },
        ).contains(k),
    ensures
        k.qualified@ == resolution(known, selection, reference, parsed)->Ok_0,
{
    let requested = if reference.contains(':') {
        Some(parsed->Ok_0@)
    } else {
        None
    };
    let found = candidates(known, selection, reference, requested);
    let sorted = sorted_by(found, by_key());
    lemma_once_each(sorted);
    lemma_one_key(sorted);
    let one = once_each(sorted)[0];
    order::lemma_sorted_contains(found, by_key(), one);
    order::lemma_sorted_contains(found, by_key(), k);
    let i = choose|i: int| 0 <= i < sorted.len() && sorted[i] == k;
    assert(sorted[i]@ == one@);
    let p = may_mean(selection, reference, requested);
    let all = known.filter(p);
    let q = has_id(asked_id(reference, requested));
    if all.filter(q).len() > 0 {
        order::filtered_items_fit(all, q, one);
        order::filtered_items_fit(all, q, k);
    }
    order::filtered_items_fit(known, p, one);
    order::filtered_items_fit(known, p, k);
    assert(known.contains(one) && known.contains(k));
}

/// A whole id wins over longer ids that begin with it: where some candidate has the id that is
/// asked for, no other candidate counts.
pub proof fn whole_ids_win(
    known: Seq<LogicalSessionKey>,
    selection: ProviderSelection,
    reference: Seq<char>,
    requested: Option<KeyView>,
    exact: LogicalSessionKey,
    other: LogicalSessionKey,
)
    requires
        known.contains(exact),
        may_mean(selection, reference, requested)(exact),
        exact.native_id@ == asked_id(reference, requested),
        candidates(known, selection, reference, requested).contains(other),
    ensures
        other.native_id@ == asked_id(reference, requested),
{
    let p = may_mean(selection, reference, requested);
    let q = has_id(asked_id(reference, requested));
    let all = known.filter(p);
    order::filter_holds(known, p, exact);
    order::filter_holds(all, q, exact);
    order::filtered_items_fit(all, q, other);
}

// ---------------------------------------------------------------------------
// Requests
// ---------------------------------------------------------------------------

/// What can be asked of the index.
#[derive(Debug, Clone, PartialEq, Eq)]
pub enum IndexSubcommand {
    /// Bring it up to date.
    Build {
        /// The providers.
        provider: Vec<String>,
        /// The projects whose paths hold this.
        project: Option<String>,
    },
    /// Make it anew.
    Rebuild {
        /// The providers.
        provider: Vec<String>,
        /// The projects whose paths hold this.
        project: Option<String>,
    },
    /// Tell how it is.
    Status,
    /// Empty it.
    Clear,
    /// Look for something in it.
    Search {
        /// What is looked for.
        query: String,
        /// The providers.
        provider: Vec<String>,
        /// The most that is shown.
        limit: Option<usize>,
    },
}

/// What is done with the index.
#[derive(Debug, Clone, PartialEq, Eq)]
pub enum IndexPlan {
    /// Bring it up to date for these providers.
    Build(ProviderSelection),
    /// Make it anew for these providers.
    Rebuild(ProviderSelection),
    /// Tell how it is.
    Status,
    /// Empty it.
    Clear,
    /// Look for something of these providers, and show this many at most.
    Search(ProviderSelection, usize),
}

/// Why the index cannot be made anew for one project.
pub open spec fn needs_all() -> ErrorView {
    invalid(
        "project"@,
        "provider-index rebuild requires complete provider coverage; use 'index build --project' for an upsert-only filtered update"@,
    )
}

/// Why nothing can be looked for.
pub open spec fn empty_query() -> ErrorView {
    invalid("query"@, "search query cannot be empty or whitespace-only"@)
}

/// A result with the providers that some words name.
pub open spec fn with_selection(
    r: Result<IndexPlan, SnatchError>,
    flags: Seq<Seq<char>>,
    usual: Seq<char>,
    selected: Option<ProviderSelection>,
) -> bool {
    match selection_of(flags, usual) {
        Err(error) => r matches Err(e) && e@ == error,
        Ok(ids) => r is Ok && (selected matches Some(s) && ids_view(s) == ids),
    }
}

/// What is done for a request, or why it is refused.
pub fn run(command: &IndexSubcommand, host: &Host) -> (r: Result<IndexPlan, SnatchError>)
    ensures
        match *command {
            IndexSubcommand::Build { provider, project } => with_selection(
                r,
                views(provider@),
                host.provider@,
                match r {
                    Ok(IndexPlan::Build(s)) => Some(s),
                    _ => None,
                },
            ),
            IndexSubcommand::Rebuild { provider, project } => if project is Some {
                r matches Err(e) && e@ == needs_all()
            } else {
                with_selection(
                    r,
                    views(provider@),
                    host.provider@,
                    match r {
                        Ok(IndexPlan::Rebuild(s)) => Some(s),
                        _ => None,
                    },
                )
            },
            IndexSubcommand::Status => r == Ok::<IndexPlan, SnatchError>(IndexPlan::Status),
            IndexSubcommand::Clear => r == Ok::<IndexPlan, SnatchError>(IndexPlan::Clear),
            IndexSubcommand::Search { query, provider, limit } => if trimmed(query@).len() == 0 {
                r matches Err(e) && e@ == empty_query()
            } else {
                with_selection(
                    r,
                    views(provider@),
                    host.provider@,
                    match r {
                        Ok(IndexPlan::Search(s, n)) => if n == (match limit {
                            Some(m) => m,
                            None => 100usize,
                        }) {
                            Some(s)
                        } else {
                            None
                        },
                        _ => None,
                    },
                )
            },
        },
{
    match command {
        IndexSubcommand::Build { provider, project: _ } => match provider_selection(provider, host) {
            Ok(s) => Ok(IndexPlan::Build(s)),
            Err(e) => Err(e),
        },
        IndexSubcommand::Rebuild { provider, project } => {
            if project.is_some() {
                return Err(
                    invalid_argument(
                        "project",
                        "provider-index rebuild requires complete provider coverage; use 'index build --project' for an upsert-only filtered update".to_owned(),
                    ),
                );
            }
            match provider_selection(provider, host) {
                Ok(s) => Ok(IndexPlan::Rebuild(s)),
                Err(e) => Err(e),
            }
        },
        IndexSubcommand::Status => Ok(IndexPlan::Status),
        IndexSubcommand::Clear => Ok(IndexPlan::Clear),
        IndexSubcommand::Search { query, provider, limit } => {
            let kept = text::trim(query.as_str());
            if kept.as_str().unicode_len() == 0 {
                return Err(
                    invalid_argument(
                        "query",
                        "search query cannot be empty or whitespace-only".to_owned(),
                    ),
                );
            }
            match provider_selection(provider, host) {
                Ok(s) => {
                    let most: usize = match limit {
                        Some(n) => *n,
                        None => 100,
                    };
                    Ok(IndexPlan::Search(s, most))
                },
                Err(e) => Err(e),
            }
        },
    }
}

// ---------------------------------------------------------------------------
// What was done
// ---------------------------------------------------------------------------

/// A number and how it is shown.
#[derive(Debug, Clone, PartialEq, Eq)]
pub struct ShownCount {
    /// The number.
    pub count: usize,
    /// How it is shown.
    pub shown: String,
}

/// What came of bringing the index up to date.
#[derive(Debug, Clone, PartialEq, Eq)]
pub struct BuildReport {
    /// The entries that were written, as shown.
    pub entries_replaced: String,
    /// The sessions that were written, as shown.
    pub sessions_replaced: String,
    /// The sessions that were as before, as shown.
    pub sessions_unchanged: String,
    /// The sessions that are gone, as shown.
    pub sessions_removed: String,
    /// The state of the index.
    pub generation: String,
    /// The sessions that were passed over.
    pub skipped: ShownCount,
    /// The warnings.
    pub warnings: ShownCount,
    /// Whether all sessions that are gone are known.
    pub removal_coverage_complete: bool,
}

/// The line of what was not covered, where there is something.
pub open spec fn coverage_lines(report: BuildReport) -> Seq<Seq<char>> {
    if report.skipped.count > 0 || report.warnings.count > 0 || !report.removal_coverage_complete {
        seq![
            "Coverage: "@ + report.skipped.shown@ + " skipped, "@ + report.warnings.shown@
                + " warnings"@ + (if report.removal_coverage_complete {
                ""@
            } else {
                " (removal coverage incomplete)"@
            }),
        ]
    } else {
        Seq::empty()
    }
}

/// What is printed after the index was brought up to date.
pub open spec fn build_lines(report: BuildReport) -> Seq<Seq<char>> {
    seq![
        "Indexed "@ + report.entries_replaced@ + " entries from "@ + report.sessions_replaced@
            + " changed sessions ("@ + report.sessions_unchanged@ + " unchanged, "@
            + report.sessions_removed@ + " removed)"@,
        "Generation: "@ + report.generation@,
    ] + coverage_lines(report)
}

/// What is printed after the index was brought up to date.
pub fn print_build(report: &BuildReport) -> (r: Vec<String>)
    ensures
        views(r@) == build_lines(*report),
{
    let mut out: Vec<String> = Vec::new();
    let from = text::cat5(
        "Indexed ",
        report.entries_replaced.as_str(),
        " entries from ",
        report.sessions_replaced.as_str(),
        " changed sessions (",
    );
    text::say5(
        &mut out,
        from.as_str(),
        report.sessions_unchanged.as_str(),
        " unchanged, ",
        report.sessions_removed.as_str(),
        " removed)",
    );
    text::say2(&mut out, "Generation: ", report.generation.as_str());
    if report.skipped.count > 0 || report.warnings.count > 0 || !report.removal_coverage_complete {
        let counts = text::cat5(
            "Coverage: ",
            report.skipped.shown.as_str(),
            " skipped, ",
            report.warnings.shown.as_str(),
            " warnings",
        );
        if report.removal_coverage_complete {
            text::say2(&mut out, counts.as_str(), "");
        } else {
            text::say2(&mut out, counts.as_str(), " (removal coverage incomplete)");
        }
    }
    proof {
        assert(views(out@) =~= build_lines(*report));
    }
    out
}

/// What is printed after the index was made anew.
pub fn print_rebuild(report: &BuildReport, backup: &Option<String>) -> (r: Vec<String>)
    ensures
        views(r@) == seq![
            "Rebuilt index with "@ + report.entries_replaced@ + " entries from "@
                + report.sessions_replaced@ + " sessions"@,
            "Generation: "@ + report.generation@,
        ] + (match *backup {
            Some(path) => seq!["Previous index retained at: "@ + path@],
            None => Seq::empty(),
        }),
{
    let mut out: Vec<String> = Vec::new();
    text::say5(
        &mut out,
        "Rebuilt index with ",
        report.entries_replaced.as_str(),
        " entries from ",
        report.sessions_replaced.as_str(),
        " sessions",
    );
    text::say2(&mut out, "Generation: ", report.generation.as_str());
    match backup {
        Some(path) => text::say2(&mut out, "Previous index retained at: ", path.as_str()),
        None => {},
    }
    proof {
        assert(views(out@) =~= seq![
            "Rebuilt index with "@ + report.entries_replaced@ + " entries from "@
                + report.sessions_replaced@ + " sessions"@,
            "Generation: "@ + report.generation@,
        ] + (match *backup {
            Some(path) => seq!["Previous index retained at: "@ + path@],
            None => Seq::empty(),
        }));
    }
    out
}

/// How the index was last brought up to date.
#[derive(Debug, Clone, PartialEq, Eq)]
pub struct BuildState {
    /// The state of the index.
    pub generation: String,
    /// When it was built.
    pub built_at: i128,
    /// The providers that are covered whole.
    pub complete_providers: Vec<String>,
    /// Whether all sessions that are gone are known.
    pub removal_coverage_complete: bool,
    /// How many sessions were passed over.
    pub skipped: usize,
}

/// How the index is.
#[derive(Debug, Clone, PartialEq, Eq)]
pub struct IndexStatus {
    /// Where it is.
    pub path: String,
    /// The version of its form.
    pub schema_version: u64,
    /// The number of documents, as shown.
    pub documents: String,
    /// The number of sessions, as shown.
    pub sessions: String,
    /// The number of entries, as shown.
    pub entries: String,
    /// Its size, as shown.
    pub size: String,
    /// How it was last brought up to date.
    pub build: Option<BuildState>,
}

/// The numbers of the index.
pub open spec fn status_numbers(s: IndexStatus) -> Seq<Seq<char>> {
    seq![
        "Search Index Status"@,
        "==================="@,
        "Path: "@ + s.path@,
        "Schema: "@ + decimal(s.schema_version as nat),
        "Documents: "@ + s.documents@,
        "Sessions: "@ + s.sessions@,
        "Entries: "@ + s.entries@,
        "Size: "@ + s.size@,
    ]
}

/// How the index was built.
pub open spec fn status_build(build: Option<BuildState>) -> Seq<Seq<char>> {
    match build {
        None => seq![""@, "Index is empty. Run 'snatch index build' to create it."@],
        Some(b) => {
            let lines = seq![
                "Generation: "@ + b.generation@,
                "Built: "@ + (match stamped(b.built_at, false) {
                    Some(s) => s,
                    None => ""@,
                }),
                "Complete providers: "@ + (if b.complete_providers@.len() == 0 {
                    "none"@
                } else {
                    joined(views(b.complete_providers@), ", "@)
                }),
            ];
            if !b.removal_coverage_complete || b.skipped > 0 {
                lines.push("Coverage: incomplete"@)
            } else {
                lines
            }
        },
    }
}

/// What is printed of how the index is.
pub fn print_status(s: &IndexStatus) -> (r: Vec<String>)
    ensures
        views(r@) == status_numbers(*s) + status_build(s.build),
{
    let mut out: Vec<String> = Vec::new();
    let schema = text::number(s.schema_version);
    text::say(&mut out, "Search Index Status");
    text::say(&mut out, "===================");
    text::say2(&mut out, "Path: ", s.path.as_str());
    text::say2(&mut out, "Schema: ", schema.as_str());
    text::say2(&mut out, "Documents: ", s.documents.as_str());
    text::say2(&mut out, "Sessions: ", s.sessions.as_str());
    text::say2(&mut out, "Entries: ", s.entries.as_str());
    text::say2(&mut out, "Size: ", s.size.as_str());
    proof {
        assert(views(out@) =~= status_numbers(*s));
    }
    match &s.build {
        None => {
            text::say(&mut out, "");
            text::say(&mut out, "Index is empty. Run 'snatch index build' to create it.");
        },
        Some(b) => {
            text::say2(&mut out, "Generation: ", b.generation.as_str());
            let built: String = match time::stamp(b.built_at, false) {
                Some(s) => s,
                None => "".to_owned(),
            };
            text::say2(&mut out, "Built: ", built.as_str());
            if b.complete_providers.len() == 0 {
                text::say2(&mut out, "Complete providers: ", "none");
            } else {
                let list = text::join(&b.complete_providers, ", ");
                text::say2(&mut out, "Complete providers: ", list.as_str());
            }
            if !b.removal_coverage_complete || b.skipped > 0 {
                text::say(&mut out, "Coverage: incomplete");
            }
        },
    }
    proof {
        assert(views(out@) =~= status_numbers(*s) + status_build(s.build));
    }
    out
}

/// What is printed after the index was emptied.
pub fn print_clear(format: OutputFormat) -> (r: String)
    ensures
        r@ == (if format == OutputFormat::Json {
            "{\"status\": \"cleared\"}"@
        } else {
            "Search index cleared."@
        }),
{
    if format == OutputFormat::Json {
        "{\"status\": \"cleared\"}".to_owned()
    } else {
        "Search index cleared.".to_owned()
    }
}

// ---------------------------------------------------------------------------
// What was found
// ---------------------------------------------------------------------------

/// A match.
#[derive(Debug, Clone, PartialEq, Eq)]
pub struct IndexHit {
    /// The provider.
    pub provider: String,
    /// The session.
    pub session_key: String,
    /// Its project.
    pub project_path: String,
    /// The entry.
    pub entry_id: String,
    /// The kind of the entry.
    pub message_type: String,
    /// Where in the entry.
    pub location: String,
    /// How good the match is, as shown.
    pub score: String,
    /// The line.
    pub line: String,
    /// What matched.
    pub matched_text: String,
    /// The lines before.
    pub context_before: String,
    /// The lines after.
    pub context_after: String,
}

/// What a search gave.
#[derive(Debug, Clone, PartialEq, Eq)]
pub struct IndexResponse {
    /// The matches that are shown.
    pub matches: Vec<IndexHit>,
    /// The number of all matches, as shown.
    pub total_matches: String,
    /// The number of all occurrences, as shown.
    pub total_occurrences: String,
    /// The number of sessions with a match, as shown.
    pub sessions_matched: String,
    /// The number of matches that are shown, as shown.
    pub returned: String,
    /// Whether the index does not cover everything.
    pub incomplete: bool,
    /// The state of the index.
    pub generation: String,
}

/// The row of a match.
pub open spec fn hit_row(h: IndexHit) -> Seq<char> {
    h.provider@ + "\t"@ + h.session_key@ + "\t"@ + replaced(h.project_path@, '\t', " "@) + "\t"@
        + h.entry_id@ + "\t"@ + h.message_type@ + "\t"@ + h.location@ + "\t"@ + h.score@ + "\t"@
        + replaced(replaced(h.line@, '\t', " "@), '\n', " "@)
}

fn write_row(h: &IndexHit) -> (r: String)
    ensures
        r@ == hit_row(*h),
{
    let project = text::replace(h.project_path.as_str(), '\t', " ");
    let no_tabs = text::replace(h.line.as_str(), '\t', " ");
    let line = text::replace(no_tabs.as_str(), '\n', " ");
    let a = text::cat5(
        h.provider.as_str(),
        "\t",
        h.session_key.as_str(),
        "\t",
        project.as_str(),
    );
    let b = text::cat5(a.as_str(), "\t", h.entry_id.as_str(), "\t", h.message_type.as_str());
    let c = text::cat5(b.as_str(), "\t", h.location.as_str(), "\t", h.score.as_str());
    text::cat3(c.as_str(), "\t", line.as_str())
}

/// The short line of a match.
pub open spec fn hit_line(h: IndexHit) -> Seq<char> {
    h.session_key@ + ":"@ + h.message_type@ + ":"@ + h.location@ + ": "@ + h.matched_text@
}

fn write_line(h: &IndexHit) -> (r: String)
    ensures
        r@ == hit_line(*h),
{
    let a = text::cat5(
        h.session_key.as_str(),
        ":",
        h.message_type.as_str(),
        ":",
        h.location.as_str(),
    );
    text::cat3(a.as_str(), ": ", h.matched_text.as_str())
}

/// The lines around a match, where there are some.
pub open spec fn around(context: Seq<char>) -> Seq<Seq<char>> {
    if context.len() == 0 {
        Seq::empty()
    } else {
        seq!["    "@ + replaced(context, '\n', "\n    "@)]
    }
}

fn say_around(out: &mut Vec<String>, context: &str)
    ensures
        views(final(out)@) == views(old(out)@) + around(context@),
{
    let ghost start = views(out@);
    if context.unicode_len() > 0 {
        let indented = text::replace(context, '\n', "\n    ");
        text::say2(out, "    ", indented.as_str());
    }
    proof {
        assert(views(out@) =~= start + around(context@));
    }
}

/// The heading of a session, before its first match in a row.
pub open spec fn session_heading(h: IndexHit, current: Seq<char>) -> Seq<Seq<char>> {
    if h.session_key@ != current {
        seq![""@, "Session: "@ + h.session_key@ + " ("@ + h.project_path@ + ")"@]
    } else {
        Seq::empty()
    }
}

/// The lines of a match for a reader. `current` is the session of the match before.
pub open spec fn hit_lines(h: IndexHit, current: Seq<char>) -> Seq<Seq<char>> {
    session_heading(h, current) + seq![
        ""@,
        "  ["@ + h.message_type@ + " - score: "@ + h.score@ + "] "@ + h.location@,
    ] + around(h.context_before@) + seq!["  > "@ + h.line@] + around(h.context_after@)
}

fn write_hit(h: &IndexHit, current: &str) -> (r: Vec<String>)
    ensures
        views(r@) == hit_lines(*h, current@),
{
    let mut out: Vec<String> = Vec::new();
    if !text::same(h.session_key.as_str(), current) {
        text::say(&mut out, "");
        text::say5(
            &mut out,
            "Session: ",
            h.session_key.as_str(),
            " (",
            h.project_path.as_str(),
            ")",
        );
    }
    text::say(&mut out, "");
    let head = text::cat5(
        "  [",
        h.message_type.as_str(),
        " - score: ",
        h.score.as_str(),
        "] ",
    );
    text::say2(&mut out, head.as_str(), h.location.as_str());
    proof {
        assert(views(out@) =~= session_heading(*h, current@) + seq![
            ""@,
            "  ["@ + h.message_type@ + " - score: "@ + h.score@ + "] "@ + h.location@,
        ]);
    }
    say_around(&mut out, h.context_before.as_str());
    let ghost before = views(out@);
    text::say2(&mut out, "  > ", h.line.as_str());
    proof {
        assert(views(out@) =~= before + seq!["  > "@ + h.line@]);
    }
    say_around(&mut out, h.context_after.as_str());
    out
}

/// The session of the match before.
pub open spec fn session_before(hits: Seq<IndexHit>, i: int) -> Seq<char> {
    if i <= 0 || i > hits.len() {
        ""@
    } else {
        hits[i - 1].session_key@
    }
}

/// The line of the numbers of a search.
pub open spec fn found_line(response: IndexResponse) -> Seq<char> {
    "Found "@ + response.total_matches@ + " matches ("@ + response.total_occurrences@
        + " occurrences across "@ + response.sessions_matched@ + " sessions); showing "@
        + response.returned@ + ":"@
}

/// The matches for a reader.
pub open spec fn found_lines(response: IndexResponse) -> Seq<Seq<char>> {
    if response.matches@.len() == 0 {
        seq!["No matches found."@]
    } else {
        seq![found_line(response)] + spread_numbered(
            response.matches@,
            |i: int, h: IndexHit| hit_lines(h, session_before(response.matches@, i)),
        )
    }
}

/// What is printed of a search. Nothing is printed here for JSON, which is written whole.
pub open spec fn response_lines(format: OutputFormat, response: IndexResponse) -> Seq<Seq<char>> {
    match format {
        OutputFormat::Json => Seq::empty(),
        OutputFormat::Tsv => seq![
            "provider\tsession\tproject\tentry\ttype\tlocation\tscore\tline"@,
        ] + response.matches@.map_values(|h: IndexHit| hit_row(h)),
        OutputFormat::Compact => response.matches@.map_values(|h: IndexHit| hit_line(h)),
        OutputFormat::Text => found_lines(response),
    }
}

fn print_found(response: &IndexResponse) -> (r: Vec<String>)
    ensures
        views(r@) == found_lines(*response),
{
    let mut out: Vec<String> = Vec::new();
    if response.matches.len() == 0 {
        text::say(&mut out, "No matches found.");
        proof {
            assert(views(out@) =~= seq!["No matches found."@]);
        }
        return out;
    }
    let a = text::cat5(
        "Found ",
        response.total_matches.as_str(),
        " matches (",
        response.total_occurrences.as_str(),
        " occurrences across ",
    );
    text::say5(
        &mut out,
        a.as_str(),
        response.sessions_matched.as_str(),
        " sessions); showing ",
        response.returned.as_str(),
        ":",
    );
    proof {
        assert(views(out@) =~= seq![found_line(*response)]);
    }
    let hits = &response.matches;
    let write = |i: usize, h: &IndexHit| -> (o: Vec<String>)
        ensures
            views(o@) == hit_lines(*h, session_before(hits@, i as int)),
        {
            if i == 0 || i > hits.len() {
                write_hit(h, "")
            } else {
                write_hit(h, hits[i - 1].session_key.as_str())
            }
        };
    let ghost g = |i: int, h: IndexHit| hit_lines(h, session_before(response.matches@, i));
    text::say_numbered(&mut out, hits, write, Ghost(g));
    out
}

/// What is printed of a search.
pub fn output_search_response(format: OutputFormat, response: &IndexResponse) -> (r: Vec<String>)
    ensures
        views(r@) == response_lines(format, *response),
{
    let mut out: Vec<String> = Vec::new();
    proof {
        assert(views(out@) =~= Seq::empty());
    }
    match format {
        OutputFormat::Json => out,
        OutputFormat::Tsv => {
            text::say(
                &mut out,
                "provider\tsession\tproject\tentry\ttype\tlocation\tscore\tline",
            );
            let ghost g = |h: IndexHit| hit_row(h);
            text::say_each(&mut out, &response.matches, write_row, Ghost(g));
            proof {
                assert(views(out@) =~= response_lines(format, *response));
            }
            out
        },
        OutputFormat::Compact => {
            let ghost g = |h: IndexHit| hit_line(h);
            text::say_each(&mut out, &response.matches, write_line, Ghost(g));
            proof {
                assert(views(out@) =~= response_lines(format, *response));
            }
            out
        },
        OutputFormat::Text => print_found(response),
    }
}

/// The warning that the index does not cover everything.
pub fn coverage_warning(format: OutputFormat, quiet: bool, response: &IndexResponse) -> (r: Option<
    String,
>)
    ensures
        if format != OutputFormat::Json && response.incomplete && !quiet {
            r matches Some(s) && s@
                == "Warning: indexed coverage is incomplete for generation "@ + response.generation@
        } else {
            r is None
        },
{
    if format != OutputFormat::Json && response.incomplete && !quiet {
        Some(
            text::cat2(
                "Warning: indexed coverage is incomplete for generation ",
                response.generation.as_str(),
            ),
        )
    } else {
        None
    }
}

// ---------------------------------------------------------------------------
// What a reference means
// ---------------------------------------------------------------------------

/// A session may be meant: its provider is one of those that are asked for, and its id begins with
/// the reference, or, where the reference names a provider and a namespace, it has these and its id
/// begins with the id in the reference.
pub open spec fn can_be_meant(
    k: LogicalSessionKey,
    selection: ProviderSelection,
    reference: Seq<char>,
    requested: Option<KeyView>,
) -> bool {
    &&& selection matches ProviderSelection::Explicit(ids) ==> exists|i: int|
        0 <= i < ids@.len() && (#[trigger] ids@[i])@ == k.provider@
    &&& requested is None ==> begins(k.native_id@, reference)
    &&& requested is Some ==> k@.provider == requested->0.provider && k@.namespace
        == requested->0.namespace && begins(k.native_id@, requested->0.native_id)
}

proof fn lemma_can_be_meant(
    k: LogicalSessionKey,
    selection: ProviderSelection,
    reference: Seq<char>,
    requested: Option<KeyView>,
)
    ensures
        may_mean(selection, reference, requested)(k) == can_be_meant(
            k,
            selection,
            reference,
            requested,
        ),
{
    match selection {
        ProviderSelection::All => {},
        ProviderSelection::Explicit(ids) => {
            let words = views(ids@);
            if words.contains(k.provider@) {
                let i = choose|i: int| 0 <= i < words.len() && words[i] == k.provider@;
                assert(ids@[i]@ == k.provider@);
            }
            if exists|i: int| 0 <= i < ids@.len() && (#[trigger] ids@[i])@ == k.provider@ {
                let i = choose|i: int| 0 <= i < ids@.len() && (#[trigger] ids@[i])@ == k.provider@;
                assert(words[i] == k.provider@);
            }
        },
    }
}

/// A known session is a candidate if and only if it may be meant and, where the id that is asked for
/// is the whole id of some session that may be meant, its own id is that id too.
pub proof fn candidates_can_be_meant(
    known: Seq<LogicalSessionKey>,
    selection: ProviderSelection,
    reference: Seq<char>,
    requested: Option<KeyView>,
    k: LogicalSessionKey,
)
    ensures
        ({
            let id = match requested {
                None => reference,
                Some(r) => r.native_id,
            };
            candidates(known, selection, reference, requested).contains(k) <==> known.contains(k)
                && can_be_meant(k, selection, reference, requested) && ((exists|e: LogicalSessionKey|
             #[trigger]
                known.contains(e) && can_be_meant(e, selection, reference, requested)
                    && e.native_id@ == id) ==> k.native_id@ == id)
        }),
{
    let p = may_mean(selection, reference, requested);
    let id = asked_id(reference, requested);
    let all = known.filter(p);
    let exact = all.filter(has_id(id));
    order::filtering_is_exact(known, p);
    order::filtering_is_exact(all, has_id(id));
    lemma_can_be_meant(k, selection, reference, requested);
    assert(all.contains(k) <==> known.contains(k) && p(k));
    assert(exact.contains(k) <==> all.contains(k) && has_id(id)(k));
    if exact.len() > 0 {
        let e = exact[0];
        assert(exact.contains(e));
        assert(all.contains(e) && known.contains(e));
        lemma_can_be_meant(e, selection, reference, requested);
    }
    if exists|e: LogicalSessionKey| #[trigger]
        known.contains(e) && can_be_meant(e, selection, reference, requested) && e.native_id@ == id {
        let e = choose|e: LogicalSessionKey| #[trigger]
            known.contains(e) && can_be_meant(e, selection, reference, requested) && e.native_id@
                == id;
        lemma_can_be_meant(e, selection, reference, requested);
        assert(all.contains(e));
        assert(exact.contains(e));
    }
}

proof fn lemma_all_one(keys: Seq<LogicalSessionKey>, key: KeyView)
    requires
        keys.len() > 0,
        forall|i: int| 0 <= i < keys.len() ==> (#[trigger] keys[i])@ == key,
    ensures
        once_each(keys).len() == 1,
    decreases keys.len(),
{
    if keys.len() > 1 {
        let front = keys.drop_last();
        assert forall|i: int| 0 <= i < front.len() implies (#[trigger] front[i])@ == key by {
            assert(front[i] == keys[i]);
        }
        lemma_all_one(front, key);
        assert(keys[keys.len() - 2]@ == keys[keys.len() - 1]@);
    } else {
        assert(once_each(keys.drop_last()) =~= Seq::empty());
    }
}

proof fn lemma_the_one(found: Seq<LogicalSessionKey>, reference: Seq<char>)
    ensures
        ({
            let r = the_one(once_each(sorted_by(found, by_key())), reference);
            &&& r is Ok <==> found.len() > 0 && forall|i: int, j: int|
                0 <= i < j < found.len() ==> (#[trigger] found[i])@ == (#[trigger] found[j])@
            &&& r matches Ok(form) ==> exists|i: int|
                0 <= i < found.len() && (#[trigger] found[i]).qualified@ == form
            &&& found.len() == 0 ==> r == Err::<Seq<char>, ErrorView>(
                ErrorView::SessionNotFound { session_id: reference },
            )
        }),
{
    let sorted = sorted_by(found, by_key());
    let once = once_each(sorted);
    order::sorting_permutes(found, by_key());
    lemma_once_each(sorted);
    if once.len() == 1 {
        lemma_one_key(sorted);
        assert forall|i: int, j: int| 0 <= i < j < found.len() implies (#[trigger] found[i])@ == (
        #[trigger] found[j])@ by {
            order::lemma_sorted_contains(found, by_key(), found[i]);
            order::lemma_sorted_contains(found, by_key(), found[j]);
            let x = choose|x: int| 0 <= x < sorted.len() && sorted[x] == found[i];
            let y = choose|y: int| 0 <= y < sorted.len() && sorted[y] == found[j];
            assert(sorted[x]@ == once[0]@ && sorted[y]@ == once[0]@);
        }
        order::lemma_sorted_contains(found, by_key(), once[0]);
        let i = choose|i: int| 0 <= i < found.len() && found[i] == once[0];
        assert(found[i].qualified@ == once[0].qualified@);
    }
    if found.len() > 0 && forall|i: int, j: int|
        0 <= i < j < found.len() ==> (#[trigger] found[i])@ == (#[trigger] found[j])@ {
        assert forall|x: int| 0 <= x < sorted.len() implies (#[trigger] sorted[x])@
            == found[0]@ by {
            assert(sorted.contains(sorted[x]));
            order::lemma_sorted_contains(found, by_key(), sorted[x]);
            let i = choose|i: int| 0 <= i < found.len() && found[i] == sorted[x];
            assert(found[i]@ == found[0]@);
        }
        lemma_all_one(sorted, found[0]@);
    }
}

/// A reference resolves if and only if there is a candidate and all candidates are one session; it
/// resolves to the written form of a candidate, and without a candidate the session is not found.
pub proof fn single_candidates_resolve(
    known: Seq<LogicalSessionKey>,
    selection: ProviderSelection,
    reference: Seq<char>,
    parsed: Result<LogicalSessionKey, String>,
    requested: Option<KeyView>,
)
    requires
        requested is Some <==> reference.contains(':'),
        requested matches Some(k) ==> parsed is Ok && parsed->Ok_0@ == k && (selection
            matches ProviderSelection::Explicit(ids) ==> views(ids@).contains(
            parsed->Ok_0.provider@,
        )),
    ensures
        ({
            let found = candidates(known, selection, reference, requested);
            let r = resolution(known, selection, reference, parsed);
            &&& r is Ok <==> found.len() > 0 && forall|i: int, j: int|
                0 <= i < j < found.len() ==> (#[trigger] found[i])@ == (#[trigger] found[j])@
            &&& r matches Ok(form) ==> exists|i: int|
                0 <= i < found.len() && (#[trigger] found[i]).qualified@ == form
            &&& found.len() == 0 ==> r == Err::<Seq<char>, ErrorView>(
                ErrorView::SessionNotFound { session_id: reference },
            )
        }),
{
    lemma_the_one(candidates(known, selection, reference, requested), reference);
}

/// A reference with a colon that cannot be read, or whose provider is not asked for, is refused.
pub proof fn foreign_references_are_refused(
    known: Seq<LogicalSessionKey>,
    selection: ProviderSelection,
    reference: Seq<char>,
    parsed: Result<LogicalSessionKey, String>,
)
    requires
        reference.contains(':'),
        parsed is Err || (selection matches ProviderSelection::Explicit(ids) && !views(
            ids@,
        ).contains(parsed->Ok_0.provider@)),
    ensures
        resolution(known, selection, reference, parsed) is Err,
{
}

/// Without a word the usual provider is taken, the word `all` alone stands for every provider, beside
/// other words it is refused, and other words stand for themselves.
pub proof fn words_select_providers(flags: Seq<Seq<char>>, usual: Seq<char>)
    ensures
        flags.len() == 0 ==> selection_of(flags, usual) == Ok::<_, ErrorView>(Some(seq![usual])),
        flags.len() == 1 && flags[0] == "all"@ ==> selection_of(flags, usual) == Ok::<
            Option<Seq<Seq<char>>>,
            ErrorView,
        >(None),
        flags.len() > 1 && (exists|i: int| 0 <= i < flags.len() && #[trigger] flags[i] == "all"@)
            ==> selection_of(flags, usual) is Err,
        flags.len() > 0 && (forall|i: int| 0 <= i < flags.len() ==> #[trigger] flags[i] != "all"@)
            ==> selection_of(flags, usual) == Ok::<_, ErrorView>(Some(flags)),
{
    if flags.len() == 1 && flags[0] == "all"@ {
        assert(flags.contains("all"@));
    }
}

// ---------------------------------------------------------------------------
// What calls hand back
// ---------------------------------------------------------------------------

/// An index is made anew for whole providers alone, and something must be looked for; a search
/// shows as many as were asked for, and a hundred where no number was given.
pub proof fn searches_look_for_something(
    query: String,
    provider: Vec<String>,
    limit: Option<usize>,
    project: Option<String>,
    host: Host,
    searched: Result<IndexPlan, SnatchError>,
    rebuilt: Result<IndexPlan, SnatchError>,
)
    ensures
        call_ensures(
            run,
            (&IndexSubcommand::Search { query, provider, limit }, &host),
            searched,
        ) ==> {
            &&& trimmed(query@).len() == 0 ==> searched is Err
            &&& searched matches Ok(plan) ==> plan is Search
            &&& searched matches Ok(IndexPlan::Search(_, n)) ==> (limit matches Some(m) ==> n == m)
                && (limit is None ==> n == 100)
            &&& trimmed(query@).len() > 0 && provider@.len() == 0 ==> (searched matches Ok(
                IndexPlan::Search(ProviderSelection::Explicit(ids), _),
            ) && views(ids@) == seq![host.provider@])
        },
        call_ensures(run, (&IndexSubcommand::Rebuild { provider, project }, &host), rebuilt) ==> {
            &&& project is Some ==> rebuilt is Err
            &&& rebuilt matches Ok(plan) ==> plan is Rebuild
            &&& project is None && provider@.len() == 0 ==> (rebuilt matches Ok(
                IndexPlan::Rebuild(ProviderSelection::Explicit(ids)),
            ) && views(ids@) == seq![host.provider@])
        },
{
    assert(views(provider@).len() == provider@.len());
}

} // verus!
